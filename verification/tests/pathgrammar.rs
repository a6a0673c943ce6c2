//! The path grammar helpers, the snapshot lookup and the overlay.

use dotfiler::dotconfig::DotConfig;
use dotfiler::dotpath::config_file_name;
use dotfiler::errors::DotError;
use dotfiler::fstree::find_entry;
use dotfiler::fstree::FsChild;
use dotfiler::fstree::FsTree;
use dotfiler::paths::is_blank_str;
use dotfiler::paths::is_space;
use dotfiler::paths::join;
use dotfiler::paths::name_of_str;
use dotfiler::paths::split;
use dotfiler::paths::str_eq;

#[test]
fn join_inserts_one_separator() {
    assert_eq!(join("a", "b").as_str(), "a/b");
    assert_eq!(join("a/", "b").as_str(), "a/b");
    assert_eq!(join("", "b").as_str(), "b");
    assert_eq!(join("home/user", "notes.txt").as_str(), "home/user/notes.txt");
}

#[test]
fn split_drops_empty_components() {
    assert_eq!(split("a/b.txt"), vec!["a".to_string(), "b.txt".to_string()]);
    assert_eq!(split("a//b/"), vec!["a".to_string(), "b".to_string()]);
    assert_eq!(split("/a"), vec!["a".to_string()]);
    assert_eq!(split(""), Vec::<String>::new());
    assert_eq!(split("///"), Vec::<String>::new());
}

#[test]
fn name_of_str_takes_the_last_component() {
    assert_eq!(name_of_str("a/b/"), Some("b".to_string()));
    assert_eq!(name_of_str("a"), Some("a".to_string()));
    assert_eq!(name_of_str("home/user/notes.txt"), Some("notes.txt".to_string()));
    assert_eq!(name_of_str("/"), None);
    assert_eq!(name_of_str("///"), None);
    assert_eq!(name_of_str(""), None);
}

#[test]
fn blankness_of_paths() {
    assert!(is_blank_str(""));
    assert!(is_blank_str("  \t\n"));
    assert!(!is_blank_str(" x "));
    assert!(is_space(' '));
    assert!(!is_space('x'));
}

#[test]
fn string_equality_is_by_characters() {
    assert!(str_eq("abc", "abc"));
    assert!(!str_eq("abc", "abd"));
    assert!(!str_eq("abc", "ab"));
    assert!(str_eq("", ""));
}

#[test]
fn the_config_file_name_is_fixed() {
    assert_eq!(config_file_name(), ".dotfiler.yml");
}

#[test]
fn overlay_loads_only_text_that_parses() {
    let mut overlay = DotConfig::new();
    assert!(!overlay.is_loaded());
    let err = overlay.load_from_file("key: [unclosed").unwrap_err();
    assert_eq!(err, DotError::ConfigParse);
    assert!(!overlay.is_loaded());
    overlay.load_from_file("key: value\nother: 3\n").unwrap();
    assert!(overlay.is_loaded());
}

#[test]
fn find_entry_takes_the_first_of_a_name() {
    let entries = vec![
        FsChild { name: "x".to_string(), tree: FsTree::File { text: "first".to_string() } },
        FsChild { name: "x".to_string(), tree: FsTree::File { text: "second".to_string() } },
        FsChild { name: "y".to_string(), tree: FsTree::Dir { entries: vec![] } },
    ];
    match find_entry(&entries, "x") {
        Some(FsTree::File { text }) => assert_eq!(text.as_str(), "first"),
        _ => panic!("x should be found as a file"),
    }
    assert!(matches!(find_entry(&entries, "y"), Some(FsTree::Dir { .. })));
    assert!(find_entry(&entries, "z").is_none());
}
