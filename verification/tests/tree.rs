//! Behaviour of the entry tree: construction, scanning and lookup.

use dotfiler::dotpath::DotPath;
use dotfiler::errors::DotError;
use dotfiler::fstree::FsChild;
use dotfiler::fstree::FsTree;
use dotfiler::scanner::Scanner;

fn file(text: &str) -> FsTree {
    FsTree::File { text: text.to_string() }
}

fn dir(entries: Vec<FsChild>) -> FsTree {
    FsTree::Dir { entries }
}

fn child(name: &str, tree: FsTree) -> FsChild {
    FsChild { name: name.to_string(), tree }
}

/// A snapshot with a directory `a` holding the file `b.txt`.
fn nested_snapshot() -> FsTree {
    dir(vec![child("a", dir(vec![child("b.txt", file(""))]))])
}

#[test]
fn round_trip_recursive_scan_finds_nested_file() {
    let fs = nested_snapshot();
    let mut root = DotPath::new("root".to_string(), Some(&fs)).unwrap();
    root.scan(Some(&fs), true).unwrap();
    let found = root.find("a/b.txt").expect("a/b.txt should resolve");
    assert!(found.is_file());
    assert!(!found.is_dir());
    assert_eq!(found.name().unwrap(), "b.txt");
    assert_eq!(found.path().as_str(), "root/a/b.txt");
}

#[test]
fn blank_find_returns_the_entry_itself() {
    let fs = nested_snapshot();
    let mut root = DotPath::new("root".to_string(), Some(&fs)).unwrap();
    root.scan(Some(&fs), true).unwrap();
    let by_empty = root.find("").expect("empty path should resolve");
    assert_eq!(by_empty.path().as_str(), "root");
    let by_blank = root.find("  ").expect("whitespace path should resolve");
    assert_eq!(by_blank.path().as_str(), "root");
}

#[test]
fn unmatched_first_component_finds_nothing() {
    let fs = nested_snapshot();
    let mut root = DotPath::new("root".to_string(), Some(&fs)).unwrap();
    root.scan(Some(&fs), true).unwrap();
    assert!(root.find("zzz").is_none());
    // no partial resolution: `a` exists, but the lookup still fails whole
    assert!(root.find("zzz/b.txt").is_none());
    assert!(root.find("a/nope").is_none());
}

#[test]
fn malformed_config_fails_construction() {
    let fs = dir(vec![child(".dotfiler.yml", file("key: [unclosed"))]);
    let err = match DotPath::new("root".to_string(), Some(&fs)) {
        Ok(_) => panic!("a malformed configuration file should fail construction"),
        Err(e) => e,
    };
    assert_eq!(err, DotError::ConfigParse);
}

#[test]
fn malformed_config_fails_scan_but_spares_siblings() {
    let bad = dir(vec![child(".dotfiler.yml", file("key: [unclosed"))]);
    let good = dir(vec![child(".dotfiler.yml", file("key: value"))]);
    let fs = dir(vec![child("bad", bad), child("good", good)]);
    let mut root = DotPath::new("root".to_string(), Some(&fs)).unwrap();
    let err = root.scan(Some(&fs), true).unwrap_err();
    assert_eq!(err, DotError::ConfigParse);

    // the sibling without the malformed file still constructs and scans
    let good_again = dir(vec![child(".dotfiler.yml", file("key: value"))]);
    let mut entry = DotPath::new("root/good".to_string(), Some(&good_again)).unwrap();
    assert!(entry.has_config());
    entry.scan(Some(&good_again), true).unwrap();
}

#[test]
fn config_absent_is_no_error() {
    let fs = dir(vec![child("plain.txt", file(""))]);
    let root = DotPath::new("root".to_string(), Some(&fs)).unwrap();
    assert!(!root.has_config());
}

#[test]
fn config_present_and_valid_is_loaded() {
    let fs = dir(vec![child(".dotfiler.yml", file("key: value"))]);
    let root = DotPath::new("root".to_string(), Some(&fs)).unwrap();
    assert!(root.has_config());
}

#[test]
fn config_entry_that_is_a_directory_is_ignored() {
    let fs = dir(vec![child(".dotfiler.yml", dir(vec![]))]);
    let root = DotPath::new("root".to_string(), Some(&fs)).unwrap();
    assert!(!root.has_config());
}

#[test]
fn non_recursive_scan_reaches_one_level_only() {
    let fs = dir(vec![child("a", dir(vec![child("b", dir(vec![]))]))]);
    let mut root = DotPath::new("root".to_string(), Some(&fs)).unwrap();
    root.scan(Some(&fs), false).unwrap();
    let a = root.find("a").expect("depth-1 child should be there");
    assert!(a.is_dir());
    assert_eq!(a.child_count(), 0);
    assert!(root.find("a/b").is_none());
}

#[test]
fn rescanning_adds_no_duplicates() {
    let fs = dir(vec![child("a", dir(vec![])), child("b.txt", file(""))]);
    let mut root = DotPath::new("root".to_string(), Some(&fs)).unwrap();
    root.scan(Some(&fs), false).unwrap();
    assert_eq!(root.child_count(), 2);
    root.scan(Some(&fs), false).unwrap();
    assert_eq!(root.child_count(), 2);
    assert!(root.has_child_by_name("a"));
    assert!(root.has_child_by_name("b.txt"));
}

#[test]
fn add_child_by_name_deduplicates() {
    let mut entry = DotPath::new("base".to_string(), None).unwrap();
    entry.add_child_by_name("kid", None).unwrap();
    entry.add_child_by_name("kid", None).unwrap();
    assert_eq!(entry.child_count(), 1);
    assert!(entry.has_child_by_name("kid"));
}

#[test]
fn add_child_deduplicates_by_name() {
    let mut entry = DotPath::new("base".to_string(), None).unwrap();
    let first = DotPath::new("base/kid".to_string(), None).unwrap();
    let second = DotPath::new("elsewhere/kid".to_string(), None).unwrap();
    entry.add_child(first).unwrap();
    entry.add_child(second).unwrap();
    assert_eq!(entry.child_count(), 1);
}

#[test]
fn add_child_rejects_nameless_child() {
    let mut entry = DotPath::new("base".to_string(), None).unwrap();
    let nameless = DotPath::new("/".to_string(), None).unwrap();
    let err = entry.add_child(nameless).unwrap_err();
    assert_eq!(err, DotError::InvalidPath);
    assert_eq!(entry.child_count(), 0);
}

#[test]
fn file_entries_take_no_children() {
    let fs = file("");
    let mut entry = DotPath::new("root/b.txt".to_string(), Some(&fs)).unwrap();
    assert!(entry.is_file());
    entry.add_child_by_name("kid", None).unwrap();
    assert_eq!(entry.child_count(), 0);
    // scanning a file is a no-op that neither errors nor mutates
    entry.scan(Some(&fs), true).unwrap();
    assert_eq!(entry.child_count(), 0);
}

#[test]
fn scanning_a_missing_path_is_a_no_op() {
    let mut entry = DotPath::new("gone".to_string(), None).unwrap();
    assert!(!entry.is_file());
    assert!(!entry.is_dir());
    entry.scan(None, true).unwrap();
    assert_eq!(entry.child_count(), 0);
}

#[test]
fn unreadable_directory_fails_the_scan() {
    let fs = dir(vec![]);
    let mut entry = DotPath::new("root".to_string(), Some(&fs)).unwrap();
    assert!(entry.is_dir());
    let err = entry.scan(None, false).unwrap_err();
    assert_eq!(err, DotError::FilesystemRead);
    let not_a_dir = file("");
    let err = entry.scan(Some(&not_a_dir), false).unwrap_err();
    assert_eq!(err, DotError::FilesystemRead);
}

#[test]
fn vanished_directory_child_fails_the_recursive_scan() {
    let fs = dir(vec![child("a", dir(vec![]))]);
    let mut root = DotPath::new("root".to_string(), Some(&fs)).unwrap();
    root.scan(Some(&fs), false).unwrap();
    // the second snapshot no longer shows `a` as a directory
    let changed = dir(vec![child("a", file(""))]);
    let err = root.scan(Some(&changed), true).unwrap_err();
    assert_eq!(err, DotError::FilesystemRead);
}

#[test]
fn entry_names_and_name_matching() {
    let entry = DotPath::new("home/user/notes.txt".to_string(), None).unwrap();
    assert_eq!(entry.name().unwrap(), "notes.txt");
    assert!(entry.is_name("notes.txt"));
    assert!(!entry.is_name("notes"));
    let root = DotPath::new("/".to_string(), None).unwrap();
    assert_eq!(root.name().unwrap_err(), DotError::InvalidPath);
    assert!(!root.is_name("anything"));
}

#[test]
fn find_iter_walks_given_components() {
    let fs = nested_snapshot();
    let mut root = DotPath::new("root".to_string(), Some(&fs)).unwrap();
    root.scan(Some(&fs), true).unwrap();
    let comps = vec!["a".to_string(), "b.txt".to_string()];
    let found = root.find_iter(&comps, 0).expect("components should resolve");
    assert_eq!(found.name().unwrap(), "b.txt");
    let tail = root.find_iter(&comps, 2).expect("an exhausted walk names the entry itself");
    assert_eq!(tail.path().as_str(), "root");
}

#[test]
fn scanner_adds_listed_entries_once() {
    let entries = vec![
        child("a", dir(vec![])),
        child("b.txt", file("")),
        child("a", dir(vec![])),
    ];
    let mut target = DotPath::new("root".to_string(), Some(&dir(vec![]))).unwrap();
    let scanner = Scanner::new(&entries);
    scanner.scan(&mut target).unwrap();
    assert_eq!(target.child_count(), 2);
    assert!(target.has_child_by_name("a"));
    assert!(target.has_child_by_name("b.txt"));
}

#[test]
fn scan_order_follows_the_listing() {
    let fs = dir(vec![child("one", dir(vec![])), child("two", file(""))]);
    let mut root = DotPath::new("root".to_string(), Some(&fs)).unwrap();
    root.scan(Some(&fs), false).unwrap();
    assert!(root.has_child_by_name("one"));
    assert!(root.has_child_by_name("two"));
    assert!(!root.has_child_by_name("three"));
}
