//! A snapshot of a filesystem subtree, handed to the library as a value.
//!
//! The library itself never touches the disk: a caller lists directories
//! and reads files however it likes, fills an [`FsTree`] with what it saw,
//! and every decision taken over that snapshot is verified.

use vstd::prelude::*;

verus! {

/// What one filesystem node held when the snapshot was taken.
pub enum FsTree {
    /// A file, with its contents.  A caller may leave the contents empty
    /// for files the library will never read; only the contents of
    /// configuration files are ever looked at.
    File { text: String },
    /// A directory, with its immediate entries in enumeration order.
    Dir { entries: Vec<FsChild> },
}

/// One named entry of a directory snapshot.
pub struct FsChild {
    /// The entry's base name, extension included.
    pub name: String,
    /// What stood behind that name.
    pub tree: FsTree,
}

/// The mathematical shape of a snapshot node.
pub ghost enum FsTreeModel {
    File { text: Seq<char> },
    Dir { entries: Seq<FsChildModel> },
}

/// The mathematical shape of one directory entry.
pub ghost struct FsChildModel {
    pub name: Seq<char>,
    pub tree: FsTreeModel,
}

impl FsTree {
    /// The snapshot node as a mathematical value.
    pub open spec fn model(self) -> FsTreeModel
        decreases self,
    {
        match self {
            FsTree::File { text } => FsTreeModel::File { text: text@ },
            FsTree::Dir { entries } => FsTreeModel::Dir { entries: models_of(entries@) },
        }
    }
}

/// The mathematical shape of a run of directory entries.
pub open spec fn models_of(entries: Seq<FsChild>) -> Seq<FsChildModel>
    decreases entries,
{
    if entries.len() == 0 {
        Seq::empty()
    } else {
        seq![
            FsChildModel { name: entries[0].name@, tree: entries[0].tree.model() },
        ] + models_of(entries.drop_first())
    }
}

/// `models_of` is the element-wise model of the entries.
pub proof fn lemma_models_of(s: Seq<FsChild>)
    ensures
        models_of(s).len() == s.len(),
        forall|i: int| 0 <= i < s.len() ==> models_of(s)[i] == s[i]@,
    decreases s,
{
    if s.len() > 0 {
        lemma_models_of(s.drop_first());
    }
}

impl View for FsTree {
    type V = FsTreeModel;

    open spec fn view(&self) -> FsTreeModel {
        self.model()
    }
}

impl View for FsChild {
    type V = FsChildModel;

    open spec fn view(&self) -> FsChildModel {
        FsChildModel { name: self.name@, tree: self.tree.model() }
    }
}

/// The position of the first entry named `name`, or the number of
/// entries when no entry carries that name.
pub open spec fn entry_index_of(entries: Seq<FsChildModel>, name: Seq<char>) -> int
    decreases entries.len(),
{
    if entries.len() == 0 {
        0
    } else if entries[0].name == name {
        0
    } else {
        1 + entry_index_of(entries.drop_first(), name)
    }
}

/// `entry_index_of` points at the first entry of that name, or just past
/// the end when there is none.
pub proof fn lemma_entry_index_of(entries: Seq<FsChildModel>, name: Seq<char>)
    ensures
        0 <= entry_index_of(entries, name) <= entries.len(),
        forall|k: int|
            0 <= k < entry_index_of(entries, name) ==> (#[trigger] entries[k]).name != name,
        entry_index_of(entries, name) < entries.len() ==> entries[entry_index_of(
            entries,
            name,
        )].name == name,
    decreases entries.len(),
{
    if entries.len() > 0 && entries[0].name != name {
        lemma_entry_index_of(entries.drop_first(), name);
        assert forall|k: int|
            0 <= k < entry_index_of(entries, name) implies (#[trigger] entries[k]).name
            != name by {
            if k > 0 {
                assert(entries.drop_first()[k - 1] == entries[k]);
            }
        }
        if entry_index_of(entries, name) < entries.len() {
            assert(entries.drop_first()[entry_index_of(entries.drop_first(), name)]
                == entries[entry_index_of(entries, name)]);
        }
    }
}

/// Find the snapshot node behind the entry named `name`, if one is
/// listed.
pub fn find_entry<'a>(entries: &'a Vec<FsChild>, name: &str) -> (r: Option<&'a FsTree>)
    ensures
        ({
            let ems = models_of(entries@);
            let j = entry_index_of(ems, name@);
            match r {
                Some(t) => 0 <= j < entries@.len() && *t == entries@[j].tree && ems[j].tree
                    == t.model(),
                None => j == ems.len(),
            }
        }),
{
    let ghost ems = models_of(entries@);
    proof {
        lemma_models_of(entries@);
        lemma_entry_index_of(ems, name@);
    }
    let n = entries.len();
    let mut i: usize = 0;
    while i < n
        invariant
            0 <= i <= n,
            n == entries@.len(),
            ems == models_of(entries@),
            ems.len() == n,
            forall|k: int| 0 <= k < n ==> ems[k] == entries@[k]@,
            0 <= entry_index_of(ems, name@) <= n,
            forall|k: int| 0 <= k < entry_index_of(ems, name@) ==> (#[trigger] ems[k]).name
                != name@,
            entry_index_of(ems, name@) < n ==> ems[entry_index_of(ems, name@)].name == name@,
            forall|k: int| 0 <= k < i ==> (#[trigger] ems[k]).name != name@,
        decreases n - i,
    {
        let e = &entries[i];
        if crate::paths::str_eq(e.name.as_str(), name) {
            proof {
                let j = entry_index_of(ems, name@);
                assert(ems[i as int].name == name@);
                if j < i {
                    assert(ems[j].name != name@);
                }
                assert(j == i as int);
            }
            return Some(&e.tree);
        }
        i += 1;
    }
    proof {
        let j = entry_index_of(ems, name@);
        if j < n {
            assert(ems[j].name != name@);
        }
    }
    None
}

} // verus!
