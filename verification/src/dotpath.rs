//! The tree of scanned entries.
//!
//! A [`DotPath`] is one node of the mirror tree: a path, the kind the
//! filesystem reported for it when it was created, the directory's
//! configuration overlay if one was loaded, and the owned child entries.
//! Every operation is stated against the node's mathematical shape,
//! [`DotNode`].

use vstd::prelude::*;
use crate::dotconfig::DotConfig;
use crate::dotconfig::yaml_ok;
use crate::errors::DotError;
use crate::fstree::FsChild;
use crate::fstree::FsChildModel;
use crate::fstree::FsTree;
use crate::fstree::FsTreeModel;
use crate::fstree::models_of;
use crate::paths::name_of;
use crate::paths::spec_join;

verus! {

/// What the filesystem said a path was when the entry was created.  A
/// path that existed as neither file nor directory is `Missing`: it can
/// still hold children added by hand, but a scan of it does nothing.
#[derive(Clone, Copy, Debug, PartialEq, Eq, Structural)]
pub enum PathKind {
    File,
    Directory,
    Missing,
}

/// The mathematical shape of one entry.
pub ghost struct DotNode {
    pub path: Seq<char>,
    pub kind: PathKind,
    pub config: Option<Seq<char>>,
    pub children: Seq<DotNode>,
}

/// The fixed base name of a directory's local configuration file.
pub open spec fn spec_config_file_name() -> Seq<char> {
    ".dotfiler.yml"@
}

/// The fixed base name of a directory's local configuration file.
pub fn config_file_name() -> (r: &'static str)
    ensures
        r@ == spec_config_file_name(),
{
    ".dotfiler.yml"
}

/// A node of the mirror tree.
pub struct DotPath {
    path: String,
    kind: PathKind,
    config: DotConfig,
    children: Vec<DotPath>,
}

/// The models of a run of child entries, in order.
pub closed spec fn child_models(cs: Seq<DotPath>) -> Seq<DotNode>
    decreases cs,
{
    if cs.len() == 0 {
        Seq::empty()
    } else {
        seq![cs[0].model()] + child_models(cs.drop_first())
    }
}

/// `child_models` is the element-wise model of the children.
pub proof fn lemma_child_models(cs: Seq<DotPath>)
    ensures
        child_models(cs).len() == cs.len(),
        forall|i: int| 0 <= i < cs.len() ==> child_models(cs)[i] == cs[i].model(),
    decreases cs,
{
    if cs.len() > 0 {
        lemma_child_models(cs.drop_first());
    }
}

/// Structural soundness of a node: a file holds no children, every child
/// is nameable, no two children share a name, and the children are sound
/// in turn.
pub open spec fn node_wf(n: DotNode) -> bool
    decreases n,
{
    &&& (n.kind == PathKind::File ==> n.children.len() == 0)
    &&& (forall|i: int|
        0 <= i < n.children.len() ==> name_of(#[trigger] n.children[i].path) is Some)
    &&& (forall|i: int, j: int|
        #![trigger n.children[i], n.children[j]]
        0 <= i < j < n.children.len() ==> name_of(n.children[i].path) != name_of(
            n.children[j].path,
        ))
    &&& (forall|i: int| 0 <= i < n.children.len() ==> node_wf(#[trigger] n.children[i]))
}

impl DotPath {
    /// The entry as a mathematical value.
    pub closed spec fn model(self) -> DotNode
        decreases self,
    {
        DotNode {
            path: self.path@,
            kind: self.kind,
            config: self.config@,
            children: child_models(self.children@),
        }
    }

    /// Every configuration overlay held in the tree is consistent.
    pub closed spec fn configs_wf(self) -> bool
        decreases self,
    {
        &&& self.config.wf()
        &&& (forall|i: int|
            0 <= i < self.children@.len() ==> (#[trigger] self.children@[i]).configs_wf())
    }

    /// Soundness of the entry: its model is sound and every overlay in
    /// the tree is consistent.
    pub open spec fn wf(self) -> bool {
        node_wf(self.model()) && self.configs_wf()
    }
}

impl View for DotPath {
    type V = DotNode;

    open spec fn view(&self) -> DotNode {
        self.model()
    }
}

/// The kind an entry gets from the snapshot node at its path.
pub open spec fn spec_kind_of(fs: Option<FsTreeModel>) -> PathKind {
    match fs {
        None => PathKind::Missing,
        Some(FsTreeModel::File { .. }) => PathKind::File,
        Some(FsTreeModel::Dir { .. }) => PathKind::Directory,
    }
}

/// The text of the configuration file among a directory's entries, if an
/// entry of that fixed name stands there as a file.
pub open spec fn config_text_in(entries: Seq<FsChildModel>) -> Option<Seq<char>>
    decreases entries.len(),
{
    if entries.len() == 0 {
        None
    } else {
        match entries[0].tree {
            FsTreeModel::File { text } => if entries[0].name == spec_config_file_name() {
                Some(text)
            } else {
                config_text_in(entries.drop_first())
            },
            FsTreeModel::Dir { .. } => config_text_in(entries.drop_first()),
        }
    }
}

/// What constructing an entry from a path and the snapshot node at that
/// path yields: the kind read off the node, the configuration loaded from
/// the directory's configuration file, no children yet.  Construction
/// fails exactly when a configuration file is present but does not parse.
pub open spec fn model_new(path: Seq<char>, fs: Option<FsTreeModel>) -> Result<DotNode, DotError> {
    let kind = spec_kind_of(fs);
    let cfg = match fs {
        Some(FsTreeModel::Dir { entries }) => config_text_in(entries),
        _ => None,
    };
    match cfg {
        Some(text) => if yaml_ok(text) {
            Ok(DotNode { path, kind, config: Some(text), children: Seq::empty() })
        } else {
            Err(DotError::ConfigParse)
        },
        None => Ok(DotNode { path, kind, config: None, children: Seq::empty() }),
    }
}

/// The model of an optional snapshot reference.
pub open spec fn opt_model(fs: Option<&FsTree>) -> Option<FsTreeModel> {
    match fs {
        None => None,
        Some(t) => Some(t.model()),
    }
}

impl DotPath {
    /// Create the entry for `path`, whose snapshot node is `fs` (`None`
    /// when nothing exists at `path`).  Loads the directory's
    /// configuration file eagerly; a present but malformed configuration
    /// file fails the construction.
    pub fn new(path: String, fs: Option<&FsTree>) -> (r: Result<DotPath, DotError>)
        ensures
            match r {
                Ok(d) => model_new(path@, opt_model(fs)) == Ok::<DotNode, DotError>(d@) && d.wf(),
                Err(e) => model_new(path@, opt_model(fs)) == Err::<DotNode, DotError>(e),
            },
    {
        let kind = match fs {
            None => PathKind::Missing,
            Some(FsTree::File { .. }) => PathKind::File,
            Some(FsTree::Dir { .. }) => PathKind::Directory,
        };
        let mut d = DotPath { path, kind, config: DotConfig::new(), children: Vec::new() };
        if let Some(FsTree::Dir { entries }) = fs {
            match d.load_config(entries) {
                Ok(_) => Ok(d),
                Err(e) => Err(e),
            }
        } else {
            Ok(d)
        }
    }

    /// Find the directory's configuration file among its snapshot entries
    /// and load it.  Returns whether anything was loaded; fails exactly
    /// when a configuration file is present but does not parse, and then
    /// changes nothing.
    fn load_config(&mut self, entries: &Vec<FsChild>) -> (r: Result<bool, DotError>)
        requires
            old(self).config.wf(),
        ensures
            final(self).path == old(self).path,
            final(self).kind == old(self).kind,
            final(self).children == old(self).children,
            final(self).config.wf(),
            match config_text_in(models_of(entries@)) {
                None => r == Ok::<bool, DotError>(false) && *final(self) == *old(self),
                Some(text) => if yaml_ok(text) {
                    r == Ok::<bool, DotError>(true) && final(self).config@ == Some(text)
                } else {
                    r == Err::<bool, DotError>(DotError::ConfigParse) && *final(self) == *old(
                        self,
                    )
                },
            },
    {
        let n = entries.len();
        let mut i: usize = 0;
        proof {
            assert(entries@.subrange(0, n as int) =~= entries@);
        }
        while i < n
            invariant
                0 <= i <= n,
                n == entries@.len(),
                *self == *old(self),
                old(self).config.wf(),
                config_text_in(models_of(entries@)) == config_text_in(
                    models_of(entries@.subrange(i as int, n as int)),
                ),
            decreases n - i,
        {
            let ghost rest = entries@.subrange(i as int, n as int);
            proof {
                assert(rest.drop_first() =~= entries@.subrange(i as int + 1, n as int));
                assert(models_of(rest)[0] == rest[0]@) by {
                    crate::fstree::lemma_models_of(rest);
                }
                assert(models_of(rest).drop_first() =~= models_of(rest.drop_first())) by {
                    crate::fstree::lemma_models_of(rest);
                    crate::fstree::lemma_models_of(rest.drop_first());
                }
            }
            let e = &entries[i];
            match &e.tree {
                FsTree::File { text } => {
                    if crate::paths::str_eq(e.name.as_str(), config_file_name()) {
                        return match self.config.load_from_file(text.as_str()) {
                            Ok(_) => Ok(true),
                            Err(err) => Err(err),
                        };
                    }
                },
                FsTree::Dir { .. } => {},
            }
            i += 1;
        }
        proof {
            assert(entries@.subrange(n as int, n as int) =~= Seq::<FsChild>::empty());
        }
        Ok(false)
    }

    /// The path this entry stands for.
    pub fn path(&self) -> (r: &String)
        ensures
            r@ == self@.path,
    {
        &self.path
    }

    /// Whether this entry was a file when it was created.
    pub fn is_file(&self) -> (r: bool)
        ensures
            r == (self@.kind == PathKind::File),
    {
        matches!(self.kind, PathKind::File)
    }

    /// Whether this entry was a directory when it was created.
    pub fn is_dir(&self) -> (r: bool)
        ensures
            r == (self@.kind == PathKind::Directory),
    {
        matches!(self.kind, PathKind::Directory)
    }

    /// Whether this entry carries a loaded configuration overlay.
    pub fn has_config(&self) -> (r: bool)
        requires
            self.wf(),
        ensures
            r == (self@.config is Some),
    {
        self.config.is_loaded()
    }

    /// How many children this entry holds.
    pub fn child_count(&self) -> (r: usize)
        ensures
            r == self@.children.len(),
    {
        proof {
            lemma_child_models(self.children@);
        }
        self.children.len()
    }

    /// The name of this entry: the last component of its path.  A path
    /// with no component (the root, or an empty path) has no name.
    pub fn name(&self) -> (r: Result<String, DotError>)
        ensures
            match r {
                Ok(s) => name_of(self@.path) == Some(s@),
                Err(e) => e == DotError::InvalidPath && name_of(self@.path) is None,
            },
    {
        match crate::paths::name_of_str(self.path.as_str()) {
            Some(s) => Ok(s),
            None => Err(DotError::InvalidPath),
        }
    }

    /// Whether this entry's name is exactly `name` (case-sensitive, the
    /// extension included).  An entry without a name matches nothing.
    pub fn is_name(&self, name: &str) -> (r: bool)
        ensures
            r == (name_of(self@.path) == Some(name@)),
    {
        match crate::paths::name_of_str(self.path.as_str()) {
            Some(s) => crate::paths::str_eq(s.as_str(), name),
            None => false,
        }
    }

    /// Whether some child of this entry is named `name`.
    pub fn has_child_by_name(&self, name: &str) -> (r: bool)
        ensures
            r == (find_child(self@.children, name@) is Some),
    {
        let n = self.children.len();
        let mut i: usize = 0;
        proof {
            lemma_child_models(self.children@);
            assert(self@.children.subrange(0, n as int) =~= self@.children);
        }
        while i < n
            invariant
                0 <= i <= n,
                n == self.children@.len(),
                self@.children.len() == n,
                forall|k: int| 0 <= k < n ==> self@.children[k] == self.children@[k].model(),
                find_child(self@.children, name@) == find_child(
                    self@.children.subrange(i as int, n as int),
                    name@,
                ),
            decreases n - i,
        {
            let ghost rest = self@.children.subrange(i as int, n as int);
            proof {
                assert(rest.drop_first() =~= self@.children.subrange(i as int + 1, n as int));
            }
            if self.children[i].is_name(name) {
                return true;
            }
            i += 1;
        }
        proof {
            assert(self@.children.subrange(n as int, n as int) =~= Seq::<DotNode>::empty());
        }
        false
    }
}

/// The first node of `cs` named `name`, if any.
pub open spec fn find_child(cs: Seq<DotNode>, name: Seq<char>) -> Option<DotNode>
    decreases cs.len(),
{
    if cs.len() == 0 {
        None
    } else if name_of(cs[0].path) == Some(name) {
        Some(cs[0])
    } else {
        find_child(cs.drop_first(), name)
    }
}

/// A name misses every node of `cs` exactly when `find_child` comes back
/// empty.
pub proof fn lemma_find_child_none(cs: Seq<DotNode>, name: Seq<char>)
    ensures
        (find_child(cs, name) is None) <==> (forall|i: int|
            0 <= i < cs.len() ==> name_of(#[trigger] cs[i].path) != Some(name)),
    decreases cs.len(),
{
    if cs.len() > 0 {
        lemma_find_child_none(cs.drop_first(), name);
        assert forall|i: int|
            0 <= i < cs.len() && name_of(#[trigger] cs[i].path) == Some(
                name,
            ) implies find_child(cs, name) is Some by {
            if i > 0 {
                assert(cs.drop_first()[i - 1] == cs[i]);
            }
        }
    }
}

/// What adding a pre-built child does: nothing for a nameless child but
/// the error, nothing for a file parent or an already-taken name, and an
/// append otherwise.
pub open spec fn model_add_child(e: DotNode, c: DotNode) -> Result<DotNode, DotError> {
    match name_of(c.path) {
        None => Err(DotError::InvalidPath),
        Some(name) => if e.kind == PathKind::File {
            Ok(e)
        } else if find_child(e.children, name) is Some {
            Ok(e)
        } else {
            Ok(DotNode { path: e.path, kind: e.kind, config: e.config, children: e.children.push(c) })
        },
    }
}

/// What adding a child by name does: nothing when the name is already
/// taken; otherwise the child is built from the joined path and its
/// snapshot node, and added as `model_add_child` says.
pub open spec fn model_add_child_by_name(
    e: DotNode,
    name: Seq<char>,
    fs: Option<FsTreeModel>,
) -> Result<DotNode, DotError> {
    if find_child(e.children, name) is Some {
        Ok(e)
    } else {
        match model_new(spec_join(e.path, name), fs) {
            Err(err) => Err(err),
            Ok(c) => model_add_child(e, c),
        }
    }
}

impl DotPath {
    /// Add a pre-built entry as a child.  A child whose path has no name
    /// is rejected; a file parent takes no children; a name already among
    /// the children is left as it is.
    pub fn add_child(&mut self, child: DotPath) -> (r: Result<(), DotError>)
        requires
            old(self).wf(),
            child.wf(),
        ensures
            final(self).wf(),
            match r {
                Ok(_) => model_add_child(old(self)@, child@) == Ok::<DotNode, DotError>(
                    final(self)@,
                ),
                Err(e) => model_add_child(old(self)@, child@) == Err::<DotNode, DotError>(e)
                    && *final(self) == *old(self),
            },
    {
        let name = match child.name() {
            Ok(s) => s,
            Err(_) => {
                return Err(DotError::InvalidPath);
            },
        };
        if matches!(self.kind, PathKind::File) {
            return Ok(());
        }
        if self.has_child_by_name(name.as_str()) {
            return Ok(());
        }
        proof {
            lemma_find_child_none(self@.children, name@);
            lemma_child_models(self.children@);
            lemma_child_models(self.children@.push(child));
        }
        let ghost pre = *self;
        self.children.push(child);
        proof {
            assert(self.children@ =~= pre.children@.push(child));
            assert(child_models(self.children@) =~= child_models(pre.children@).push(child@));
            let m = self.model();
            assert forall|i: int, j: int|
                #![trigger m.children[i], m.children[j]]
                0 <= i < j < m.children.len() implies name_of(m.children[i].path) != name_of(
                m.children[j].path,
            ) by {
                if j == m.children.len() - 1 {
                    assert(name_of(m.children[i].path) != Some(name@));
                }
            }
            assert(node_wf(m));
        }
        Ok(())
    }

    /// Add a child by its base name: the child's path is the parent path
    /// joined with `name`, and `fs` is the snapshot node standing at that
    /// path.  A name already among the children is left as it is; building
    /// the child may fail on its configuration file.
    pub fn add_child_by_name(&mut self, name: &str, fs: Option<&FsTree>) -> (r: Result<
        (),
        DotError,
    >)
        requires
            old(self).wf(),
        ensures
            final(self).wf(),
            match r {
                Ok(_) => model_add_child_by_name(old(self)@, name@, opt_model(fs)) == Ok::<
                    DotNode,
                    DotError,
                >(final(self)@),
                Err(e) => model_add_child_by_name(old(self)@, name@, opt_model(fs)) == Err::<
                    DotNode,
                    DotError,
                >(e) && *final(self) == *old(self),
            },
    {
        if self.has_child_by_name(name) {
            return Ok(());
        }
        let child_path = crate::paths::join(self.path.as_str(), name);
        match Self::new(child_path, fs) {
            Err(e) => Err(e),
            Ok(child) => self.add_child(child),
        }
    }
}

/// What adding a directory listing does: each entry is added by name, in
/// listing order, and the first failure stops the run with the tree as it
/// stood at that point.
pub open spec fn model_add_entries(e: DotNode, entries: Seq<FsChildModel>) -> (DotNode, Result<
    (),
    DotError,
>)
    decreases entries.len(),
{
    if entries.len() == 0 {
        (e, Ok(()))
    } else {
        match model_add_child_by_name(e, entries[0].name, Some(entries[0].tree)) {
            Err(err) => (e, Err(err)),
            Ok(e2) => model_add_entries(e2, entries.drop_first()),
        }
    }
}

/// What scanning one directory level does: the listing's entries are
/// added as children, and, for a recursive scan, every directory child is
/// then scanned in turn, depth-first, left to right.
pub open spec fn model_scan_dir(
    e: DotNode,
    entries: Seq<FsChildModel>,
    recursive: bool,
) -> (DotNode, Result<(), DotError>)
    decreases entries, 1int, 0int,
{
    let step = model_add_entries(e, entries);
    if step.1 is Err {
        step
    } else if !recursive {
        step
    } else {
        model_scan_children(step.0, entries, 0)
    }
}

/// The recursive leg of a scan: the children from position `i` on are
/// scanned in order.  A directory child whose name the listing no longer
/// shows as a directory fails with a read error, as a vanished directory
/// would.
pub open spec fn model_scan_children(e: DotNode, entries: Seq<FsChildModel>, i: int) -> (
    DotNode,
    Result<(), DotError>,
)
    decreases entries, 0int, e.children.len() - i,
{
    if i < 0 || i >= e.children.len() {
        (e, Ok(()))
    } else {
        let c = e.children[i];
        if c.kind != PathKind::Directory {
            model_scan_children(e, entries, i + 1)
        } else {
            let j = crate::fstree::entry_index_of(entries, name_of(c.path).unwrap());
            if 0 <= j < entries.len() {
                match entries[j].tree {
                    FsTreeModel::Dir { entries: sub } => {
                        let scanned = model_scan_dir(c, sub, true);
                        let e2 = DotNode {
                            path: e.path,
                            kind: e.kind,
                            config: e.config,
                            children: e.children.update(i, scanned.0),
                        };
                        if scanned.1 is Err {
                            (e2, scanned.1)
                        } else {
                            model_scan_children(e2, entries, i + 1)
                        }
                    },
                    FsTreeModel::File { .. } => (e, Err(DotError::FilesystemRead)),
                }
            } else {
                (e, Err(DotError::FilesystemRead))
            }
        }
    }
}

/// What scanning an entry against its snapshot node does: nothing for an
/// entry that is not a directory; a read error where the snapshot shows
/// no directory; one level of growth otherwise, recursing when asked to.
pub open spec fn model_scan(e: DotNode, fs: Option<FsTreeModel>, recursive: bool) -> (
    DotNode,
    Result<(), DotError>,
)
{
    if e.kind != PathKind::Directory {
        (e, Ok(()))
    } else {
        match fs {
            Some(FsTreeModel::Dir { entries }) => model_scan_dir(e, entries, recursive),
            _ => (e, Err(DotError::FilesystemRead)),
        }
    }
}

/// Adding a listing changes neither path, kind nor configuration.
pub proof fn lemma_add_entries_keeps_id(e: DotNode, entries: Seq<FsChildModel>)
    ensures
        model_add_entries(e, entries).0.path == e.path,
        model_add_entries(e, entries).0.kind == e.kind,
        model_add_entries(e, entries).0.config == e.config,
    decreases entries.len(),
{
    if entries.len() > 0 {
        match model_add_child_by_name(e, entries[0].name, Some(entries[0].tree)) {
            Err(_) => {},
            Ok(e2) => {
                lemma_add_entries_keeps_id(e2, entries.drop_first());
            },
        }
    }
}

/// A directory scan changes neither path, kind nor configuration.
pub proof fn lemma_scan_dir_keeps_id(e: DotNode, entries: Seq<FsChildModel>, recursive: bool)
    ensures
        model_scan_dir(e, entries, recursive).0.path == e.path,
        model_scan_dir(e, entries, recursive).0.kind == e.kind,
        model_scan_dir(e, entries, recursive).0.config == e.config,
    decreases entries, 1int, 0int,
{
    lemma_add_entries_keeps_id(e, entries);
    let step = model_add_entries(e, entries);
    if !(step.1 is Err) && recursive {
        lemma_scan_children_keeps_id(step.0, entries, 0);
    }
}

/// Scanning the children changes neither path, kind nor configuration,
/// nor how many children there are.
pub proof fn lemma_scan_children_keeps_id(e: DotNode, entries: Seq<FsChildModel>, i: int)
    ensures
        model_scan_children(e, entries, i).0.path == e.path,
        model_scan_children(e, entries, i).0.kind == e.kind,
        model_scan_children(e, entries, i).0.config == e.config,
        model_scan_children(e, entries, i).0.children.len() == e.children.len(),
    decreases entries, 0int, e.children.len() - i,
{
    if 0 <= i < e.children.len() {
        let c = e.children[i];
        if c.kind != PathKind::Directory {
            lemma_scan_children_keeps_id(e, entries, i + 1);
        } else {
            let j = crate::fstree::entry_index_of(entries, name_of(c.path).unwrap());
            if 0 <= j < entries.len() {
                match entries[j].tree {
                    FsTreeModel::Dir { entries: sub } => {
                        let scanned = model_scan_dir(c, sub, true);
                        let e2 = DotNode {
                            path: e.path,
                            kind: e.kind,
                            config: e.config,
                            children: e.children.update(i, scanned.0),
                        };
                        if !(scanned.1 is Err) {
                            lemma_scan_children_keeps_id(e2, entries, i + 1);
                        }
                    },
                    FsTreeModel::File { .. } => {},
                }
            }
        }
    }
}

/// Resolve `comps`, component by component, from `e` downwards.  An empty
/// run of components names `e` itself; a component that matches no child
/// name fails the whole lookup.
pub open spec fn find_in(e: DotNode, comps: Seq<Seq<char>>) -> Option<DotNode>
    decreases comps.len(),
{
    if comps.len() == 0 {
        Some(e)
    } else {
        match find_child(e.children, comps[0]) {
            None => None,
            Some(c) => find_in(c, comps.drop_first()),
        }
    }
}

/// What looking a relative path up from `e` yields: `e` itself for a
/// blank path, and the component-wise descent otherwise.
pub open spec fn model_find(e: DotNode, path: Seq<char>) -> Option<DotNode> {
    if crate::paths::is_blank(path) {
        Some(e)
    } else {
        find_in(e, crate::paths::components(path))
    }
}

impl DotPath {
    /// Resolve the components `comps[from..]` from this entry downwards.
    pub fn find_iter(&self, comps: &Vec<String>, from: usize) -> (r: Option<&DotPath>)
        requires
            self.wf(),
            from <= comps@.len(),
        ensures
            match r {
                Some(d) => find_in(self@, comps.deep_view().skip(from as int)) == Some(d@)
                    && d.wf(),
                None => find_in(self@, comps.deep_view().skip(from as int)) is None,
            },
        decreases comps@.len() - from,
    {
        let ghost rest = comps.deep_view().skip(from as int);
        if from == comps.len() {
            proof {
                assert(rest.len() == 0);
            }
            return Some(self);
        }
        proof {
            assert(rest[0] == comps@[from as int]@);
            assert(rest.drop_first() =~= comps.deep_view().skip(from as int + 1));
            lemma_child_models(self.children@);
        }
        let name = &comps[from];
        let n = self.children.len();
        let mut i: usize = 0;
        proof {
            assert(self@.children.subrange(0, n as int) =~= self@.children);
        }
        while i < n
            invariant
                0 <= i <= n,
                n == self.children@.len(),
                self@.children.len() == n,
                self.wf(),
                from < comps@.len(),
                comps@.len() <= usize::MAX,
                rest == comps.deep_view().skip(from as int),
                rest.len() > 0,
                rest[0] == name@,
                rest.drop_first() == comps.deep_view().skip(from as int + 1),
                forall|k: int| 0 <= k < n ==> self@.children[k] == self.children@[k].model(),
                find_child(self@.children, name@) == find_child(
                    self@.children.subrange(i as int, n as int),
                    name@,
                ),
            decreases n - i,
        {
            let ghost sub = self@.children.subrange(i as int, n as int);
            proof {
                assert(sub.drop_first() =~= self@.children.subrange(i as int + 1, n as int));
            }
            if self.children[i].is_name(name.as_str()) {
                proof {
                    assert(find_child(self@.children, name@) == Some(self@.children[i as int]));
                    assert(self.children@[i as int].wf());
                }
                return self.children[i].find_iter(comps, from + 1);
            }
            i += 1;
        }
        proof {
            assert(self@.children.subrange(n as int, n as int) =~= Seq::<DotNode>::empty());
        }
        None
    }

    /// Look a relative path up from this entry.  A blank path names this
    /// entry itself; otherwise the path's components are resolved child by
    /// child, and a component that matches no child fails the lookup.
    pub fn find(&self, path: &str) -> (r: Option<&DotPath>)
        requires
            self.wf(),
        ensures
            match r {
                Some(d) => model_find(self@, path@) == Some(d@) && d.wf(),
                None => model_find(self@, path@) is None,
            },
            crate::paths::is_blank(path@) ==> r == Some(self),
    {
        if crate::paths::is_blank_str(path) {
            return Some(self);
        }
        let comps = crate::paths::split(path);
        proof {
            assert(comps.deep_view().skip(0) =~= comps.deep_view());
        }
        self.find_iter(&comps, 0)
    }
}

impl DotPath {
    /// Scan one directory level from its snapshot listing and, when asked
    /// to, every directory child after it, depth-first.
    fn scan_dir(&mut self, entries: &Vec<FsChild>, recursive: bool) -> (r: Result<(), DotError>)
        requires
            old(self).wf(),
        ensures
            final(self).wf(),
            ({
                let m = model_scan_dir(old(self)@, models_of(entries@), recursive);
                m.0 == final(self)@ && m.1 == r
            }),
        decreases entries@,
    {
        let ghost ems = models_of(entries@);
        let scanner = crate::scanner::Scanner::new(entries);
        let first_pass = scanner.scan(self);
        if first_pass.is_err() {
            return first_pass;
        }
        if !recursive {
            proof {
                assert(model_scan_dir(old(self)@, ems, recursive) == model_add_entries(
                    old(self)@,
                    ems,
                ));
            }
            return first_pass;
        }
        let ghost e1 = self@;
        proof {
            assert(model_scan_dir(old(self)@, ems, true) == model_scan_children(e1, ems, 0));
        }
        let n = self.children.len();
        let mut i: usize = 0;
        proof {
            lemma_child_models(self.children@);
        }
        while i < n
            invariant
                0 <= i <= n,
                recursive,
                self.wf(),
                ems == models_of(entries@),
                self@.children.len() == n,
                self.children@.len() == n,
                model_scan_dir(old(self)@, ems, true) == model_scan_children(e1, ems, 0),
                model_scan_children(e1, ems, 0) == model_scan_children(self@, ems, i as int),
            decreases n - i,
        {
            proof {
                lemma_child_models(self.children@);
                crate::fstree::lemma_models_of(entries@);
            }
            let ghost c = self@.children[i as int];
            let child_is_dir = self.children[i].is_dir();
            if child_is_dir {
                proof {
                    assert(self.children@[i as int].wf());
                    assert(name_of(c.path) is Some);
                }
                let nm = match self.children[i].name() {
                    Ok(s) => s,
                    Err(_) => {
                        // a sound tree holds only nameable children
                        proof {
                            assert(false);
                        }
                        return Err(DotError::InvalidPath);
                    },
                };
                proof {
                    assert(name_of(c.path) == Some(nm@));
                }
                match crate::fstree::find_entry(entries, nm.as_str()) {
                    None => {
                        proof {
                            let j = crate::fstree::entry_index_of(ems, nm@);
                            assert(model_scan_children(self@, ems, i as int) == (
                                self@,
                                Err::<(), DotError>(DotError::FilesystemRead),
                            ));
                        }
                        return Err(DotError::FilesystemRead);
                    },
                    Some(t) => match t {
                        FsTree::File { .. } => {
                            proof {
                                let j = crate::fstree::entry_index_of(ems, nm@);
                                assert(ems[j].tree == t.model());
                                assert(model_scan_children(self@, ems, i as int) == (
                                    self@,
                                    Err::<(), DotError>(DotError::FilesystemRead),
                                ));
                            }
                            return Err(DotError::FilesystemRead);
                        },
                        FsTree::Dir { entries: sub } => {
                            let ghost j = crate::fstree::entry_index_of(ems, nm@);
                            let ghost sub_m = models_of(sub@);
                            let ghost pre = *self;
                            proof {
                                assert(ems[j].tree == t.model());
                                assert(ems[j].tree == FsTreeModel::Dir { entries: sub_m });
                                crate::fstree::lemma_models_of(entries@);
                                assert(entries@[j] == entries@.index(j));
                                assert(decreases_to!(entries@ => entries@[j]));
                                assert(decreases_to!(entries@[j] => entries@[j].tree));
                                assert(entries@[j].tree == *t);
                                assert(decreases_to!(entries@[j].tree => *sub));
                                assert(decreases_to!(*sub => sub@));
                            }
                            let rr = self.children[i].scan_dir(sub, true);
                            proof {
                                let scanned = model_scan_dir(c, sub_m, true);
                                lemma_scan_dir_keeps_id(c, sub_m, true);
                                assert(self.children@ =~= pre.children@.update(
                                    i as int,
                                    self.children@[i as int],
                                ));
                                lemma_child_models(pre.children@);
                                lemma_child_models(self.children@);
                                assert(child_models(self.children@) =~= child_models(
                                    pre.children@,
                                ).update(i as int, scanned.0));
                                let e2 = DotNode {
                                    path: pre@.path,
                                    kind: pre@.kind,
                                    config: pre@.config,
                                    children: pre@.children.update(i as int, scanned.0),
                                };
                                assert(self@ == e2);
                                // the tree stays sound: the one child changed kept its
                                // path, and every other child is untouched
                                let m = self.model();
                                assert forall|a: int, b: int|
                                    #![trigger m.children[a], m.children[b]]
                                    0 <= a < b < m.children.len() implies name_of(
                                    m.children[a].path,
                                ) != name_of(m.children[b].path) by {
                                    assert(node_wf(pre.model()));
                                }
                                assert(node_wf(m));
                                assert(self.configs_wf());
                            }
                            if let Err(e) = rr {
                                return Err(e);
                            }
                        },
                    },
                }
            } else {
                proof {
                    assert(model_scan_children(self@, ems, i as int) == model_scan_children(
                        self@,
                        ems,
                        i as int + 1,
                    ));
                }
            }
            i += 1;
        }
        proof {
            assert(model_scan_children(self@, ems, n as int) == (self@, Ok::<(), DotError>(())));
        }
        Ok(())
    }

    /// Scan this entry against the snapshot node at its path: list the
    /// directory, add a child for every listed name, and, if `recursive`,
    /// go on into every directory child, depth-first, left to right.
    /// Scanning anything but a directory entry does nothing; a snapshot
    /// that shows no directory at the path fails as an unreadable
    /// directory does.
    pub fn scan(&mut self, fs: Option<&FsTree>, recursive: bool) -> (r: Result<(), DotError>)
        requires
            old(self).wf(),
        ensures
            final(self).wf(),
            ({
                let m = model_scan(old(self)@, opt_model(fs), recursive);
                m.0 == final(self)@ && m.1 == r
            }),
            old(self)@.kind == PathKind::File ==> *final(self) == *old(self) && r == Ok::<
                (),
                DotError,
            >(()),
    {
        if !self.is_dir() {
            return Ok(());
        }
        match fs {
            Some(t) => match t {
                FsTree::Dir { entries } => self.scan_dir(entries, recursive),
                FsTree::File { .. } => Err(DotError::FilesystemRead),
            },
            None => Err(DotError::FilesystemRead),
        }
    }
}

/// A lookup whose first component matches no child fails outright: there
/// is no partial resolution.
pub proof fn lemma_find_unmatched_first(e: DotNode, comps: Seq<Seq<char>>)
    requires
        comps.len() > 0,
        forall|i: int|
            0 <= i < e.children.len() ==> name_of(#[trigger] e.children[i].path) != Some(comps[0]),
    ensures
        find_in(e, comps) is None,
{
    lemma_find_child_none(e.children, comps[0]);
}

/// How a push shows through `find_child`: existing matches stay, and the
/// pushed node answers for its own name where nothing did.
proof fn lemma_find_child_push(cs: Seq<DotNode>, c: DotNode, name: Seq<char>)
    ensures
        find_child(cs.push(c), name) == (if find_child(cs, name) is Some {
            find_child(cs, name)
        } else if name_of(c.path) == Some(name) {
            Some(c)
        } else {
            None::<DotNode>
        }),
    decreases cs.len(),
{
    if cs.len() == 0 {
        assert(cs.push(c)[0] == c);
        assert(cs.push(c).drop_first() =~= Seq::<DotNode>::empty());
    } else {
        assert(cs.push(c)[0] == cs[0]);
        assert(cs.push(c).drop_first() =~= cs.drop_first().push(c));
        lemma_find_child_push(cs.drop_first(), c, name);
    }
}

/// Adding a listing to a directory entry loses no child name, and, when
/// every entry went in without error, every listed name answers.
proof fn lemma_add_entries_names(e: DotNode, entries: Seq<FsChildModel>)
    requires
        e.kind == PathKind::Directory,
        forall|k: int| 0 <= k < entries.len() ==> crate::paths::plain_name(
            (#[trigger] entries[k]).name,
        ),
    ensures
        ({
            let m = model_add_entries(e, entries);
            &&& m.0.kind == e.kind
            &&& (forall|n: Seq<char>|
                find_child(e.children, n) is Some ==> find_child(#[trigger] m.0.children, n)
                    is Some)
            &&& (m.1 is Ok ==> forall|k: int|
                0 <= k < entries.len() ==> find_child(
                    m.0.children,
                    (#[trigger] entries[k]).name,
                ) is Some)
        }),
    decreases entries.len(),
{
    lemma_add_entries_keeps_id(e, entries);
    if entries.len() > 0 {
        let name0 = entries[0].name;
        match model_add_child_by_name(e, name0, Some(entries[0].tree)) {
            Err(_) => {},
            Ok(e2) => {
                // the head entry is now among the children of e2
                if find_child(e.children, name0) is None {
                    match model_new(spec_join(e.path, name0), Some(entries[0].tree)) {
                        Err(_) => {
                            assert(false);
                        },
                        Ok(c) => {
                            crate::paths::lemma_join_name(e.path, name0);
                            assert(e2.children == e.children.push(c));
                            assert forall|n: Seq<char>|
                                find_child(e.children, n) is Some implies find_child(
                                e2.children,
                                n,
                            ) is Some by {
                                lemma_find_child_push(e.children, c, n);
                            }
                            assert(find_child(e2.children, name0) is Some) by {
                                lemma_find_child_push(e.children, c, name0);
                            }
                        },
                    }
                }
                assert(e2.kind == e.kind);
                lemma_add_entries_names(e2, entries.drop_first());
                let m = model_add_entries(e, entries);
                assert(m == model_add_entries(e2, entries.drop_first()));
                if m.1 is Ok {
                    assert forall|k: int| 0 <= k < entries.len() implies find_child(
                        m.0.children,
                        (#[trigger] entries[k]).name,
                    ) is Some by {
                        if k > 0 {
                            assert(entries.drop_first()[k - 1] == entries[k]);
                        }
                    }
                }
            },
        }
    }
}

/// Adding a child by one name a second time changes nothing: the dedup
/// rule holds however often the same name is offered.
pub proof fn lemma_add_child_by_name_idempotent(
    e: DotNode,
    name: Seq<char>,
    fs: Option<FsTreeModel>,
)
    ensures
        ({
            let first = model_add_child_by_name(e, name, fs);
            first matches Ok(e2) ==> model_add_child_by_name(e2, name, fs) == Ok::<
                DotNode,
                DotError,
            >(e2)
        }),
{
    let first = model_add_child_by_name(e, name, fs);
    if first is Ok {
        let e2 = first.unwrap();
        if find_child(e.children, name) is Some {
            assert(e2 == e);
        } else {
            match model_new(spec_join(e.path, name), fs) {
                Err(_) => {},
                Ok(c) => {
                    match name_of(c.path) {
                        None => {
                            assert(false);
                        },
                        Some(nm_c) => {
                            if e.kind == PathKind::File {
                                assert(e2 == e);
                            } else if find_child(e.children, nm_c) is Some {
                                assert(e2 == e);
                            } else {
                                assert(e2.children == e.children.push(c));
                                lemma_find_child_push(e.children, c, name);
                                lemma_find_child_push(e.children, c, nm_c);
                                if nm_c == name {
                                    assert(find_child(e2.children, name) is Some);
                                } else {
                                    assert(find_child(e2.children, name) is None);
                                    assert(find_child(e2.children, nm_c) is Some);
                                }
                            }
                        },
                    }
                },
            }
        }
    }
}

/// Adding a listing whose names are all already present does nothing.
proof fn lemma_add_entries_noop(e: DotNode, entries: Seq<FsChildModel>)
    requires
        forall|k: int|
            0 <= k < entries.len() ==> find_child(e.children, (#[trigger] entries[k]).name)
                is Some,
    ensures
        model_add_entries(e, entries) == (e, Ok::<(), DotError>(())),
    decreases entries.len(),
{
    if entries.len() > 0 {
        assert(find_child(e.children, entries[0].name) is Some);
        assert forall|k: int|
            0 <= k < entries.drop_first().len() implies find_child(
            e.children,
            (#[trigger] entries.drop_first()[k]).name,
        ) is Some by {
            assert(entries.drop_first()[k] == entries[k + 1]);
        }
        lemma_add_entries_noop(e, entries.drop_first());
    }
}

/// A non-recursive scan is idempotent: once it went through, doing it
/// again over the same snapshot changes nothing and reports success.
pub proof fn lemma_scan_idempotent(e: DotNode, fs: Option<FsTreeModel>)
    requires
        match fs {
            Some(FsTreeModel::Dir { entries }) => forall|k: int|
                0 <= k < entries.len() ==> crate::paths::plain_name((#[trigger] entries[k]).name),
            _ => true,
        },
    ensures
        ({
            let once = model_scan(e, fs, false);
            once.1 is Ok ==> model_scan(once.0, fs, false) == (once.0, Ok::<(), DotError>(()))
        }),
{
    let once = model_scan(e, fs, false);
    if once.1 is Ok {
        if e.kind != PathKind::Directory {
            assert(once.0 == e);
        } else {
            match fs {
                Some(FsTreeModel::Dir { entries }) => {
                    lemma_add_entries_names(e, entries);
                    assert(once == model_add_entries(e, entries));
                    lemma_add_entries_noop(once.0, entries);
                },
                _ => {
                    assert(false);
                },
            }
        }
    }
}

/// Every child the head pass of a scan adds starts with no children of
/// its own.
proof fn lemma_add_entries_shallow(e: DotNode, entries: Seq<FsChildModel>)
    requires
        forall|i: int| 0 <= i < e.children.len() ==> (#[trigger] e.children[i]).children.len()
            == 0,
    ensures
        ({
            let m = model_add_entries(e, entries);
            forall|i: int|
                0 <= i < m.0.children.len() ==> (#[trigger] m.0.children[i]).children.len() == 0
        }),
    decreases entries.len(),
{
    if entries.len() > 0 {
        match model_add_child_by_name(e, entries[0].name, Some(entries[0].tree)) {
            Err(_) => {},
            Ok(e2) => {
                assert forall|i: int| 0 <= i < e2.children.len() implies (
                #[trigger] e2.children[i]).children.len() == 0 by {
                    if i < e.children.len() {
                        assert(e.children[i].children.len() == 0);
                    }
                }
                lemma_add_entries_shallow(e2, entries.drop_first());
            },
        }
    }
}

/// A non-recursive scan of a fresh entry reaches one level only: each
/// discovered child has no children of its own.
pub proof fn lemma_scan_shallow(e: DotNode, fs: Option<FsTreeModel>)
    requires
        e.children.len() == 0,
    ensures
        ({
            let m = model_scan(e, fs, false);
            forall|i: int|
                0 <= i < m.0.children.len() ==> (#[trigger] m.0.children[i]).children.len() == 0
        }),
{
    if e.kind == PathKind::Directory {
        match fs {
            Some(FsTreeModel::Dir { entries }) => {
                lemma_add_entries_shallow(e, entries);
            },
            _ => {},
        }
    }
}

} // verus!
