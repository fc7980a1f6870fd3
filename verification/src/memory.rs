//! A filesystem held entirely in memory.
//!
//! The store is a list of entries, each with the text its path was first
//! inserted under, the components of that path, and the node.  No two
//! entries have the same components.  Lookups normalize the requested path
//! first; symbolic links are followed up to a fixed depth.

use vstd::prelude::*;
use vstd::string::*;
use vstd::utf8::*;

use crate::path::{
    clone_string, component_after, component_after_spec, components, components_spec,
    display_spec, file_name_spec, is_absolute, join_normalize, join_normalize_spec, normalize,
    normalize_key, normalize_spec, norm_fold, parent_spec, starts_with_spec, str_seq, PathView,
    clone_comps,
    VPath,
};
use crate::sort::{computes, lemma_sort_contains, named_view, sort_by_name, sort_spec, NameOrder};
use crate::walk::{decides, Walk, WalkConfig, WalkEntry, WalkEntryView};
use crate::types::{
    err_view, result_view, DirEntry, DirEntryView, ErrView, ErrorKind, FileType,
    IoError, Metadata, Permissions,
};

verus! {

/// A node of the in-memory tree.
#[derive(Debug)]
pub enum FsNode {
    File { contents: Vec<u8>, modified: web_time::SystemTime, readonly: bool },
    Directory,
    Symlink { target: String },
}

/// The value of an [`FsNode`].
pub enum NodeView {
    File { contents: Seq<u8>, modified: web_time::SystemTime, readonly: bool },
    Directory,
    Symlink { target: Seq<char> },
}

impl View for FsNode {
    type V = NodeView;

    open spec fn view(&self) -> NodeView {
        match self {
            FsNode::File { contents, modified, readonly } => NodeView::File {
                contents: contents@,
                modified: *modified,
                readonly: *readonly,
            },
            FsNode::Directory => NodeView::Directory,
            FsNode::Symlink { target } => NodeView::Symlink { target: target@ },
        }
    }
}

/// One entry of the store, as a value.
pub struct EntryView {
    pub text: Seq<char>,
    pub key: PathView,
    pub node: NodeView,
}

pub struct Entry {
    pub text: String,
    pub key: VPath,
    pub node: FsNode,
}

impl View for Entry {
    type V = EntryView;

    open spec fn view(&self) -> EntryView {
        EntryView { text: self.text@, key: self.key@, node: self.node@ }
    }
}

/// An in-memory filesystem.
pub struct InMemoryFs {
    entries: Vec<Entry>,
}

impl View for InMemoryFs {
    type V = Seq<EntryView>;

    closed spec fn view(&self) -> Seq<EntryView> {
        self.entries@.map_values(|e: Entry| e@)
    }
}

// ── The store as a value ────────────────────────────────────────────────────

pub open spec fn has_key(es: Seq<EntryView>, k: PathView) -> bool {
    exists|i: int| 0 <= i < es.len() && #[trigger] es[i].key == k
}

pub open spec fn key_pos(es: Seq<EntryView>, k: PathView) -> int {
    choose|i: int| 0 <= i < es.len() && #[trigger] es[i].key == k
}

/// The node stored under `k`.
pub open spec fn lookup(es: Seq<EntryView>, k: PathView) -> Option<NodeView> {
    if has_key(es, k) {
        Some(es[key_pos(es, k)].node)
    } else {
        None
    }
}

/// No two entries share a path.
pub open spec fn keys_unique(es: Seq<EntryView>) -> bool {
    forall|i: int, j: int|
        0 <= i < es.len() && 0 <= j < es.len() && i != j ==> #[trigger] es[i].key
            != #[trigger] es[j].key
}

/// Stores `n` under `k`: an existing entry keeps its place and its text.
pub open spec fn set_node(es: Seq<EntryView>, k: PathView, text: Seq<char>, n: NodeView) -> Seq<
    EntryView,
> {
    if has_key(es, k) {
        es.update(key_pos(es, k), EntryView { text: es[key_pos(es, k)].text, key: k, node: n })
    } else {
        es.push(EntryView { text, key: k, node: n })
    }
}

/// Removes the entry stored under `k`, if any.
pub open spec fn remove_key(es: Seq<EntryView>, k: PathView) -> Seq<EntryView> {
    if has_key(es, k) {
        es.remove(key_pos(es, k))
    } else {
        es
    }
}

/// Adds a directory under `k` unless something is stored there.
pub open spec fn add_dir(es: Seq<EntryView>, k: PathView) -> Seq<EntryView> {
    if has_key(es, k) {
        es
    } else {
        es.push(EntryView { text: display_spec(k), key: k, node: NodeView::Directory })
    }
}

pub open spec fn prefix(p: PathView, m: int) -> PathView {
    PathView { absolute: p.absolute, comps: p.comps.take(m) }
}

/// The shortest leading part of `p` that names a directory: the root for an
/// absolute path, the first component otherwise.
pub open spec fn first_prefix(p: PathView) -> int {
    if p.absolute {
        0
    } else {
        1
    }
}

pub open spec fn ensure_upto(es: Seq<EntryView>, p: PathView, m: int) -> Seq<EntryView>
    decreases m,
{
    if m < 0 {
        es
    } else {
        let prev = if m == 0 {
            es
        } else {
            ensure_upto(es, p, m - 1)
        };
        if m < first_prefix(p) {
            prev
        } else {
            add_dir(prev, prefix(p, m))
        }
    }
}

/// Every leading part of `p`, and `p` itself, exists afterwards; missing ones
/// are added as directories, shortest first.
pub open spec fn ensure_dirs_spec(es: Seq<EntryView>, p: PathView) -> Seq<EntryView> {
    ensure_upto(es, p, p.comps.len() as int)
}

pub open spec fn file_node(contents: Seq<u8>, modified: web_time::SystemTime) -> NodeView {
    NodeView::File { contents, modified, readonly: false }
}

/// The store after loading a file at the path text `path`.
pub open spec fn load_file_spec(
    es: Seq<EntryView>,
    path: Seq<char>,
    contents: Seq<u8>,
    t: web_time::SystemTime,
) -> Seq<EntryView> {
    let p = components_spec(path);
    let es1 = match parent_spec(p) {
        Some(par) => ensure_dirs_spec(es, par),
        None => es,
    };
    set_node(es1, p, path, file_node(contents, t))
}

pub open spec fn root_view() -> PathView {
    PathView { absolute: true, comps: seq![] }
}

pub open spec fn initial_store() -> Seq<EntryView> {
    seq![EntryView { text: seq!['/'], key: root_view(), node: NodeView::Directory }]
}


// ── Operations as values ────────────────────────────────────────────────────

/// The directory a symbolic link at `p` is resolved against.
pub open spec fn parent_or_root(p: PathView) -> PathView {
    match parent_spec(p) {
        Some(q) => q,
        None => root_view(),
    }
}

/// Where a symbolic link at `p` with text `target` points.
pub open spec fn link_step(p: PathView, target: Seq<char>) -> PathView {
    join_normalize_spec(parent_or_root(p), target)
}

/// How many links a lookup follows before giving up.
pub open spec fn link_limit() -> nat {
    32
}

/// Follows symbolic links from the normal path `p`, `depth` of them already
/// followed.
pub open spec fn resolve_spec(es: Seq<EntryView>, p: PathView, depth: nat) -> Result<
    PathView,
    ErrView,
>
    decreases link_limit() + 1 - depth,
{
    if depth > link_limit() {
        Err(err_view(ErrorKind::Other, "too many symlink levels"@))
    } else {
        match lookup(es, p) {
            Some(NodeView::Symlink { target }) => resolve_spec(
                es,
                link_step(p, target),
                depth + 1,
            ),
            _ => Ok(p),
        }
    }
}

/// The path that the text `path` leads to once links are followed.
pub open spec fn resolve_path(es: Seq<EntryView>, path: Seq<char>) -> Result<PathView, ErrView> {
    resolve_spec(es, normalize_spec(path), 0)
}

pub open spec fn not_found_at(p: Seq<char>) -> ErrView {
    err_view(ErrorKind::NotFound, "not found: "@ + p)
}

/// What reading the file at `path` gives.
pub open spec fn read_spec(es: Seq<EntryView>, path: Seq<char>) -> Result<Seq<u8>, ErrView> {
    match resolve_path(es, path) {
        Err(e) => Err(e),
        Ok(p) => match lookup(es, p) {
            Some(NodeView::File { contents, .. }) => Ok(contents),
            Some(NodeView::Directory) => Err(err_view(ErrorKind::InvalidInput, "Is a directory"@)),
            _ => Err(not_found_at(display_spec(p))),
        },
    }
}

/// The store after the directories that hold the normal path `p` are made.
pub open spec fn with_parents(es: Seq<EntryView>, p: PathView) -> Seq<EntryView> {
    match parent_spec(p) {
        Some(par) => ensure_dirs_spec(es, par),
        None => es,
    }
}

/// Writing `contents` at `path`, the clock reading `t`: the store afterwards
/// and the result.
pub open spec fn write_spec(
    es: Seq<EntryView>,
    path: Seq<char>,
    contents: Seq<u8>,
    t: web_time::SystemTime,
) -> (Seq<EntryView>, Result<(), ErrView>) {
    let p = normalize_spec(path);
    let es1 = with_parents(es, p);
    match lookup(es1, p) {
        Some(NodeView::File { readonly: true, .. }) => (
            es1,
            Err(err_view(ErrorKind::PermissionDenied, "file is readonly"@)),
        ),
        _ => (set_node(es1, p, display_spec(p), file_node(contents, t)), Ok(())),
    }
}

pub open spec fn file_meta(len: nat, modified: web_time::SystemTime, readonly: bool) -> Metadata {
    Metadata {
        len: len as u64,
        file_type: FileType::File,
        readonly,
        modified: Some(modified),
        mode: if readonly {
            0o444
        } else {
            0o644
        },
        nlink: 1,
        gid: 0,
    }
}

pub open spec fn dir_meta() -> Metadata {
    Metadata {
        len: 0,
        file_type: FileType::Directory,
        readonly: false,
        modified: None,
        mode: 0o755,
        nlink: 1,
        gid: 0,
    }
}

pub open spec fn link_meta() -> Metadata {
    Metadata {
        len: 0,
        file_type: FileType::Symlink,
        readonly: false,
        modified: None,
        mode: 0o777,
        nlink: 1,
        gid: 0,
    }
}

/// Metadata of what `path` leads to, links followed.
pub open spec fn metadata_spec(es: Seq<EntryView>, path: Seq<char>) -> Result<Metadata, ErrView> {
    match resolve_path(es, path) {
        Err(e) => Err(e),
        Ok(p) => match lookup(es, p) {
            Some(NodeView::File { contents, modified, readonly }) => Ok(
                file_meta(contents.len(), modified, readonly),
            ),
            Some(NodeView::Directory) => Ok(dir_meta()),
            _ => Err(not_found_at(path)),
        },
    }
}

/// Metadata of the node stored at `path` itself.
pub open spec fn symlink_metadata_spec(es: Seq<EntryView>, path: Seq<char>) -> Result<
    Metadata,
    ErrView,
> {
    let p = normalize_spec(path);
    match lookup(es, p) {
        Some(NodeView::File { contents, modified, readonly }) => Ok(
            file_meta(contents.len(), modified, readonly),
        ),
        Some(NodeView::Directory) => Ok(dir_meta()),
        Some(NodeView::Symlink { .. }) => Ok(link_meta()),
        None => Err(not_found_at(display_spec(p))),
    }
}

/// `k` sits directly inside `p`.
pub open spec fn is_child(k: PathView, p: PathView) -> bool {
    parent_spec(k) == Some(p) && k != p
}

pub open spec fn node_type(n: NodeView) -> FileType {
    match n {
        NodeView::File { .. } => FileType::File,
        NodeView::Directory => FileType::Directory,
        NodeView::Symlink { .. } => FileType::Symlink,
    }
}


/// Removing the file or link stored at `path`.
pub open spec fn remove_file_spec(es: Seq<EntryView>, path: Seq<char>) -> (
    Seq<EntryView>,
    Result<(), ErrView>,
) {
    let p = normalize_spec(path);
    match lookup(es, p) {
        Some(NodeView::Directory) => (es, Err(err_view(ErrorKind::InvalidInput, "is a directory"@))),
        Some(_) => (remove_key(es, p), Ok(())),
        None => (es, Err(err_view(ErrorKind::NotFound, "file not found"@))),
    }
}

/// Something is stored directly inside `p`.
pub open spec fn has_children(es: Seq<EntryView>, p: PathView) -> bool {
    exists|i: int| 0 <= i < es.len() && is_child(#[trigger] es[i].key, p)
}

/// Removing the empty directory at `path`.
pub open spec fn remove_dir_spec(es: Seq<EntryView>, path: Seq<char>) -> (
    Seq<EntryView>,
    Result<(), ErrView>,
) {
    let p = normalize_spec(path);
    if has_children(es, p) {
        (es, Err(err_view(ErrorKind::InvalidInput, "directory not empty"@)))
    } else {
        match lookup(es, p) {
            Some(NodeView::Directory) => (remove_key(es, p), Ok(())),
            Some(_) => (es, Err(err_view(ErrorKind::InvalidInput, "not a directory"@))),
            None => (es, Err(err_view(ErrorKind::NotFound, "directory not found"@))),
        }
    }
}

/// Entries that do not lie under `p`.
pub open spec fn outside(p: PathView) -> spec_fn(EntryView) -> bool {
    |e: EntryView| !starts_with_spec(e.key, p)
}

/// Removing the directory at `path` with everything under it.
pub open spec fn remove_dir_all_spec(es: Seq<EntryView>, path: Seq<char>) -> (
    Seq<EntryView>,
    Result<(), ErrView>,
) {
    let p = normalize_spec(path);
    match lookup(es, p) {
        Some(NodeView::Directory) => (es.filter(outside(p)), Ok(())),
        Some(_) => (es, Err(err_view(ErrorKind::InvalidInput, "not a directory"@))),
        None => (es, Err(err_view(ErrorKind::NotFound, "directory not found"@))),
    }
}

/// Entries that lie under `p`, `p` included.
pub open spec fn inside(p: PathView) -> spec_fn(EntryView) -> bool {
    |e: EntryView| starts_with_spec(e.key, p)
}

/// Where the path `k`, which lies under `from`, lands when `from` moves to
/// `to`: the part of `k` below `from` is kept below `to`.
pub open spec fn rekey(k: PathView, from: PathView, to: PathView) -> PathView {
    PathView { absolute: to.absolute, comps: to.comps + k.comps.skip(from.comps.len() as int) }
}

/// `base` with each entry of `moved`, in order, stored at its new path,
/// replacing what was there.
pub open spec fn place_moved(
    base: Seq<EntryView>,
    moved: Seq<EntryView>,
    from: PathView,
    to: PathView,
) -> Seq<EntryView>
    decreases moved.len(),
{
    if moved.len() == 0 {
        base
    } else {
        let m = moved.last();
        let k = rekey(m.key, from, to);
        set_node(place_moved(base, moved.drop_last(), from, to), k, display_spec(k), m.node)
    }
}

/// Moving the node at `from`, with everything under it, to `to`, as
/// `std::fs::rename` moves a file or a directory tree.
pub open spec fn rename_spec(es: Seq<EntryView>, from: Seq<char>, to: Seq<char>) -> (
    Seq<EntryView>,
    Result<(), ErrView>,
) {
    let f = normalize_spec(from);
    let t = normalize_spec(to);
    match lookup(es, f) {
        Some(_) => (place_moved(es.filter(outside(f)), es.filter(inside(f)), f, t), Ok(())),
        None => (es, Err(err_view(ErrorKind::NotFound, "source not found"@))),
    }
}

/// Copying the file that `from` leads to onto `to`, the clock reading `t`.
pub open spec fn copy_spec(
    es: Seq<EntryView>,
    from: Seq<char>,
    to: Seq<char>,
    t: web_time::SystemTime,
) -> (Seq<EntryView>, Result<u64, ErrView>) {
    match read_spec(es, from) {
        Err(e) => (es, Err(e)),
        Ok(c) => {
            let (es1, w) = write_spec(es, to, c, t);
            match w {
                Err(e) => (es1, Err(e)),
                Ok(_) => (es1, Ok(c.len() as u64)),
            }
        },
    }
}

/// The text of the path `path` leads to once links are followed; that path
/// must hold something, as with `std::fs::canonicalize`.
pub open spec fn canonicalize_spec(es: Seq<EntryView>, path: Seq<char>) -> Result<
    Seq<char>,
    ErrView,
> {
    match resolve_path(es, path) {
        Ok(p) => if has_key(es, p) {
            Ok(display_spec(p))
        } else {
            Err(not_found_at(display_spec(p)))
        },
        Err(e) => Err(e),
    }
}

/// The target text of the link stored at `path`.
pub open spec fn read_link_spec(es: Seq<EntryView>, path: Seq<char>) -> Result<Seq<char>, ErrView> {
    match lookup(es, normalize_spec(path)) {
        Some(NodeView::Symlink { target }) => Ok(target),
        _ => Err(err_view(ErrorKind::InvalidInput, "not a symbolic link"@)),
    }
}

/// Setting the permissions of the node at `path`: only a file's read-only
/// flag is kept.
pub open spec fn set_permissions_spec(es: Seq<EntryView>, path: Seq<char>, readonly: bool) -> (
    Seq<EntryView>,
    Result<(), ErrView>,
) {
    let p = normalize_spec(path);
    match lookup(es, p) {
        Some(NodeView::File { contents, modified, .. }) => (
            set_node(es, p, display_spec(p), NodeView::File { contents, modified, readonly }),
            Ok(()),
        ),
        Some(_) => (es, Ok(())),
        None => (es, Err(err_view(ErrorKind::NotFound, "not found"@))),
    }
}

/// Listings order entries by their last component.
pub open spec fn by_component() -> NameOrder {
    |a: Seq<char>, b: Seq<char>| component_after_spec(a, b)
}

/// The listing item of `e` when it sits directly inside `p`, with the
/// component it sorts by.
pub open spec fn child_item(e: EntryView, p: PathView) -> Option<(Seq<char>, DirEntryView)> {
    if is_child(e.key, p) {
        Some(
            (
                e.key.comps.last(),
                DirEntryView {
                    path: e.text,
                    file_name: match file_name_spec(e.key) {
                        Some(n) => n,
                        None => seq![],
                    },
                    file_type: node_type(e.node),
                },
            ),
        )
    } else {
        None
    }
}

pub open spec fn children_of(es: Seq<EntryView>, p: PathView) -> Seq<(Seq<char>, DirEntryView)> {
    es.filter_map(|e: EntryView| child_item(e, p))
}

/// The listing of the directory `path` leads to, ordered by path.
pub open spec fn read_dir_spec(es: Seq<EntryView>, path: Seq<char>) -> Result<
    Seq<DirEntryView>,
    ErrView,
> {
    match resolve_path(es, path) {
        Err(e) => Err(e),
        Ok(p) => match lookup(es, p) {
            Some(NodeView::Directory) => Ok(
                sort_spec(children_of(es, p), by_component()).map_values(
                    |x: (Seq<char>, DirEntryView)| x.1,
                ),
            ),
            Some(_) => Err(err_view(ErrorKind::InvalidInput, "not a directory"@)),
            None => Err(err_view(ErrorKind::NotFound, "directory not found"@)),
        },
    }
}

// ── Facts about the store ───────────────────────────────────────────────────

pub proof fn lemma_lookup_at(es: Seq<EntryView>, i: int)
    requires
        keys_unique(es),
        0 <= i < es.len(),
    ensures
        has_key(es, es[i].key),
        key_pos(es, es[i].key) == i,
        lookup(es, es[i].key) == Some(es[i].node),
{
    assert(has_key(es, es[i].key));
}

pub proof fn lemma_add_dir(es: Seq<EntryView>, k: PathView)
    requires
        keys_unique(es),
    ensures
        keys_unique(add_dir(es, k)),
        has_key(add_dir(es, k), k),
        forall|q: PathView| q != k ==> lookup(add_dir(es, k), q) == lookup(es, q),
        !has_key(es, k) ==> lookup(add_dir(es, k), k) == Some(NodeView::Directory),
        has_key(es, k) ==> add_dir(es, k) == es,
{
    let r = add_dir(es, k);
    if !has_key(es, k) {
        lemma_lookup_at(r, es.len() as int);
        assert forall|q: PathView| q != k implies lookup(r, q) == lookup(es, q) by {
            if has_key(es, q) {
                let i = key_pos(es, q);
                assert(r[i] == es[i]);
                lemma_lookup_at(r, i);
            } else {
                assert forall|i: int| 0 <= i < r.len() implies r[i].key != q by {
                    if i < es.len() {
                        assert(r[i] == es[i]);
                    }
                }
            }
        }
    }
}

pub proof fn lemma_set_node(es: Seq<EntryView>, k: PathView, text: Seq<char>, n: NodeView)
    requires
        keys_unique(es),
    ensures
        keys_unique(set_node(es, k, text, n)),
        lookup(set_node(es, k, text, n), k) == Some(n),
        forall|q: PathView| q != k ==> lookup(set_node(es, k, text, n), q) == lookup(es, q),
{
    let r = set_node(es, k, text, n);
    if has_key(es, k) {
        let p = key_pos(es, k);
        lemma_lookup_at(r, p);
        assert forall|q: PathView| q != k implies lookup(r, q) == lookup(es, q) by {
            if has_key(es, q) {
                let i = key_pos(es, q);
                lemma_lookup_at(r, i);
            } else {
                assert forall|i: int| 0 <= i < r.len() implies r[i].key != q by {
                    if i != p {
                        assert(r[i] == es[i]);
                    }
                }
            }
        }
    } else {
        lemma_lookup_at(r, es.len() as int);
        assert forall|q: PathView| q != k implies lookup(r, q) == lookup(es, q) by {
            if has_key(es, q) {
                let i = key_pos(es, q);
                assert(r[i] == es[i]);
                lemma_lookup_at(r, i);
            } else {
                assert forall|i: int| 0 <= i < r.len() implies r[i].key != q by {
                    if i < es.len() {
                        assert(r[i] == es[i]);
                    }
                }
            }
        }
    }
}

pub proof fn lemma_remove_key(es: Seq<EntryView>, k: PathView)
    requires
        keys_unique(es),
    ensures
        keys_unique(remove_key(es, k)),
        lookup(remove_key(es, k), k) is None,
        forall|q: PathView| q != k ==> lookup(remove_key(es, k), q) == lookup(es, q),
{
    let r = remove_key(es, k);
    if has_key(es, k) {
        let p = key_pos(es, k);
        assert forall|i: int| 0 <= i < r.len() implies r[i].key != k by {
            if i < p {
                assert(r[i] == es[i]);
            } else {
                assert(r[i] == es[i + 1]);
            }
        }
        assert forall|q: PathView| q != k implies lookup(r, q) == lookup(es, q) by {
            if has_key(es, q) {
                let i = key_pos(es, q);
                if i < p {
                    assert(r[i] == es[i]);
                    lemma_lookup_at(r, i);
                } else {
                    assert(r[i - 1] == es[i]);
                    lemma_lookup_at(r, i - 1);
                }
            } else {
                assert forall|i: int| 0 <= i < r.len() implies r[i].key != q by {
                    if i < p {
                        assert(r[i] == es[i]);
                    } else {
                        assert(r[i] == es[i + 1]);
                    }
                }
            }
        }
    }
}

// ── Executable store operations ─────────────────────────────────────────────

impl InMemoryFs {
    /// The store is well formed: no two entries share a path.
    pub open spec fn wf(&self) -> bool {
        keys_unique(self@)
    }

    fn find(&self, k: &VPath) -> (r: Option<usize>)
        requires
            self.wf(),
        ensures
            match r {
                Some(i) => i < self@.len() && self@[i as int].key == k@ && key_pos(self@, k@)
                    == i && lookup(self@, k@) == Some(self@[i as int].node),
                None => !has_key(self@, k@) && lookup(self@, k@) is None,
            },
    {
        let mut i: usize = 0;
        while i < self.entries.len()
            invariant
                0 <= i <= self.entries.len(),
                self@.len() == self.entries.len(),
                keys_unique(self@),
                forall|j: int| 0 <= j < i ==> #[trigger] self@[j].key != k@,
            decreases self.entries.len() - i,
        {
            if self.entries[i].key.same(k) {
                proof {
                    assert(self@[i as int] == self.entries@[i as int]@);
                    lemma_lookup_at(self@, i as int);
                }
                return Some(i);
            }
            assert(self@[i as int] == self.entries@[i as int]@);
            i = i + 1;
        }
        None
    }

    /// Adds a directory under `k` unless something is stored there.
    fn add_dir(&mut self, k: VPath)
        requires
            old(self).wf(),
        ensures
            final(self).wf(),
            final(self)@ == add_dir(old(self)@, k@),
    {
        proof {
            lemma_add_dir(self@, k@);
        }
        match self.find(&k) {
            Some(_) => {},
            None => {
                let text = k.display();
                self.entries.push(Entry { text, key: k, node: FsNode::Directory });
                assert(self@ =~= add_dir(old(self)@, k@));
            },
        }
    }

    /// Makes every leading part of `p`, and `p` itself, exist.
    fn ensure_dirs(&mut self, p: &VPath)
        requires
            old(self).wf(),
        ensures
            final(self).wf(),
            final(self)@ == ensure_dirs_spec(old(self)@, p@),
    {
        let mut cur = VPath { absolute: p.absolute, comps: Vec::new() };
        assert(cur@ == prefix(p@, 0));
        if p.absolute {
            self.add_dir(cur.duplicate());
        }
        assert(self@ == ensure_upto(old(self)@, p@, 0));
        let mut i: usize = 0;
        while i < p.comps.len()
            invariant
                0 <= i <= p.comps.len(),
                self.wf(),
                cur@ == prefix(p@, i as int),
                self@ == ensure_upto(old(self)@, p@, i as int),
            decreases p.comps.len() - i,
        {
            let ghost before = str_seq(cur.comps@);
            cur.comps.push(clone_string(&p.comps[i]));
            assert(cur@.comps =~= p@.comps.take(i + 1)) by {
                assert(str_seq(cur.comps@) =~= before.push(p.comps@[i as int]@));
            }
            self.add_dir(cur.duplicate());
            i = i + 1;
        }
    }
}


/// A copy of the bytes.
fn copy_bytes(v: &[u8]) -> (r: Vec<u8>)
    ensures
        r@ == v@,
{
    let mut r: Vec<u8> = Vec::new();
    let mut i: usize = 0;
    while i < v.len()
        invariant
            0 <= i <= v.len(),
            r@ == v@.take(i as int),
        decreases v.len() - i,
    {
        r.push(v[i]);
        assert(r@ =~= v@.take(i + 1));
        i = i + 1;
    }
    assert(v@.take(v.len() as int) =~= v@);
    r
}

/// An error whose message is `prefix` followed by `detail`.
fn error_with(kind: ErrorKind, prefix: &str, detail: &str) -> (e: IoError)
    ensures
        e@ == err_view(kind, prefix@ + detail@),
{
    let mut message = prefix.to_owned();
    message.append(detail);
    IoError { kind, message }
}

/// The path `k`, which lies under `from`, moved below `to`.
fn rekey_path(k: &VPath, from: &VPath, to: &VPath) -> (r: VPath)
    requires
        from@.comps.len() <= k@.comps.len(),
    ensures
        r@ == rekey(k@, from@, to@),
{
    let mut comps = clone_comps(&to.comps);
    let mut i: usize = from.comps.len();
    assert(k@.comps.subrange(from@.comps.len() as int, i as int) =~= Seq::<Seq<char>>::empty());
    assert(str_seq(comps@) =~= to@.comps + Seq::<Seq<char>>::empty());
    while i < k.comps.len()
        invariant
            from@.comps.len() <= i <= k@.comps.len(),
            k@.comps.len() == k.comps@.len(),
            str_seq(comps@) == to@.comps + k@.comps.subrange(from@.comps.len() as int, i as int),
        decreases k.comps.len() - i,
    {
        let piece = clone_string(&k.comps[i]);
        let ghost before = str_seq(comps@);
        comps.push(piece);
        assert(str_seq(comps@) =~= before.push(k@.comps[i as int]));
        assert(k@.comps.subrange(from@.comps.len() as int, i + 1) =~= k@.comps.subrange(
            from@.comps.len() as int,
            i as int,
        ).push(k@.comps[i as int]));
        i = i + 1;
    }
    assert(k@.comps.subrange(from@.comps.len() as int, k@.comps.len() as int) =~= k@.comps.skip(
        from@.comps.len() as int,
    ));
    VPath { absolute: to.absolute, comps }
}

impl Default for InMemoryFs {
    fn default() -> (r: InMemoryFs)
        ensures
            r.wf(),
            r@ == initial_store(),
    {
        InMemoryFs::new()
    }
}

impl InMemoryFs {
    /// A filesystem holding only the root directory.
    pub fn new() -> (r: InMemoryFs)
        ensures
            r.wf(),
            r@ == initial_store(),
    {
        let root = VPath::root();
        let text = root.display();
        let mut entries = Vec::new();
        entries.push(Entry { text, key: root, node: FsNode::Directory });
        let r = InMemoryFs { entries };
        proof {
            reveal_strlit("/");
            assert(r@ =~= initial_store());
        }
        r
    }

    /// Makes the directory at `path` and every directory above it.
    pub fn load_dir(&mut self, path: &str)
        requires
            old(self).wf(),
        ensures
            final(self).wf(),
            final(self)@ == ensure_dirs_spec(old(self)@, components_spec(path@)),
    {
        let p = components(path);
        self.ensure_dirs(&p);
    }

    /// Stores `n` under `k`, keeping the place and text of an existing entry.
    fn set_node(&mut self, k: VPath, text: String, n: FsNode)
        requires
            old(self).wf(),
        ensures
            final(self).wf(),
            final(self)@ == set_node(old(self)@, k@, text@, n@),
    {
        proof {
            lemma_set_node(self@, k@, text@, n@);
        }
        match self.find(&k) {
            Some(i) => {
                let old_entry = self.entries.remove(i);
                self.entries.insert(i, Entry { text: old_entry.text, key: k, node: n });
                assert(self@ =~= set_node(old(self)@, k@, text@, n@));
            },
            None => {
                self.entries.push(Entry { text, key: k, node: n });
                assert(self@ =~= set_node(old(self)@, k@, text@, n@));
            },
        }
    }

    /// Stores a file with `contents` at `path`, making the directories above it;
    /// `now` is the clock reading the file is stamped with.
    pub fn load_file(&mut self, path: &str, contents: Vec<u8>, now: web_time::SystemTime)
        requires
            old(self).wf(),
        ensures
            final(self).wf(),
            final(self)@ == load_file_spec(old(self)@, path@, contents@, now),
    {
        let p = components(path);
        match p.parent() {
            Some(par) => self.ensure_dirs(&par),
            None => {},
        }
        self.set_node(p, path.to_owned(), FsNode::File { contents, modified: now, readonly: false });
    }

    /// Follows symbolic links from `path`.
    fn resolve(&self, path: &str) -> (r: Result<VPath, IoError>)
        requires
            self.wf(),
        ensures
            result_view(r) == resolve_path(self@, path@),
    {
        let mut p = normalize(path);
        let mut depth: usize = 0;
        loop
            invariant
                self.wf(),
                depth <= link_limit() + 1,
                resolve_spec(self@, p@, depth as nat) == resolve_path(self@, path@),
            decreases link_limit() + 1 - depth,
        {
            if depth > 32 {
                return Err(IoError::new(ErrorKind::Other, "too many symlink levels"));
            }
            match self.find(&p) {
                None => {
                    return Ok(p);
                },
                Some(i) => {
                    assert(self@[i as int] == self.entries@[i as int]@);
                    match &self.entries[i].node {
                        FsNode::Symlink { target } => {
                            let base = match p.parent() {
                                Some(q) => q,
                                None => VPath::root(),
                            };
                            p = join_normalize(&base, target.as_str());
                            depth = depth + 1;
                        },
                        _ => {
                            return Ok(p);
                        },
                    }
                },
            }
        }
    }

    /// The contents of the file that `path` leads to.
    pub fn read(&self, path: &str) -> (r: Result<Vec<u8>, IoError>)
        requires
            self.wf(),
        ensures
            result_view(r) == read_spec(self@, path@),
    {
        let p = match self.resolve(path) {
            Ok(p) => p,
            Err(e) => return Err(e),
        };
        match self.find(&p) {
            Some(i) => {
                assert(self@[i as int] == self.entries@[i as int]@);
                match &self.entries[i].node {
                    FsNode::File { contents, .. } => Ok(copy_bytes(contents.as_slice())),
                    FsNode::Directory => Err(IoError::new(ErrorKind::InvalidInput, "Is a directory")),
                    _ => Err(error_with(ErrorKind::NotFound, "not found: ", p.display().as_str())),
                }
            },
            None => Err(error_with(ErrorKind::NotFound, "not found: ", p.display().as_str())),
        }
    }

    /// Writes `contents` as the file at `path`, making the directories above it.
    /// A read-only file is left as it is.
    pub fn write(&mut self, path: &str, contents: &[u8], now: web_time::SystemTime) -> (r: Result<
        (),
        IoError,
    >)
        requires
            old(self).wf(),
        ensures
            final(self).wf(),
            (final(self)@, result_view(r)) == write_spec(old(self)@, path@, contents@, now),
    {
        let p = normalize(path);
        match p.parent() {
            Some(par) => self.ensure_dirs(&par),
            None => {},
        }
        let ghost es1 = self@;
        match self.find(&p) {
            Some(i) => {
                assert(self@[i as int] == self.entries@[i as int]@);
                match &self.entries[i].node {
                    FsNode::File { readonly: true, .. } => {
                        let e = IoError::new(ErrorKind::PermissionDenied, "file is readonly");
                        assert((self@, result_view::<()>(Err(e))) == write_spec(
                            old(self)@,
                            path@,
                            contents@,
                            now,
                        ));
                        return Err(e);
                    },
                    _ => {},
                }
            },
            None => {},
        }
        let text = p.display();
        let bytes = copy_bytes(contents);
        self.set_node(p, text, FsNode::File { contents: bytes, modified: now, readonly: false });
        assert((self@, result_view::<()>(Ok(()))) == write_spec(old(self)@, path@, contents@, now));
        Ok(())
    }

    /// Metadata of what `path` leads to, links followed.
    pub fn metadata(&self, path: &str) -> (r: Result<Metadata, IoError>)
        requires
            self.wf(),
        ensures
            result_view(r) == metadata_spec(self@, path@),
    {
        let p = match self.resolve(path) {
            Ok(p) => p,
            Err(e) => return Err(e),
        };
        match self.find(&p) {
            Some(i) => {
                assert(self@[i as int] == self.entries@[i as int]@);
                match &self.entries[i].node {
                    FsNode::File { contents, modified, readonly } => Ok(
                        file_metadata(contents.len() as u64, *modified, *readonly),
                    ),
                    FsNode::Directory => Ok(directory_metadata()),
                    _ => Err(error_with(ErrorKind::NotFound, "not found: ", path)),
                }
            },
            None => Err(error_with(ErrorKind::NotFound, "not found: ", path)),
        }
    }

    /// Metadata of the node stored at `path` itself.
    pub fn symlink_metadata(&self, path: &str) -> (r: Result<Metadata, IoError>)
        requires
            self.wf(),
        ensures
            result_view(r) == symlink_metadata_spec(self@, path@),
    {
        let p = normalize(path);
        match self.find(&p) {
            Some(i) => {
                assert(self@[i as int] == self.entries@[i as int]@);
                match &self.entries[i].node {
                    FsNode::File { contents, modified, readonly } => Ok(
                        file_metadata(contents.len() as u64, *modified, *readonly),
                    ),
                    FsNode::Directory => Ok(directory_metadata()),
                    FsNode::Symlink { .. } => Ok(symlink_node_metadata()),
                }
            },
            None => Err(error_with(ErrorKind::NotFound, "not found: ", p.display().as_str())),
        }
    }

    /// Whether anything is stored at `path` itself.
    pub fn path_exists(&self, path: &str) -> (r: bool)
        requires
            self.wf(),
        ensures
            r == has_key(self@, normalize_spec(path@)),
    {
        let p = normalize(path);
        self.find(&p).is_some()
    }
}


fn file_metadata(len: u64, modified: web_time::SystemTime, readonly: bool) -> (m: Metadata)
    ensures
        m == file_meta(len as nat, modified, readonly),
{
    Metadata {
        len,
        file_type: FileType::File,
        readonly,
        modified: Some(modified),
        mode: if readonly {
            0o444
        } else {
            0o644
        },
        nlink: 1,
        gid: 0,
    }
}

fn directory_metadata() -> (m: Metadata)
    ensures
        m == dir_meta(),
{
    Metadata {
        len: 0,
        file_type: FileType::Directory,
        readonly: false,
        modified: None,
        mode: 0o755,
        nlink: 1,
        gid: 0,
    }
}

fn symlink_node_metadata() -> (m: Metadata)
    ensures
        m == link_meta(),
{
    Metadata {
        len: 0,
        file_type: FileType::Symlink,
        readonly: false,
        modified: None,
        mode: 0o777,
        nlink: 1,
        gid: 0,
    }
}


/// The message `String::from_utf8` gives for bytes that are not UTF-8; it
/// describes where the bytes go wrong.
pub uninterp spec fn utf8_error_message(bytes: Seq<u8>) -> Seq<char>;

/// Decodes UTF-8 text through `String::from_utf8`: the text when the bytes
/// are valid UTF-8, the decoder's error message otherwise.
#[verifier::external_body]
fn string_from_utf8(bytes: Vec<u8>) -> (r: Result<String, String>)
    ensures
        r is Ok <==> valid_utf8(bytes@),
        r matches Ok(s) ==> s@ == decode_utf8(bytes@),
        r matches Err(m) ==> m@ == utf8_error_message(bytes@),
{
    match String::from_utf8(bytes) {
        Ok(s) => Ok(s),
        Err(e) => Err(format!("{e}")),
    }
}

proof fn lemma_remove_at(es: Seq<EntryView>, i: int)
    requires
        keys_unique(es),
        0 <= i < es.len(),
    ensures
        keys_unique(es.remove(i)),
{
    let r = es.remove(i);
    assert forall|a: int, b: int|
        0 <= a < r.len() && 0 <= b < r.len() && a != b implies #[trigger] r[a].key
        != #[trigger] r[b].key by {
        let a1 = if a < i {
            a
        } else {
            a + 1
        };
        let b1 = if b < i {
            b
        } else {
            b + 1
        };
        assert(r[a] == es[a1]);
        assert(r[b] == es[b1]);
    }
}

impl InMemoryFs {
    /// The contents of the file that `path` leads to, as UTF-8 text.
    pub fn read_to_string(&self, path: &str) -> (r: Result<String, IoError>)
        requires
            self.wf(),
        ensures
            match read_spec(self@, path@) {
                Err(e) => result_view(r) == Err::<Seq<char>, ErrView>(e),
                Ok(c) => if valid_utf8(c) {
                    result_view(r) == Ok::<Seq<char>, ErrView>(decode_utf8(c))
                } else {
                    r matches Err(e) && e.is(ErrorKind::InvalidData, utf8_error_message(c))
                },
            },
    {
        let bytes = match self.read(path) {
            Ok(b) => b,
            Err(e) => return Err(e),
        };
        match string_from_utf8(bytes) {
            Ok(s) => Ok(s),
            Err(m) => Err(IoError { kind: ErrorKind::InvalidData, message: m }),
        }
    }

    /// Makes the directory at `path` and every directory above it.
    pub fn create_dir_all(&mut self, path: &str) -> (r: Result<(), IoError>)
        requires
            old(self).wf(),
        ensures
            final(self).wf(),
            final(self)@ == ensure_dirs_spec(old(self)@, normalize_spec(path@)),
            r is Ok,
    {
        let p = normalize(path);
        self.ensure_dirs(&p);
        Ok(())
    }

    /// Removes the entry at index `i`.
    fn remove_at(&mut self, i: usize) -> (e: Entry)
        requires
            old(self).wf(),
            i < old(self)@.len(),
        ensures
            final(self).wf(),
            final(self)@ == old(self)@.remove(i as int),
            e@ == old(self)@[i as int],
    {
        proof {
            lemma_remove_at(self@, i as int);
        }
        let e = self.entries.remove(i);
        assert(self@ =~= old(self)@.remove(i as int));
        e
    }

    /// Removes the file or link stored at `path`.
    pub fn remove_file(&mut self, path: &str) -> (r: Result<(), IoError>)
        requires
            old(self).wf(),
        ensures
            final(self).wf(),
            (final(self)@, result_view(r)) == remove_file_spec(old(self)@, path@),
    {
        let p = normalize(path);
        match self.find(&p) {
            Some(i) => {
                assert(self@[i as int] == self.entries@[i as int]@);
                match &self.entries[i].node {
                    FsNode::Directory => Err(IoError::new(ErrorKind::InvalidInput, "is a directory")),
                    _ => {
                        self.remove_at(i);
                        Ok(())
                    },
                }
            },
            None => Err(IoError::new(ErrorKind::NotFound, "file not found")),
        }
    }

    /// Whether something is stored directly inside `p`.
    fn any_child(&self, p: &VPath) -> (r: bool)
        ensures
            r == has_children(self@, p@),
    {
        let mut i: usize = 0;
        while i < self.entries.len()
            invariant
                0 <= i <= self.entries.len(),
                self@.len() == self.entries.len(),
                forall|j: int| 0 <= j < i ==> !is_child(#[trigger] self@[j].key, p@),
            decreases self.entries.len() - i,
        {
            assert(self@[i as int] == self.entries@[i as int]@);
            if self.entries[i].key.is_child_of(p) {
                assert(is_child(self@[i as int].key, p@));
                return true;
            }
            i = i + 1;
        }
        false
    }

    /// Removes the empty directory at `path`.
    pub fn remove_dir(&mut self, path: &str) -> (r: Result<(), IoError>)
        requires
            old(self).wf(),
        ensures
            final(self).wf(),
            (final(self)@, result_view(r)) == remove_dir_spec(old(self)@, path@),
    {
        let p = normalize(path);
        if self.any_child(&p) {
            return Err(IoError::new(ErrorKind::InvalidInput, "directory not empty"));
        }
        match self.find(&p) {
            Some(i) => {
                assert(self@[i as int] == self.entries@[i as int]@);
                match &self.entries[i].node {
                    FsNode::Directory => {
                        self.remove_at(i);
                        Ok(())
                    },
                    _ => Err(IoError::new(ErrorKind::InvalidInput, "not a directory")),
                }
            },
            None => Err(IoError::new(ErrorKind::NotFound, "directory not found")),
        }
    }

    /// Takes out every entry that lies under `p`, `p` included: the store
    /// keeps the others, and the taken entries come back in store order.
    fn take_under(&mut self, p: &VPath) -> (moved: Vec<Entry>)
        requires
            old(self).wf(),
        ensures
            final(self).wf(),
            final(self)@ == old(self)@.filter(outside(p@)),
            moved@.map_values(|e: Entry| e@) == old(self)@.filter(inside(p@)),
    {
        let mut moved: Vec<Entry> = Vec::new();
        let ghost all = self@;
        let ghost mut j: int = 0;
        let mut i: usize = 0;
        assert(all.take(0).filter(outside(p@)) =~= Seq::<EntryView>::empty()) by {
            reveal_with_fuel(Seq::<_>::filter, 1);
        }
        assert(all.take(0).filter(inside(p@)) =~= Seq::<EntryView>::empty()) by {
            reveal_with_fuel(Seq::<_>::filter, 1);
        }
        assert(moved@.map_values(|e: Entry| e@) =~= Seq::<EntryView>::empty());
        assert(self@.take(0) =~= Seq::<EntryView>::empty());
        assert(self@.skip(0) =~= all.skip(0));
        while i < self.entries.len()
            invariant
                self.wf(),
                0 <= i <= self@.len(),
                0 <= j <= all.len(),
                self@.len() == self.entries.len(),
                self@.take(i as int) == all.take(j).filter(outside(p@)),
                self@.skip(i as int) == all.skip(j),
                self@.len() - i == all.len() - j,
                moved@.map_values(|e: Entry| e@) == all.take(j).filter(inside(p@)),
            decreases self.entries.len() - i,
        {
            let ghost cur = self@;
            assert(cur[i as int] == all[j]) by {
                assert(cur.skip(i as int)[0] == all.skip(j)[0]);
            }
            assert(all.take(j + 1).drop_last() =~= all.take(j));
            assert(all.take(j + 1).last() == all[j]);
            reveal_with_fuel(Seq::<_>::filter, 1);
            assert(all.take(j + 1).filter(outside(p@)) == (if outside(p@)(all[j]) {
                all.take(j).filter(outside(p@)).push(all[j])
            } else {
                all.take(j).filter(outside(p@))
            }));
            assert(all.take(j + 1).filter(inside(p@)) == (if inside(p@)(all[j]) {
                all.take(j).filter(inside(p@)).push(all[j])
            } else {
                all.take(j).filter(inside(p@))
            }));
            assert(cur[i as int] == self.entries@[i as int]@);
            if self.entries[i].key.starts_with(p) {
                let e = self.remove_at(i);
                let ghost before_moved = moved@.map_values(|e: Entry| e@);
                moved.push(e);
                proof {
                    assert(moved@.map_values(|e: Entry| e@) =~= before_moved.push(e@));
                    assert(self@.take(i as int) =~= cur.take(i as int));
                    assert(self@.skip(i as int) =~= cur.skip(i + 1));
                    assert(cur.skip(i + 1) =~= cur.skip(i as int).skip(1));
                    assert(all.skip(j + 1) =~= all.skip(j).skip(1));
                    j = j + 1;
                }
            } else {
                proof {
                    assert(self@.take(i + 1) =~= cur.take(i as int).push(cur[i as int]));
                    assert(self@.skip(i + 1) =~= cur.skip(i as int).skip(1));
                    assert(all.skip(j + 1) =~= all.skip(j).skip(1));
                    j = j + 1;
                }
                i = i + 1;
            }
        }
        proof {
            assert(self@.skip(i as int).len() == 0);
            assert(j == all.len());
            assert(all.take(j) =~= all);
            assert(self@.take(i as int) =~= self@);
        }
        moved
    }

    /// Removes every entry that lies under `p`, `p` included.
    fn remove_under(&mut self, p: &VPath)
        requires
            old(self).wf(),
        ensures
            final(self).wf(),
            final(self)@ == old(self)@.filter(outside(p@)),
    {
        let _ = self.take_under(p);
    }

    /// Removes the directory at `path` and everything under it.
    pub fn remove_dir_all(&mut self, path: &str) -> (r: Result<(), IoError>)
        requires
            old(self).wf(),
        ensures
            final(self).wf(),
            (final(self)@, result_view(r)) == remove_dir_all_spec(old(self)@, path@),
    {
        let p = normalize(path);
        match self.find(&p) {
            Some(i) => {
                assert(self@[i as int] == self.entries@[i as int]@);
                match &self.entries[i].node {
                    FsNode::Directory => {
                        self.remove_under(&p);
                        Ok(())
                    },
                    _ => Err(IoError::new(ErrorKind::InvalidInput, "not a directory")),
                }
            },
            None => Err(IoError::new(ErrorKind::NotFound, "directory not found")),
        }
    }

    /// Moves the node stored at `from`, with everything under it, to `to`,
    /// replacing what was there.
    pub fn rename(&mut self, from: &str, to: &str) -> (r: Result<(), IoError>)
        requires
            old(self).wf(),
        ensures
            final(self).wf(),
            (final(self)@, result_view(r)) == rename_spec(old(self)@, from@, to@),
    {
        let f = normalize(from);
        let t = normalize(to);
        match self.find(&f) {
            Some(_) => {
                let mut moved = self.take_under(&f);
                let ghost base = self@;
                let ghost mv = moved@.map_values(|e: Entry| e@);
                let ghost n = mv.len();
                let mut i: usize = 0;
                assert(mv.take(0) =~= Seq::<EntryView>::empty());
                assert(mv.skip(0) =~= mv);
                let m0 = moved.len();
                assert(mv.len() == m0);
                while moved.len() > 0
                    invariant
                        self.wf(),
                        mv == old(self)@.filter(inside(f@)),
                        n == mv.len(),
                        i + moved@.len() == n,
                        n <= usize::MAX,
                        moved@.map_values(|e: Entry| e@) == mv.skip(i as int),
                        self@ == place_moved(base, mv.take(i as int), f@, t@),
                    decreases moved.len(),
                {
                    let ghost rest = moved@.map_values(|e: Entry| e@);
                    let ghost old_vec = moved@;
                    let e = moved.remove(0);
                    proof {
                        assert(rest[0] == e@);
                        assert(mv[i as int] == e@) by {
                            assert(mv.skip(i as int)[0] == mv[i as int]);
                        }
                        old(self)@.lemma_filter_pred(inside(f@), i as int);
                        assert(moved@ =~= old_vec.subrange(1, old_vec.len() as int));
                        assert(moved@.map_values(|e: Entry| e@) =~= rest.skip(1));
                        assert(rest.skip(1) =~= mv.skip(i + 1));
                        assert(mv.take(i + 1).drop_last() =~= mv.take(i as int));
                        assert(mv.take(i + 1).last() == e@);
                    }
                    let k = rekey_path(&e.key, &f, &t);
                    let text = k.display();
                    self.set_node(k, text, e.node);
                    i = i + 1;
                }
                assert(mv.take(n as int) =~= mv);
                Ok(())
            },
            None => Err(IoError::new(ErrorKind::NotFound, "source not found")),
        }
    }

    /// Copies the file that `from` leads to onto `to`, stamped with the clock
    /// reading `now`; the number of bytes copied.
    pub fn copy(&mut self, from: &str, to: &str, now: web_time::SystemTime) -> (r: Result<
        u64,
        IoError,
    >)
        requires
            old(self).wf(),
        ensures
            final(self).wf(),
            (final(self)@, result_view(r)) == copy_spec(old(self)@, from@, to@, now),
    {
        let t = now;
        let contents = match self.read(from) {
            Ok(c) => c,
            Err(e) => {
                assert((self@, result_view::<u64>(Err(e))) == copy_spec(old(self)@, from@, to@, t));
                return Err(e);
            },
        };
        let len = contents.len() as u64;
        let w = self.write(to, contents.as_slice(), now);
        match w {
            Ok(()) => {
                assert((self@, result_view::<u64>(Ok(len))) == copy_spec(old(self)@, from@, to@, t));
                Ok(len)
            },
            Err(e) => {
                assert((self@, result_view::<u64>(Err(e))) == copy_spec(old(self)@, from@, to@, t));
                Err(e)
            },
        }
    }

    /// The text of the path `path` leads to once links are followed.
    pub fn canonicalize(&self, path: &str) -> (r: Result<String, IoError>)
        requires
            self.wf(),
        ensures
            result_view(r) == canonicalize_spec(self@, path@),
    {
        match self.resolve(path) {
            Ok(p) => match self.find(&p) {
                Some(_) => Ok(p.display()),
                None => Err(error_with(ErrorKind::NotFound, "not found: ", p.display().as_str())),
            },
            Err(e) => Err(e),
        }
    }

    /// The target text of the link stored at `path`.
    pub fn read_link(&self, path: &str) -> (r: Result<String, IoError>)
        requires
            self.wf(),
        ensures
            result_view(r) == read_link_spec(self@, path@),
    {
        let p = normalize(path);
        match self.find(&p) {
            Some(i) => {
                assert(self@[i as int] == self.entries@[i as int]@);
                match &self.entries[i].node {
                    FsNode::Symlink { target } => Ok(clone_string(target)),
                    _ => Err(IoError::new(ErrorKind::InvalidInput, "not a symbolic link")),
                }
            },
            None => Err(IoError::new(ErrorKind::InvalidInput, "not a symbolic link")),
        }
    }

    /// Applies `perm` to the node at `path`: a file takes its read-only flag,
    /// other nodes are left as they are.
    pub fn set_permissions(&mut self, path: &str, perm: Permissions) -> (r: Result<(), IoError>)
        requires
            old(self).wf(),
        ensures
            final(self).wf(),
            (final(self)@, result_view(r)) == set_permissions_spec(
                old(self)@,
                path@,
                perm.readonly,
            ),
    {
        let p = normalize(path);
        match self.find(&p) {
            Some(i) => {
                assert(self@[i as int] == self.entries@[i as int]@);
                let node = match &self.entries[i].node {
                    FsNode::File { contents, modified, .. } => FsNode::File {
                        contents: copy_bytes(contents.as_slice()),
                        modified: *modified,
                        readonly: perm.readonly(),
                    },
                    _ => {
                        return Ok(());
                    },
                };
                let text = p.display();
                self.set_node(p, text, node);
                Ok(())
            },
            None => Err(IoError::new(ErrorKind::NotFound, "not found")),
        }
    }

    /// Lists the directory `path` leads to, ordered by path.
    pub fn read_dir(&self, path: &str) -> (r: Result<Vec<DirEntry>, IoError>)
        requires
            self.wf(),
        ensures
            match r {
                Ok(v) => read_dir_spec(self@, path@) == Ok::<Seq<DirEntryView>, ErrView>(
                    v@.map_values(|d: DirEntry| d@),
                ),
                Err(e) => read_dir_spec(self@, path@) == Err::<Seq<DirEntryView>, ErrView>(e@),
            },
    {
        let p = match self.resolve(path) {
            Ok(p) => p,
            Err(e) => return Err(e),
        };
        match self.find(&p) {
            Some(i) => {
                assert(self@[i as int] == self.entries@[i as int]@);
                match &self.entries[i].node {
                    FsNode::Directory => {},
                    _ => {
                        return Err(IoError::new(ErrorKind::InvalidInput, "not a directory"));
                    },
                }
            },
            None => {
                return Err(IoError::new(ErrorKind::NotFound, "directory not found"));
            },
        }
        let mut items: Vec<(String, DirEntry)> = Vec::new();
        let mut i: usize = 0;
        assert(self@.take(0) =~= Seq::<EntryView>::empty());
        while i < self.entries.len()
            invariant
                0 <= i <= self.entries.len(),
                self@.len() == self.entries.len(),
                named_view(items@) == children_of(self@.take(i as int), p@),
            decreases self.entries.len() - i,
        {
            let ghost before = named_view(items@);
            let e = &self.entries[i];
            assert(self@[i as int] == e@);
            assert(self@.take(i + 1).drop_last() =~= self@.take(i as int));
            assert(self@.take(i + 1).last() == e@);
            if e.key.is_child_of(&p) {
                let name = e.key.last_component();
                let file_name = match e.key.file_name() {
                    Some(n) => n,
                    None => String::new(),
                };
                let file_type = match &e.node {
                    FsNode::File { .. } => FileType::File,
                    FsNode::Directory => FileType::Directory,
                    FsNode::Symlink { .. } => FileType::Symlink,
                };
                let d = DirEntry { path: clone_string(&e.text), file_name, file_type };
                items.push((name, d));
                assert(named_view(items@) =~= before + seq![child_item(e@, p@).unwrap()]);
            } else {
                assert(named_view(items@) =~= before);
            }
            i = i + 1;
        }
        assert(self@.take(self.entries.len() as int) =~= self@);
        let after_fn = |a: &str, b: &str| -> (r: bool)
            ensures
                r == component_after_spec(a@, b@),
            { component_after(a, b) };
        let mut sorted = sort_by_name(items, &after_fn, Ghost(by_component()));
        let ghost sv = named_view(sorted@);
        let mut out: Vec<DirEntry> = Vec::new();
        let ghost mut k: int = 0;
        assert(sv.take(0).map_values(|x: (Seq<char>, DirEntryView)| x.1) =~= Seq::<
            DirEntryView,
        >::empty());
        while sorted.len() > 0
            invariant
                0 <= k <= sv.len(),
                named_view(sorted@) == sv.skip(k),
                sorted@.len() + k == sv.len(),
                out@.map_values(|d: DirEntry| d@) == sv.take(k).map_values(
                    |x: (Seq<char>, DirEntryView)| x.1,
                ),
            decreases sorted.len(),
        {
            let ghost rest = sorted@;
            let item = sorted.remove(0);
            let d = item.1;
            proof {
                assert(named_view(rest)[0] == sv[k]);
                assert(named_view(rest)[0].1 == d@);
                assert(named_view(sorted@) =~= named_view(rest).skip(1));
                assert(sv.skip(k + 1) =~= sv.skip(k).skip(1));
            }
            let ghost prev = out@.map_values(|d: DirEntry| d@);
            out.push(d);
            proof {
                assert(out@.map_values(|d: DirEntry| d@) =~= prev.push(sv[k].1));
                assert(sv.take(k + 1) =~= sv.take(k).push(sv[k]));
                assert(out@.map_values(|d: DirEntry| d@) =~= sv.take(k + 1).map_values(
                    |x: (Seq<char>, DirEntryView)| x.1,
                ));
                k = k + 1;
            }
        }
        proof {
            assert(sv.skip(k).len() == 0);
            assert(sv.take(k) =~= sv);
        }
        Ok(out)
    }
}


/// The text of the file that greets a new user.
pub open spec fn welcome_text() -> Seq<char> {
    "# Welcome to Helix (WASM)\n\nThis is helix running in your browser.\n\nUse `:open <path>` or the file picker (`Space f`) to browse files.\nCreate new files with `:write <path>` (`:w path/to/file.txt`).\n\nThe virtual filesystem lives entirely in memory - files are lost on page refresh.\n"@
}

/// The store after the start-up layout is loaded, the clock reading `t` when
/// the welcome file is written.
pub open spec fn bootstrap_spec(es: Seq<EntryView>, t: web_time::SystemTime) -> Seq<EntryView> {
    let es1 = ensure_dirs_spec(es, components_spec("/home/user/.helix"@));
    let es2 = ensure_dirs_spec(es1, components_spec("/home/user"@));
    let es3 = ensure_dirs_spec(es2, components_spec("/tmp"@));
    let es4 = ensure_dirs_spec(es3, components_spec("/helix/config"@));
    let es5 = ensure_dirs_spec(es4, components_spec("/helix/cache"@));
    let es6 = ensure_dirs_spec(es5, components_spec("/helix/data"@));
    let es7 = load_file_spec(es6, "/home/user/welcome.md"@, encode_utf8(welcome_text()), t);
    ensure_dirs_spec(es7, components_spec("/helix/runtime"@))
}

impl InMemoryFs {
    /// Loads the layout the editor expects at start-up: the user's home and
    /// workspace marker, a scratch directory, the editor's configuration,
    /// cache, data and runtime directories, and a welcome file stamped with
    /// the clock reading `now`.
    pub fn bootstrap(&mut self, now: web_time::SystemTime) -> (r: Result<(), IoError>)
        requires
            old(self).wf(),
        ensures
            final(self).wf(),
            final(self)@ == bootstrap_spec(old(self)@, now),
            r is Ok,
    {
        self.load_dir("/home/user/.helix");
        self.load_dir("/home/user");
        self.load_dir("/tmp");
        self.load_dir("/helix/config");
        self.load_dir("/helix/cache");
        self.load_dir("/helix/data");
        let ghost es6 = self@;
        let text: &str = "# Welcome to Helix (WASM)\n\nThis is helix running in your browser.\n\nUse `:open <path>` or the file picker (`Space f`) to browse files.\nCreate new files with `:write <path>` (`:w path/to/file.txt`).\n\nThe virtual filesystem lives entirely in memory - files are lost on page refresh.\n";
        let bytes = copy_bytes(text.as_bytes());
        self.load_file("/home/user/welcome.md", bytes, now);
        self.load_dir("/helix/runtime");
        assert(self@ == bootstrap_spec(old(self)@, now));
        Ok(())
    }
}


// ── Walking the tree ────────────────────────────────────────────────────────

/// What a walk needs to know of a node.
pub enum KindView {
    File,
    Directory,
    Symlink { target: Seq<char> },
}

/// A child a walk visits: its text, its path and its kind.
pub struct ChildView {
    pub text: Seq<char>,
    pub key: PathView,
    pub kind: KindView,
}

pub open spec fn kind_of(n: NodeView) -> KindView {
    match n {
        NodeView::File { .. } => KindView::File,
        NodeView::Directory => KindView::Directory,
        NodeView::Symlink { target } => KindView::Symlink { target },
    }
}

pub open spec fn name_or_empty(k: PathView) -> Seq<char> {
    match file_name_spec(k) {
        Some(n) => n,
        None => seq![],
    }
}

pub open spec fn walk_child(e: EntryView, dir: PathView) -> Option<(Seq<char>, ChildView)> {
    if is_child(e.key, dir) {
        Some((name_or_empty(e.key), ChildView { text: e.text, key: e.key, kind: kind_of(e.node) }))
    } else {
        None
    }
}

pub open spec fn walk_items(es: Seq<EntryView>, dir: PathView) -> Seq<(Seq<char>, ChildView)> {
    es.filter_map(|e: EntryView| walk_child(e, dir))
}

/// The children of `dir` in store order, or sorted by file name when an
/// order is given.
pub open spec fn walk_children(es: Seq<EntryView>, dir: PathView, after: Option<NameOrder>) -> Seq<
    ChildView,
> {
    let items = walk_items(es, dir);
    let ordered = match after {
        Some(ord) => sort_spec(items, ord),
        None => items,
    };
    ordered.map_values(|x: (Seq<char>, ChildView)| x.1)
}

/// What a walk consults of its configuration.
pub struct WalkRules {
    pub hidden: bool,
    pub follow_links: bool,
    pub max_depth: Option<usize>,
    pub after: Option<NameOrder>,
    pub keep: Option<spec_fn(WalkEntryView) -> bool>,
}

pub open spec fn rules_of<S: Fn(&str, &str) -> bool, F: Fn(&WalkEntry) -> bool>(
    c: WalkConfig<S, F>,
) -> WalkRules {
    WalkRules {
        hidden: c.hidden,
        follow_links: c.follow_links,
        max_depth: c.max_depth,
        after: c.sort_rule(),
        keep: c.filter_rule(),
    }
}

/// A name that starts with a dot.
pub open spec fn is_hidden(k: PathView) -> bool {
    match file_name_spec(k) {
        Some(n) => n.len() > 0 && n[0] == '.',
        None => false,
    }
}

/// Where a link with text `target` inside `dir` points, seen from a walk.
pub open spec fn walk_link_target(dir: PathView, target: Seq<char>) -> PathView {
    join_normalize_spec(normalize_key(dir), target)
}

/// The type a walk reports for a child, and whether the child is a link.
pub open spec fn child_type(es: Seq<EntryView>, dir: PathView, c: ChildView, follow: bool) -> (
    FileType,
    bool,
) {
    match c.kind {
        KindView::File => (FileType::File, false),
        KindView::Directory => (FileType::Directory, false),
        KindView::Symlink { target } => (
            if follow {
                match lookup(es, walk_link_target(dir, target)) {
                    Some(NodeView::Directory) => FileType::Directory,
                    Some(NodeView::File { .. }) => FileType::File,
                    _ => FileType::Symlink,
                }
            } else {
                FileType::Symlink
            },
            true,
        ),
    }
}

pub open spec fn kept(rules: WalkRules, e: WalkEntryView) -> bool {
    match rules.keep {
        Some(keep) => keep(e),
        None => true,
    }
}

/// The longest path in the store, counted in components.
pub open spec fn max_key_len(es: Seq<EntryView>) -> nat
    decreases es.len(),
{
    if es.len() == 0 {
        0
    } else {
        let m = max_key_len(es.drop_last());
        if es.last().key.comps.len() > m {
            es.last().key.comps.len()
        } else {
            m
        }
    }
}

/// A walk of the directory `dir` printed as `text`, reached at `depth`.
pub open spec fn walk_dir_spec(
    es: Seq<EntryView>,
    dir: PathView,
    text: Seq<char>,
    depth: nat,
    rules: WalkRules,
) -> Seq<WalkEntryView>
    decreases max_key_len(es) - dir.comps.len(), 1int, 0int,
{
    let entry = WalkEntryView {
        path: text,
        file_type: FileType::Directory,
        depth,
        is_symlink: lookup(es, dir) matches Some(NodeView::Symlink { .. }),
    };
    if rules.max_depth matches Some(m) && depth >= m {
        seq![entry]
    } else {
        seq![entry] + walk_items_spec(es, dir, walk_children(es, dir, rules.after), depth, rules)
    }
}

/// The entries a walk yields for the children `cs` of `dir`.
pub open spec fn walk_items_spec(
    es: Seq<EntryView>,
    dir: PathView,
    cs: Seq<ChildView>,
    depth: nat,
    rules: WalkRules,
) -> Seq<WalkEntryView>
    decreases max_key_len(es) - dir.comps.len(), 0int, cs.len(),
{
    if cs.len() == 0 {
        seq![]
    } else {
        let before = walk_items_spec(es, dir, cs.drop_last(), depth, rules);
        let c = cs.last();
        if rules.hidden && is_hidden(c.key) {
            before
        } else {
            let (ft, sym) = child_type(es, dir, c, rules.follow_links);
            let e = WalkEntryView { path: c.text, file_type: ft, depth: depth + 1, is_symlink: sym };
            if !kept(rules, e) {
                before
            } else if ft == FileType::Directory {
                if c.key.comps.len() == dir.comps.len() + 1 && c.key.comps.len() <= max_key_len(
                    es,
                ) {
                    before + walk_dir_spec(es, c.key, c.text, depth + 1, rules)
                } else {
                    before
                }
            } else {
                before.push(e)
            }
        }
    }
}

/// A walk from the path text `root`.
pub open spec fn walk_spec(es: Seq<EntryView>, root: Seq<char>, rules: WalkRules) -> Seq<
    WalkEntryView,
> {
    let r = normalize_spec(root);
    match lookup(es, r) {
        None => seq![],
        Some(NodeView::File { .. }) => seq![
            WalkEntryView {
                path: display_spec(r),
                file_type: FileType::File,
                depth: 0,
                is_symlink: false,
            },
        ],
        Some(NodeView::Symlink { .. }) => seq![
            WalkEntryView {
                path: display_spec(r),
                file_type: FileType::Symlink,
                depth: 0,
                is_symlink: true,
            },
        ],
        Some(NodeView::Directory) => walk_dir_spec(es, r, display_spec(r), 0, rules),
    }
}

pub proof fn lemma_max_key_len(es: Seq<EntryView>, i: int)
    requires
        0 <= i < es.len(),
    ensures
        es[i].key.comps.len() <= max_key_len(es),
    decreases es.len(),
{
    if i < es.len() - 1 {
        lemma_max_key_len(es.drop_last(), i);
    }
}

proof fn lemma_filter_map_from<A, B>(s: Seq<A>, f: spec_fn(A) -> Option<B>, k: int)
    requires
        0 <= k < s.filter_map(f).len(),
    ensures
        exists|i: int| 0 <= i < s.len() && f(s[i]) == Some(s.filter_map(f)[k]),
    decreases s.len(),
{
    if s.len() > 0 {
        let rest = s.drop_last();
        if k < rest.filter_map(f).len() {
            lemma_filter_map_from(rest, f, k);
            let i = choose|i: int| 0 <= i < rest.len() && f(rest[i]) == Some(rest.filter_map(f)[k]);
            assert(s[i] == rest[i]);
            match f(s.last()) {
                Some(b) => assert(s.filter_map(f)[k] == rest.filter_map(f)[k]),
                None => {},
            }
        } else {
            assert(f(s[s.len() - 1]) == Some(s.filter_map(f)[k]));
        }
    }
}

/// Every child a walk visits sits directly inside `dir` and is a stored path.
proof fn lemma_walk_children(es: Seq<EntryView>, dir: PathView, after: Option<NameOrder>, k: int)
    requires
        0 <= k < walk_children(es, dir, after).len(),
    ensures
        walk_children(es, dir, after)[k].key.comps.len() == dir.comps.len() + 1,
        walk_children(es, dir, after)[k].key.comps.len() <= max_key_len(es),
{
    let items = walk_items(es, dir);
    let f = |e: EntryView| walk_child(e, dir);
    let ordered = match after {
        Some(ord) => sort_spec(items, ord),
        None => items,
    };
    let y = ordered[k];
    let m: int = match after {
        Some(ord) => {
            assert(ordered.contains(y));
            lemma_sort_contains(items, ord, y);
            choose|m: int| 0 <= m < items.len() && items[m] == y
        },
        None => k,
    };
    lemma_filter_map_from(es, f, m);
    let i = choose|i: int| 0 <= i < es.len() && f(es[i]) == Some(items[m]);
    lemma_max_key_len(es, i);
}

/// Every child a walk visits is stored, and visited with the kind it is
/// stored as.
pub proof fn lemma_walk_child_kind(
    es: Seq<EntryView>,
    dir: PathView,
    after: Option<NameOrder>,
    k: int,
)
    requires
        keys_unique(es),
        0 <= k < walk_children(es, dir, after).len(),
    ensures
        lookup(es, walk_children(es, dir, after)[k].key) matches Some(n) && kind_of(n)
            == walk_children(es, dir, after)[k].kind,
        exists|j: int|
            0 <= j < es.len() && (#[trigger] es[j]).key == walk_children(es, dir, after)[k].key
                && es[j].text == walk_children(es, dir, after)[k].text,
{
    let items = walk_items(es, dir);
    let f = |e: EntryView| walk_child(e, dir);
    let ordered = match after {
        Some(ord) => sort_spec(items, ord),
        None => items,
    };
    let y = ordered[k];
    let m: int = match after {
        Some(ord) => {
            assert(ordered.contains(y));
            lemma_sort_contains(items, ord, y);
            choose|m: int| 0 <= m < items.len() && items[m] == y
        },
        None => k,
    };
    lemma_filter_map_from(es, f, m);
    let i = choose|i: int| 0 <= i < es.len() && f(es[i]) == Some(items[m]);
    lemma_lookup_at(es, i);
}

/// A child of a directory, as a walk holds it.
pub enum ChildKind {
    File,
    Directory,
    Symlink { target: String },
}

pub struct WalkChild {
    pub text: String,
    pub key: VPath,
    pub kind: ChildKind,
}

impl View for WalkChild {
    type V = ChildView;

    open spec fn view(&self) -> ChildView {
        ChildView {
            text: self.text@,
            key: self.key@,
            kind: match &self.kind {
                ChildKind::File => KindView::File,
                ChildKind::Directory => KindView::Directory,
                ChildKind::Symlink { target } => KindView::Symlink { target: target@ },
            },
        }
    }
}

fn hidden_name(k: &VPath) -> (r: bool)
    ensures
        r == is_hidden(k@),
{
    match k.file_name() {
        Some(n) => {
            let s = n.as_str();
            s.unicode_len() > 0 && s.get_char(0) == '.'
        },
        None => false,
    }
}

impl InMemoryFs {
    /// The children of `dir`, named by file name, in store order.
    fn collect_children(&self, dir: &VPath) -> (r: Vec<(String, WalkChild)>)
        ensures
            named_view(r@) == walk_items(self@, dir@),
    {
        let mut items: Vec<(String, WalkChild)> = Vec::new();
        let mut i: usize = 0;
        assert(self@.take(0) =~= Seq::<EntryView>::empty());
        while i < self.entries.len()
            invariant
                0 <= i <= self.entries.len(),
                self@.len() == self.entries.len(),
                named_view(items@) == walk_items(self@.take(i as int), dir@),
            decreases self.entries.len() - i,
        {
            let ghost before = named_view(items@);
            let e = &self.entries[i];
            assert(self@[i as int] == e@);
            assert(self@.take(i + 1).drop_last() =~= self@.take(i as int));
            assert(self@.take(i + 1).last() == e@);
            if e.key.is_child_of(dir) {
                let name = match e.key.file_name() {
                    Some(n) => n,
                    None => String::new(),
                };
                let kind = match &e.node {
                    FsNode::File { .. } => ChildKind::File,
                    FsNode::Directory => ChildKind::Directory,
                    FsNode::Symlink { target } => ChildKind::Symlink { target: clone_string(target) },
                };
                let c = WalkChild { text: clone_string(&e.text), key: e.key.duplicate(), kind };
                items.push((name, c));
                assert(named_view(items@) =~= before + seq![walk_child(e@, dir@).unwrap()]);
            } else {
                assert(named_view(items@) =~= before);
            }
            i = i + 1;
        }
        assert(self@.take(self.entries.len() as int) =~= self@);
        items
    }

    /// The type a walk reports for `c`, a child of `dir`, and whether it is a link.
    fn child_type(&self, dir: &VPath, c: &WalkChild, follow: bool) -> (r: (FileType, bool))
        requires
            self.wf(),
        ensures
            r == child_type(self@, dir@, c@, follow),
    {
        match &c.kind {
            ChildKind::File => (FileType::File, false),
            ChildKind::Directory => (FileType::Directory, false),
            ChildKind::Symlink { target } => {
                if follow {
                    let base = dir.normalized();
                    let resolved = join_normalize(&base, target.as_str());
                    let ft = match self.find(&resolved) {
                        Some(i) => {
                            assert(self@[i as int] == self.entries@[i as int]@);
                            match &self.entries[i].node {
                                FsNode::Directory => FileType::Directory,
                                FsNode::File { .. } => FileType::File,
                                _ => FileType::Symlink,
                            }
                        },
                        None => FileType::Symlink,
                    };
                    (ft, true)
                } else {
                    (FileType::Symlink, true)
                }
            },
        }
    }

    /// Walks the directory `dir`, printed as `text` and reached at `depth`,
    /// appending what it yields to `out`.
    #[verifier::rlimit(40)]
    fn walk_dir<S: Fn(&str, &str) -> bool, F: Fn(&WalkEntry) -> bool>(
        &self,
        dir: &VPath,
        text: String,
        depth: usize,
        config: &WalkConfig<S, F>,
        out: &mut Vec<WalkEntry>,
    )
        requires
            self.wf(),
            config.functions_ok(),
            dir@.comps.len() <= max_key_len(self@),
            depth <= dir@.comps.len(),
        ensures
            final(out)@.map_values(|e: WalkEntry| e@) == old(out)@.map_values(|e: WalkEntry| e@)
                + walk_dir_spec(self@, dir@, text@, depth as nat, rules_of(*config)),
        decreases max_key_len(self@) - dir@.comps.len(), 1int, 0int,
    {
        let ghost rules = rules_of(*config);
        let ghost start = old(out)@.map_values(|e: WalkEntry| e@);
        let is_sym = match self.find(dir) {
            Some(i) => {
                assert(self@[i as int] == self.entries@[i as int]@);
                match &self.entries[i].node {
                    FsNode::Symlink { .. } => true,
                    _ => false,
                }
            },
            None => false,
        };
        let ghost top = WalkEntryView {
            path: text@,
            file_type: FileType::Directory,
            depth: depth as nat,
            is_symlink: is_sym,
        };
        out.push(WalkEntry::new(text, FileType::Directory, depth, is_sym));
        assert(out@.map_values(|e: WalkEntry| e@) =~= start.push(top));
        match config.max_depth {
            Some(m) => {
                if depth >= m {
                    assert(start.push(top) =~= start + seq![top]);
                    return ;
                }
            },
            None => {},
        }
        let items = self.collect_children(dir);
        let mut sorted = match &config.sort_by_file_name {
            Some(s) => {
                let ghost ord = choose|ord: NameOrder| computes(*s, ord);
                sort_by_name(items, s, Ghost(ord))
            },
            None => items,
        };
        let ghost cs = walk_children(self@, dir@, rules.after);
        assert(named_view(sorted@).map_values(|x: (Seq<char>, ChildView)| x.1) =~= cs);
        let ghost mut k: int = 0;
        assert(cs.take(0) =~= Seq::<ChildView>::empty());
        assert(start.push(top) =~= start + seq![top] + walk_items_spec(
            self@,
            dir@,
            cs.take(0),
            depth as nat,
            rules,
        ));
        while sorted.len() > 0
            invariant
                self.wf(),
                config.functions_ok(),
                rules == rules_of(*config),
                cs == walk_children(self@, dir@, rules.after),
                dir@.comps.len() <= max_key_len(self@),
                depth <= dir@.comps.len(),
                0 <= k <= cs.len(),
                sorted@.len() + k == cs.len(),
                forall|j: int|
                    0 <= j < sorted@.len() ==> #[trigger] sorted@[j].1@ == cs[k + j],
                out@.map_values(|e: WalkEntry| e@) == start + seq![top] + walk_items_spec(
                    self@,
                    dir@,
                    cs.take(k),
                    depth as nat,
                    rules,
                ),
            decreases sorted.len(),
        {
            let ghost prev_sorted = sorted@;
            let item = sorted.remove(0);
            let c = item.1;
            assert(c@ == cs[k]);
            proof {
                assert forall|j: int| 0 <= j < sorted@.len() implies #[trigger] sorted@[j].1@ == cs[k
                    + 1 + j] by {
                    assert(sorted@[j] == prev_sorted[j + 1]);
                }
                lemma_walk_children(self@, dir@, rules.after, k);
                assert(cs.take(k + 1).drop_last() =~= cs.take(k));
                assert(cs.take(k + 1).last() == cs[k]);
                assert(c.key.comps@.len() == c@.key.comps.len());
            }
            let ghost before = out@.map_values(|e: WalkEntry| e@);
            let child_len = c.key.comps.len();
            assert(depth + 1 <= child_len);
            if config.hidden && hidden_name(&c.key) {
            } else {
                let (ft, sym) = self.child_type(dir, &c, config.follow_links);
                let entry = WalkEntry::new(clone_string(&c.text), ft, depth + 1, sym);
                let keep = match &config.filter {
                    Some(f) => {
                        let ghost keep_rule = choose|keep: spec_fn(WalkEntryView) -> bool|
                            decides(*f, keep);
                        let r = f(&entry);
                        assert(r == keep_rule(entry@));
                        r
                    },
                    None => true,
                };
                if keep {
                    if ft == FileType::Directory {
                        self.walk_dir(&c.key, c.text, depth + 1, config, out);
                    } else {
                        out.push(entry);
                        assert(out@.map_values(|e: WalkEntry| e@) =~= before.push(entry@));
                    }
                }
            }
            proof {
                k = k + 1;
            }
        }
        assert(cs.take(k) =~= cs);
    }

    /// Walks the tree from `root`: a file or link yields itself, a directory
    /// yields itself and, depth first, what lies under it.
    pub fn walk<S: Fn(&str, &str) -> bool, F: Fn(&WalkEntry) -> bool>(
        &self,
        root: &str,
        config: &WalkConfig<S, F>,
    ) -> (r: Walk)
        requires
            self.wf(),
            config.functions_ok(),
        ensures
            r.remaining() == walk_spec(self@, root@, rules_of(*config)).map_values(
                |e: WalkEntryView| Ok::<WalkEntryView, ErrView>(e),
            ),
    {
        let r = normalize(root);
        let mut out: Vec<WalkEntry> = Vec::new();
        match self.find(&r) {
            None => {},
            Some(i) => {
                assert(self@[i as int] == self.entries@[i as int]@);
                proof {
                    lemma_max_key_len(self@, i as int);
                }
                match &self.entries[i].node {
                    FsNode::File { .. } => {
                        out.push(WalkEntry::new(r.display(), FileType::File, 0, false));
                    },
                    FsNode::Symlink { .. } => {
                        out.push(WalkEntry::new(r.display(), FileType::Symlink, 0, true));
                    },
                    FsNode::Directory => {
                        let text = r.display();
                        self.walk_dir(&r, text, 0, config, &mut out);
                    },
                }
            },
        }
        let ghost ev = out@.map_values(|e: WalkEntry| e@);
        assert(ev =~= walk_spec(self@, root@, rules_of(*config)));
        let mut items: Vec<Result<WalkEntry, IoError>> = Vec::new();
        let ghost mut k: int = 0;
        while out.len() > 0
            invariant
                0 <= k <= ev.len(),
                out@.len() + k == ev.len(),
                forall|j: int| 0 <= j < out@.len() ==> #[trigger] out@[j]@ == ev[k + j],
                items@.map_values(|x: Result<WalkEntry, IoError>| result_view(x)) == ev.take(
                    k,
                ).map_values(|e: WalkEntryView| Ok::<WalkEntryView, ErrView>(e)),
            decreases out.len(),
        {
            let ghost prev = out@;
            let e = out.remove(0);
            proof {
                assert(e@ == ev[k]);
                assert forall|j: int| 0 <= j < out@.len() implies #[trigger] out@[j]@ == ev[k + 1
                    + j] by {
                    assert(out@[j] == prev[j + 1]);
                }
            }
            let ghost before = items@.map_values(|x: Result<WalkEntry, IoError>| result_view(x));
            items.push(Ok(e));
            proof {
                assert(items@.map_values(|x: Result<WalkEntry, IoError>| result_view(x)) =~= before.push(
                    Ok(ev[k]),
                ));
                assert(ev.take(k + 1) =~= ev.take(k).push(ev[k]));
                k = k + 1;
            }
        }
        assert(ev.take(k) =~= ev);
        Walk::new(items)
    }
}


// ── Copying a host directory in ─────────────────────────────────────────────

/// One node read from the host filesystem while copying a directory in.
pub enum MirrorItem {
    Dir { path: String },
    File { path: String, contents: Vec<u8> },
}

pub enum MirrorItemView {
    Dir { path: Seq<char> },
    File { path: Seq<char>, contents: Seq<u8> },
}

impl View for MirrorItem {
    type V = MirrorItemView;

    open spec fn view(&self) -> MirrorItemView {
        match self {
            MirrorItem::Dir { path } => MirrorItemView::Dir { path: path@ },
            MirrorItem::File { path, contents } => MirrorItemView::File {
                path: path@,
                contents: contents@,
            },
        }
    }
}

pub open spec fn mirror_views(items: Seq<MirrorItem>) -> Seq<MirrorItemView> {
    items.map_values(|m: MirrorItem| m@)
}

/// The store after loading the items, in order, files stamped with the
/// clock reading `now`.
pub open spec fn mirror_items_spec(
    es: Seq<EntryView>,
    items: Seq<MirrorItemView>,
    now: web_time::SystemTime,
) -> Seq<EntryView>
    decreases items.len(),
{
    if items.len() == 0 {
        es
    } else {
        let prev = mirror_items_spec(es, items.drop_last(), now);
        match items.last() {
            MirrorItemView::Dir { path } => ensure_dirs_spec(prev, components_spec(path)),
            MirrorItemView::File { path, contents } => load_file_spec(prev, path, contents, now),
        }
    }
}

impl InMemoryFs {
    /// Copies a directory read from the host into the store under the same
    /// paths: `root` itself, then each item in the order it was read; files
    /// are stamped with the clock reading `now`.
    pub fn mirror_from_real_fs(&mut self, root: &str, items: &Vec<MirrorItem>, now: web_time::SystemTime)
        requires
            old(self).wf(),
        ensures
            final(self).wf(),
            final(self)@ == mirror_items_spec(
                ensure_dirs_spec(old(self)@, components_spec(root@)),
                mirror_views(items@),
                now,
            ),
    {
        self.load_dir(root);
        let ghost es0 = self@;
        let ghost all = mirror_views(items@);
        let mut k: usize = 0;
        assert(all.take(0) =~= Seq::<MirrorItemView>::empty());
        while k < items.len()
            invariant
                self.wf(),
                0 <= k <= all.len(),
                all == mirror_views(items@),
                self@ == mirror_items_spec(es0, all.take(k as int), now),
            decreases items.len() - k,
        {
            proof {
                assert(items@[k as int]@ == all[k as int]);
                assert(all.take(k + 1).drop_last() =~= all.take(k as int));
                assert(all.take(k + 1).last() == all[k as int]);
            }
            match &items[k] {
                MirrorItem::Dir { path } => {
                    self.load_dir(path.as_str());
                },
                MirrorItem::File { path, contents } => {
                    self.load_file(path.as_str(), copy_bytes(contents.as_slice()), now);
                },
            }
            k = k + 1;
        }
        assert(all.take(k as int) =~= all);
    }
}

/// A host directory read for copying in: its path and what lies under it.
pub struct MirrorTree {
    pub root: String,
    pub items: Vec<MirrorItem>,
}

pub struct MirrorTreeView {
    pub root: Seq<char>,
    pub items: Seq<MirrorItemView>,
}

impl View for MirrorTree {
    type V = MirrorTreeView;

    open spec fn view(&self) -> MirrorTreeView {
        MirrorTreeView { root: self.root@, items: mirror_views(self.items@) }
    }
}

pub open spec fn tree_views(trees: Seq<MirrorTree>) -> Seq<MirrorTreeView> {
    trees.map_values(|t: MirrorTree| t@)
}

/// The store after copying in each tree, in order, files stamped with the
/// clock reading `now`.
pub open spec fn mirror_trees_spec(
    es: Seq<EntryView>,
    trees: Seq<MirrorTreeView>,
    now: web_time::SystemTime,
) -> Seq<EntryView>
    decreases trees.len(),
{
    if trees.len() == 0 {
        es
    } else {
        let prev = mirror_trees_spec(es, trees.drop_last(), now);
        let t = trees.last();
        mirror_items_spec(ensure_dirs_spec(prev, components_spec(t.root)), t.items, now)
    }
}

impl InMemoryFs {
    /// Copies in each host tree, in order.
    pub fn mirror_trees(&mut self, trees: &Vec<MirrorTree>, now: web_time::SystemTime)
        requires
            old(self).wf(),
        ensures
            final(self).wf(),
            final(self)@ == mirror_trees_spec(old(self)@, tree_views(trees@), now),
    {
        let ghost all = tree_views(trees@);
        let mut k: usize = 0;
        assert(all.take(0) =~= Seq::<MirrorTreeView>::empty());
        while k < trees.len()
            invariant
                self.wf(),
                0 <= k <= all.len(),
                all == tree_views(trees@),
                self@ == mirror_trees_spec(old(self)@, all.take(k as int), now),
            decreases trees.len() - k,
        {
            proof {
                assert(trees@[k as int]@ == all[k as int]);
                assert(all.take(k + 1).drop_last() =~= all.take(k as int));
                assert(all.take(k + 1).last() == all[k as int]);
            }
            let tree = &trees[k];
            self.mirror_from_real_fs(tree.root.as_str(), &tree.items, now);
            k = k + 1;
        }
        assert(all.take(k as int) =~= all);
    }
}

} // verus!
