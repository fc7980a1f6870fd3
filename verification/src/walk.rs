//! Directory walks: the entries a walk yields, its configuration, and the
//! sequence of results a driver hands back.

use vstd::prelude::*;

use crate::path::{components, components_spec, file_name_spec};
use crate::sort::{computes, NameOrder};
use crate::types::{FileType, IoError, ErrView, result_view};

verus! {

/// The value of a [`WalkEntry`].
pub struct WalkEntryView {
    pub path: Seq<char>,
    pub file_type: FileType,
    pub depth: nat,
    pub is_symlink: bool,
}

/// An entry produced by walking a directory tree.
#[derive(Debug)]
pub struct WalkEntry {
    path: String,
    file_type: FileType,
    depth: usize,
    is_symlink: bool,
}

impl View for WalkEntry {
    type V = WalkEntryView;

    closed spec fn view(&self) -> WalkEntryView {
        WalkEntryView {
            path: self.path@,
            file_type: self.file_type,
            depth: self.depth as nat,
            is_symlink: self.is_symlink,
        }
    }
}

impl WalkEntry {
    pub fn new(path: String, file_type: FileType, depth: usize, is_symlink: bool) -> (r: WalkEntry)
        ensures
            r@ == (WalkEntryView { path: path@, file_type, depth: depth as nat, is_symlink }),
    {
        WalkEntry { path, file_type, depth, is_symlink }
    }

    pub fn path(&self) -> (r: &str)
        ensures
            r@ == self@.path,
    {
        self.path.as_str()
    }

    pub fn into_path(self) -> (r: String)
        ensures
            r@ == self@.path,
    {
        self.path
    }

    /// The last component of the path when it is an ordinary name, else empty.
    pub fn file_name(&self) -> (r: String)
        ensures
            r@ == (match file_name_spec(components_spec(self@.path)) {
                Some(n) => n,
                None => Seq::<char>::empty(),
            }),
    {
        match components(self.path.as_str()).file_name() {
            Some(n) => n,
            None => String::new(),
        }
    }

    pub fn file_type(&self) -> (r: FileType)
        ensures
            r == self@.file_type,
    {
        self.file_type
    }

    pub fn depth(&self) -> (r: usize)
        ensures
            r == self@.depth,
    {
        self.depth
    }

    pub fn path_is_symlink(&self) -> (r: bool)
        ensures
            r == self@.is_symlink,
    {
        self.is_symlink
    }

    pub fn is_file(&self) -> (r: bool)
        ensures
            r == (self@.file_type == FileType::File),
    {
        self.file_type.is_file()
    }

    pub fn is_dir(&self) -> (r: bool)
        ensures
            r == (self@.file_type == FileType::Directory),
    {
        self.file_type.is_dir()
    }
}

/// What a visitor of a parallel walk asks for next.
#[derive(Debug, Clone, Copy, PartialEq, Eq, Structural)]
pub enum WalkState {
    Continue,
    Skip,
    Quit,
}

/// `filter` decides every entry as `keep` says.
pub open spec fn decides<F: Fn(&WalkEntry) -> bool>(
    filter: F,
    keep: spec_fn(WalkEntryView) -> bool,
) -> bool {
    &&& forall|e: &WalkEntry| #[trigger] call_requires(filter, (e,))
    &&& forall|e: &WalkEntry, r: bool| #[trigger] call_ensures(filter, (e,), r) ==> r == keep(e@)
}

/// Configuration for a directory walk.
///
/// `sort_by_file_name` tells whether one file name sorts after another;
/// `filter` keeps an entry, and with a directory what lies under it, when it
/// answers `true`.
pub struct WalkConfig<S, F> {
    pub hidden: bool,
    pub parents: bool,
    pub ignore: bool,
    pub follow_links: bool,
    pub git_ignore: bool,
    pub git_global: bool,
    pub git_exclude: bool,
    pub max_depth: Option<usize>,
    pub custom_ignore_files: Vec<String>,
    pub sort_by_file_name: Option<S>,
    pub filter: Option<F>,
}

impl<S: Fn(&str, &str) -> bool, F: Fn(&WalkEntry) -> bool> WalkConfig<S, F> {
    /// The caller supplied functions are total and answer by fixed rules.
    pub open spec fn functions_ok(&self) -> bool {
        &&& (self.sort_by_file_name matches Some(s) ==> exists|ord: NameOrder| computes(s, ord))
        &&& (self.filter matches Some(f) ==> exists|keep: spec_fn(WalkEntryView) -> bool|
            decides(f, keep))
    }

    /// The rule the sort function answers by.
    pub open spec fn sort_rule(&self) -> Option<NameOrder> {
        match self.sort_by_file_name {
            Some(s) => Some(choose|ord: NameOrder| computes(s, ord)),
            None => None,
        }
    }

    /// The rule the filter answers by.
    pub open spec fn filter_rule(&self) -> Option<spec_fn(WalkEntryView) -> bool> {
        match self.filter {
            Some(f) => Some(choose|keep: spec_fn(WalkEntryView) -> bool| decides(f, keep)),
            None => None,
        }
    }

    /// The configuration a fresh walk starts from: hidden entries skipped,
    /// ignore files honoured, links not followed, no depth limit, no order
    /// and no filter.
    pub fn new_default() -> (r: WalkConfig<S, F>)
        ensures
            r.hidden && r.parents && r.ignore && !r.follow_links,
            r.git_ignore && r.git_global && r.git_exclude,
            r.max_depth is None,
            r.custom_ignore_files@.len() == 0,
            r.sort_by_file_name is None,
            r.filter is None,
    {
        WalkConfig {
            hidden: true,
            parents: true,
            ignore: true,
            follow_links: false,
            git_ignore: true,
            git_global: true,
            git_exclude: true,
            max_depth: None,
            custom_ignore_files: Vec::new(),
            sort_by_file_name: None,
            filter: None,
        }
    }
}

/// The results of a walk, handed out one at a time.
pub struct Walk {
    items: Vec<Result<WalkEntry, IoError>>,
}

impl Walk {
    /// The results still to come, in order.
    pub closed spec fn remaining(&self) -> Seq<Result<WalkEntryView, ErrView>> {
        self.items@.map_values(|r: Result<WalkEntry, IoError>| result_view(r))
    }

    pub fn new(items: Vec<Result<WalkEntry, IoError>>) -> (r: Walk)
        ensures
            r.remaining() == items@.map_values(|r: Result<WalkEntry, IoError>| result_view(r)),
    {
        Walk { items }
    }

    /// The next result; `None` once the walk is over.
    pub fn next(&mut self) -> (r: Option<Result<WalkEntry, IoError>>)
        ensures
            old(self).remaining().len() == 0 ==> r is None && final(self).remaining().len() == 0,
            old(self).remaining().len() > 0 ==> {
                &&& r matches Some(x) && result_view(x) == old(self).remaining()[0]
                &&& final(self).remaining() == old(self).remaining().drop_first()
            },
    {
        if self.items.len() > 0 {
            let item = self.items.remove(0);
            assert(self.remaining() =~= old(self).remaining().drop_first());
            Some(item)
        } else {
            None
        }
    }
}

} // verus!
