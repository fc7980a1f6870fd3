//! Properties of the in-memory filesystem that span several operations.

use vstd::prelude::*;

use crate::memory::{
    copy_spec, ensure_dirs_spec, ensure_upto, first_prefix, has_key, initial_store,
    keys_unique, lemma_add_dir, lemma_lookup_at, lemma_remove_key, lemma_set_node, lookup,
    prefix, read_spec, remove_file_spec, rename_spec, resolve_spec, root_view, with_parents,
    write_spec, by_component, children_of, outside, remove_dir_all_spec, EntryView, NodeView,
    child_type, max_key_len, walk_children, walk_dir_spec, walk_items_spec, walk_spec, ChildView,
    WalkRules, kept, kind_of, lemma_walk_child_kind, is_hidden, canonicalize_spec, link_limit,
    link_step, parent_or_root, inside, key_pos, place_moved, rekey, set_permissions_spec,
    metadata_spec, child_item, read_dir_spec, resolve_path,
};
use crate::types::{err_view, DirEntryView, ErrView, ErrorKind};
use crate::walk::WalkEntryView;
use crate::types::FileType;
use crate::path::{
    components_spec, display_spec, dot, dot_dot, is_absolute, is_normal,
    lemma_component_after_asymmetric, lemma_components_pieces, comp_rank, dictionary_before,
    law_lex_less_is_dictionary_order, file_name_spec, lemma_norm_fold_normal,
    lemma_normalize_display, lemma_normalize_normal, norm_fold, normalize_spec, parent_spec,
    starts_with_spec, PathView,
};
use crate::sort::{asymmetric, lemma_sort_contains, lemma_sort_sorted, sort_spec, sorted_by};

verus! {

proof fn lemma_ensure_upto(es: Seq<EntryView>, p: PathView, m: int)
    requires
        keys_unique(es),
    ensures
        keys_unique(ensure_upto(es, p, m)),
        forall|q: PathView| has_key(es, q) ==> lookup(ensure_upto(es, p, m), q) == lookup(es, q),
        0 <= m <= p.comps.len() && m >= first_prefix(p) ==> has_key(
            ensure_upto(es, p, m),
            prefix(p, m),
        ),
    decreases m,
{
    if m >= 0 {
        let prev = if m == 0 {
            es
        } else {
            ensure_upto(es, p, m - 1)
        };
        if m > 0 {
            lemma_ensure_upto(es, p, m - 1);
        }
        if m >= first_prefix(p) {
            lemma_add_dir(prev, prefix(p, m));
            assert forall|q: PathView| has_key(es, q) implies lookup(ensure_upto(es, p, m), q)
                == lookup(es, q) by {
                if q == prefix(p, m) {
                    assert(has_key(prev, q)) by {
                        let i = choose|i: int| 0 <= i < es.len() && #[trigger] es[i].key == q;
                        lemma_lookup_at(es, i);
                    }
                }
            }
        }
    }
}

/// Making the directories of a path keeps the store well formed and leaves
/// every existing entry as it was.
pub proof fn law_ensure_dirs_keeps_entries(es: Seq<EntryView>, p: PathView)
    requires
        keys_unique(es),
    ensures
        keys_unique(ensure_dirs_spec(es, p)),
        forall|q: PathView| has_key(es, q) ==> lookup(ensure_dirs_spec(es, p), q) == lookup(es, q),
{
    lemma_ensure_upto(es, p, p.comps.len() as int);
}

/// After `create_dir_all`, something is stored at the path (unless the path
/// normalizes to the empty relative path, which names no entry).
pub proof fn law_create_dir_all_exists(es: Seq<EntryView>, path: Seq<char>)
    requires
        keys_unique(es),
        normalize_spec(path).absolute || normalize_spec(path).comps.len() > 0,
    ensures
        has_key(ensure_dirs_spec(es, normalize_spec(path)), normalize_spec(path)),
{
    let p = normalize_spec(path);
    lemma_ensure_upto(es, p, p.comps.len() as int);
    assert(prefix(p, p.comps.len() as int) == p) by {
        assert(p.comps.take(p.comps.len() as int) =~= p.comps);
    }
}

/// Making the directories of a path up to its `m`-th prefix leaves every
/// prefix from the first to the `m`-th stored.
proof fn lemma_ensure_upto_all(es: Seq<EntryView>, p: PathView, m: int)
    requires
        keys_unique(es),
        m <= p.comps.len(),
    ensures
        forall|k: int|
            first_prefix(p) <= k <= m ==> has_key(ensure_upto(es, p, m), #[trigger] prefix(p, k)),
    decreases m,
{
    if m >= 0 {
        let prev = if m == 0 {
            es
        } else {
            ensure_upto(es, p, m - 1)
        };
        if m > 0 {
            lemma_ensure_upto_all(es, p, m - 1);
            lemma_ensure_upto(es, p, m - 1);
        }
        if m >= first_prefix(p) {
            lemma_add_dir(prev, prefix(p, m));
            lemma_ensure_upto(es, p, m);
            assert forall|k: int| first_prefix(p) <= k <= m implies has_key(
                ensure_upto(es, p, m),
                #[trigger] prefix(p, k),
            ) by {
                if k < m {
                    let i = choose|i: int| 0 <= i < prev.len() && #[trigger] prev[i].key == prefix(p, k);
                    lemma_lookup_at(prev, i);
                }
            }
        }
    }
}

/// When every prefix is stored already, making the directories changes
/// nothing.
proof fn lemma_ensure_upto_stored(es: Seq<EntryView>, p: PathView, m: int)
    requires
        forall|k: int| first_prefix(p) <= k <= m ==> has_key(es, #[trigger] prefix(p, k)),
    ensures
        ensure_upto(es, p, m) == es,
    decreases m,
{
    if m > 0 {
        lemma_ensure_upto_stored(es, p, m - 1);
    }
    if m >= 0 && m >= first_prefix(p) {
        assert(has_key(es, prefix(p, m)));
    }
}

/// After `create_dir_all`, every leading part of the path that names a
/// directory is stored, and making the directories a second time changes
/// nothing.
pub proof fn law_create_dir_all_idempotent(es: Seq<EntryView>, path: Seq<char>)
    requires
        keys_unique(es),
    ensures
        forall|k: int|
            first_prefix(normalize_spec(path)) <= k <= normalize_spec(path).comps.len() ==> has_key(
                ensure_dirs_spec(es, normalize_spec(path)),
                #[trigger] prefix(normalize_spec(path), k),
            ),
        ensure_dirs_spec(ensure_dirs_spec(es, normalize_spec(path)), normalize_spec(path))
            == ensure_dirs_spec(es, normalize_spec(path)),
{
    let p = normalize_spec(path);
    lemma_ensure_upto_all(es, p, p.comps.len() as int);
    lemma_ensure_upto_stored(ensure_dirs_spec(es, p), p, p.comps.len() as int);
}

proof fn lemma_with_parents(es: Seq<EntryView>, p: PathView)
    requires
        keys_unique(es),
    ensures
        keys_unique(with_parents(es, p)),
        forall|q: PathView| has_key(es, q) ==> lookup(with_parents(es, p), q) == lookup(es, q),
{
    match parent_spec(p) {
        Some(par) => law_ensure_dirs_keeps_entries(es, par),
        None => {},
    }
}

/// A successful write is read back: reading the same path gives the bytes
/// written.
pub proof fn law_read_after_write(
    es: Seq<EntryView>,
    path: Seq<char>,
    contents: Seq<u8>,
    t: web_time::SystemTime,
)
    requires
        keys_unique(es),
        write_spec(es, path, contents, t).1 is Ok,
    ensures
        keys_unique(write_spec(es, path, contents, t).0),
        read_spec(write_spec(es, path, contents, t).0, path) == Ok::<Seq<u8>, crate::types::ErrView>(
            contents,
        ),
{
    let p = normalize_spec(path);
    let es1 = with_parents(es, p);
    lemma_with_parents(es, p);
    let text = crate::path::display_spec(p);
    lemma_set_node(es1, p, text, crate::memory::file_node(contents, t));
    let es2 = write_spec(es, path, contents, t).0;
    assert(lookup(es2, p) == Some(crate::memory::file_node(contents, t)));
    assert(resolve_spec(es2, p, 0) == Ok::<PathView, crate::types::ErrView>(p));
}

/// A write never changes an entry other than the one written, and never
/// removes one.
pub proof fn law_write_keeps_others(
    es: Seq<EntryView>,
    path: Seq<char>,
    contents: Seq<u8>,
    t: web_time::SystemTime,
    q: PathView,
)
    requires
        keys_unique(es),
        has_key(es, q),
        q != normalize_spec(path),
    ensures
        lookup(write_spec(es, path, contents, t).0, q) == lookup(es, q),
{
    let p = normalize_spec(path);
    let es1 = with_parents(es, p);
    lemma_with_parents(es, p);
    lemma_set_node(es1, p, crate::path::display_spec(p), crate::memory::file_node(contents, t));
}

/// After a file is removed, reading it fails.
pub proof fn law_read_after_remove_file(es: Seq<EntryView>, path: Seq<char>)
    requires
        keys_unique(es),
        remove_file_spec(es, path).1 is Ok,
    ensures
        read_spec(remove_file_spec(es, path).0, path) is Err,
        lookup(remove_file_spec(es, path).0, normalize_spec(path)) is None,
{
    let p = normalize_spec(path);
    lemma_remove_key(es, p);
    let es2 = remove_file_spec(es, path).0;
    assert(resolve_spec(es2, p, 0) == Ok::<PathView, crate::types::ErrView>(p));
}

/// What a filtered store holds under a path.
proof fn lemma_filter_lookup(es: Seq<EntryView>, pred: spec_fn(EntryView) -> bool, q: PathView)
    requires
        keys_unique(es),
    ensures
        keys_unique(es.filter(pred)),
        has_key(es.filter(pred), q) ==> has_key(es, q) && pred(es[key_pos(es, q)]) && lookup(
            es.filter(pred),
            q,
        ) == lookup(es, q),
        has_key(es, q) && pred(es[key_pos(es, q)]) ==> has_key(es.filter(pred), q),
{
    let r = es.filter(pred);
    lemma_filter_unique(es, pred);
    if has_key(r, q) {
        let j = choose|j: int| 0 <= j < r.len() && #[trigger] r[j].key == q;
        es.lemma_filter_pred(pred, j);
        assert(r.contains(r[j]));
        es.lemma_filter_contains_rev(pred, r[j]);
        let i = choose|i: int| 0 <= i < es.len() && es[i] == r[j];
        lemma_lookup_at(es, i);
        lemma_lookup_at(r, j);
    }
    if has_key(es, q) && pred(es[key_pos(es, q)]) {
        let i = key_pos(es, q);
        es.lemma_filter_contains(pred, i);
        let j = choose|j: int| 0 <= j < r.len() && r[j] == es[i];
        assert(r[j].key == q);
    }
}

/// A moved path lands under the destination.
proof fn lemma_rekey_under(k: PathView, f: PathView, t: PathView)
    ensures
        starts_with_spec(rekey(k, f, t), t),
{
    let r = rekey(k, f, t);
    assert(r.comps.subrange(0, t.comps.len() as int) =~= t.comps);
}

/// Two paths under the same source land apart, unless the source is the
/// empty relative path, under which both absolute and relative paths lie.
proof fn lemma_rekey_injective(a: PathView, b: PathView, f: PathView, t: PathView)
    requires
        starts_with_spec(a, f),
        starts_with_spec(b, f),
        f.absolute || f.comps.len() > 0,
        rekey(a, f, t) == rekey(b, f, t),
    ensures
        a == b,
{
    let n = f.comps.len() as int;
    let sa = a.comps.skip(n);
    let sb = b.comps.skip(n);
    let ra = rekey(a, f, t).comps;
    let rb = rekey(b, f, t).comps;
    assert(sa =~= ra.skip(t.comps.len() as int));
    assert(sb =~= rb.skip(t.comps.len() as int));
    assert(a.comps =~= f.comps + sa) by {
        assert(a.comps.subrange(0, n) == f.comps);
    }
    assert(b.comps =~= f.comps + sb) by {
        assert(b.comps.subrange(0, n) == f.comps);
    }
    assert(a =~= b);
}

/// Storing the moved entries at their new paths: every moved entry is found
/// at its new path, and every path that no moved entry lands on reads as in
/// `base`.
proof fn lemma_place_moved(base: Seq<EntryView>, mv: Seq<EntryView>, f: PathView, t: PathView)
    requires
        keys_unique(base),
        keys_unique(mv),
        forall|i: int| 0 <= i < mv.len() ==> starts_with_spec(#[trigger] mv[i].key, f),
        f.absolute || f.comps.len() > 0,
    ensures
        keys_unique(place_moved(base, mv, f, t)),
        forall|i: int|
            0 <= i < mv.len() ==> lookup(place_moved(base, mv, f, t), rekey(#[trigger] mv[i].key, f, t))
                == Some(mv[i].node),
        forall|q: PathView|
            (forall|i: int| 0 <= i < mv.len() ==> rekey(#[trigger] mv[i].key, f, t) != q) ==> lookup(
                place_moved(base, mv, f, t),
                q,
            ) == lookup(base, q),
    decreases mv.len(),
{
    if mv.len() > 0 {
        let rest = mv.drop_last();
        assert forall|i: int, j: int|
            0 <= i < rest.len() && 0 <= j < rest.len() && i != j implies #[trigger] rest[i].key
            != #[trigger] rest[j].key by {
            assert(rest[i] == mv[i]);
            assert(rest[j] == mv[j]);
        }
        assert forall|i: int| 0 <= i < rest.len() implies starts_with_spec(#[trigger] rest[i].key, f) by {
            assert(rest[i] == mv[i]);
        }
        lemma_place_moved(base, rest, f, t);
        let prev = place_moved(base, rest, f, t);
        let m = mv.last();
        let k = rekey(m.key, f, t);
        lemma_set_node(prev, k, display_spec(k), m.node);
        let last = mv.len() - 1;
        assert(mv[last] == m);
        assert forall|i: int| 0 <= i < mv.len() implies lookup(
            place_moved(base, mv, f, t),
            rekey(#[trigger] mv[i].key, f, t),
        ) == Some(mv[i].node) by {
            if i < last {
                assert(rest[i] == mv[i]);
                if rekey(mv[i].key, f, t) == k {
                    lemma_rekey_injective(mv[i].key, m.key, f, t);
                }
            }
        }
        assert forall|q: PathView|
            (forall|i: int| 0 <= i < mv.len() ==> rekey(#[trigger] mv[i].key, f, t) != q) implies lookup(
            place_moved(base, mv, f, t),
            q,
        ) == lookup(base, q) by {
            assert(rekey(mv[last].key, f, t) != q);
            assert forall|i: int| 0 <= i < rest.len() implies rekey(#[trigger] rest[i].key, f, t)
                != q by {
                assert(rest[i] == mv[i]);
                assert(rekey(mv[i].key, f, t) != q);
            }
        }
    }
}

/// Renaming moves the whole tree: every stored path under the source is
/// found, with what it held, at the same place under the destination; what
/// lies under the source but not under the destination is gone; and every
/// path under neither is as it was.  The source must not be the empty
/// relative path, under which every path lies.
pub proof fn law_rename_moves(es: Seq<EntryView>, from: Seq<char>, to: Seq<char>, q: PathView)
    requires
        keys_unique(es),
        rename_spec(es, from, to).1 is Ok,
        normalize_spec(from).absolute || normalize_spec(from).comps.len() > 0,
    ensures
        keys_unique(rename_spec(es, from, to).0),
        lookup(rename_spec(es, from, to).0, normalize_spec(to)) == lookup(es, normalize_spec(from)),
        has_key(es, q) && starts_with_spec(q, normalize_spec(from)) ==> lookup(
            rename_spec(es, from, to).0,
            rekey(q, normalize_spec(from), normalize_spec(to)),
        ) == lookup(es, q),
        starts_with_spec(q, normalize_spec(from)) && !starts_with_spec(q, normalize_spec(to))
            ==> lookup(rename_spec(es, from, to).0, q) is None,
        !starts_with_spec(q, normalize_spec(from)) && !starts_with_spec(q, normalize_spec(to))
            ==> lookup(rename_spec(es, from, to).0, q) == lookup(es, q),
{
    let f = normalize_spec(from);
    let t = normalize_spec(to);
    let base = es.filter(outside(f));
    let mv = es.filter(inside(f));
    lemma_filter_unique(es, outside(f));
    lemma_filter_unique(es, inside(f));
    assert forall|i: int| 0 <= i < mv.len() implies starts_with_spec(#[trigger] mv[i].key, f) by {
        es.lemma_filter_pred(inside(f), i);
    }
    lemma_place_moved(base, mv, f, t);
    let after = place_moved(base, mv, f, t);
    assert(after == rename_spec(es, from, to).0);
    // A stored path under the source lands under the destination.
    assert forall|p: PathView| has_key(es, p) && starts_with_spec(p, f) implies lookup(
        after,
        rekey(p, f, t),
    ) == lookup(es, p) by {
        let i = key_pos(es, p);
        lemma_lookup_at(es, i);
        es.lemma_filter_contains(inside(f), i);
        let j = choose|j: int| 0 <= j < mv.len() && mv[j] == es[i];
        assert(mv[j].key == p);
    }
    assert(rekey(f, f, t) =~= t) by {
        assert(t.comps + f.comps.skip(f.comps.len() as int) =~= t.comps);
    }
    assert(starts_with_spec(f, f)) by {
        assert(f.comps.subrange(0, f.comps.len() as int) =~= f.comps);
    }
    if !starts_with_spec(q, t) {
        assert forall|i: int| 0 <= i < mv.len() implies rekey(#[trigger] mv[i].key, f, t) != q by {
            lemma_rekey_under(mv[i].key, f, t);
        }
        lemma_filter_lookup(es, outside(f), q);
        if starts_with_spec(q, f) {
            if has_key(base, q) {
                assert(outside(f)(es[key_pos(es, q)]));
            }
        } else if has_key(es, q) {
            lemma_lookup_at(es, key_pos(es, q));
        }
    }
}

/// A successful copy leaves the destination reading as the source read
/// before the copy.
pub proof fn law_copy_reads_back(
    es: Seq<EntryView>,
    from: Seq<char>,
    to: Seq<char>,
    t: web_time::SystemTime,
)
    requires
        keys_unique(es),
        copy_spec(es, from, to, t).1 is Ok,
    ensures
        read_spec(copy_spec(es, from, to, t).0, to) == read_spec(es, from),
{
    let c = read_spec(es, from)->Ok_0;
    law_read_after_write(es, to, c, t);
}

/// A fresh filesystem holds the root directory and nothing else.
pub proof fn law_initial_store()
    ensures
        keys_unique(initial_store()),
        lookup(initial_store(), root_view()) == Some(NodeView::Directory),
        forall|q: PathView| q != root_view() ==> !has_key(initial_store(), q),
{
    lemma_lookup_at(initial_store(), 0);
}


/// A directory listing comes in path order: no entry sorts after the entry
/// that follows it, and the listing has one entry per child.
pub proof fn law_read_dir_ordered(es: Seq<EntryView>, p: PathView)
    ensures
        sorted_by(sort_spec(children_of(es, p), by_component()), by_component()),
        sort_spec(children_of(es, p), by_component()).len() == children_of(es, p).len(),
{
    assert(asymmetric(by_component())) by {
        assert forall|a: Seq<char>, b: Seq<char>| #[trigger] by_component()(a, b) implies !by_component()(
            b,
            a,
        ) by {
            lemma_component_after_asymmetric(a, b);
        }
    }
    lemma_sort_sorted(children_of(es, p), by_component());
}


/// An entry of a listing that has a file name is sorted by that name.
proof fn lemma_listed_name(es: Seq<EntryView>, p: PathView, x: (Seq<char>, DirEntryView))
    requires
        sort_spec(children_of(es, p), by_component()).contains(x),
        x.1.file_name.len() > 0,
    ensures
        x.0 == x.1.file_name,
        comp_rank(x.0) == 2,
{
    lemma_sort_contains(children_of(es, p), by_component(), x);
    es.lemma_filter_map_contains(|e: EntryView| child_item(e, p), x);
    let e = choose|e: EntryView| #[trigger] es.contains(e) && child_item(e, p) == Some(x);
    assert(child_item(e, p) == Some(x));
    assert(file_name_spec(e.key) is Some);
}

/// A directory listing comes in dictionary order of the entries' file names:
/// no entry's name comes before the name of the entry listed ahead of it, so
/// a name that is a proper prefix of another is listed first.
pub proof fn law_read_dir_dictionary_order(es: Seq<EntryView>, path: Seq<char>, v: Seq<DirEntryView>)
    requires
        read_dir_spec(es, path) == Ok::<Seq<DirEntryView>, ErrView>(v),
    ensures
        forall|i: int|
            #![trigger v[i]]
            0 <= i < v.len() - 1 && v[i].file_name.len() > 0 && v[i + 1].file_name.len() > 0
                ==> !dictionary_before(v[i + 1].file_name, v[i].file_name),
{
    let p = resolve_path(es, path)->Ok_0;
    let s = sort_spec(children_of(es, p), by_component());
    law_read_dir_ordered(es, p);
    assert(v == s.map_values(|x: (Seq<char>, DirEntryView)| x.1));
    assert forall|i: int|
        #![trigger v[i]]
        0 <= i < v.len() - 1 && v[i].file_name.len() > 0 && v[i + 1].file_name.len()
            > 0 implies !dictionary_before(v[i + 1].file_name, v[i].file_name) by {
        assert(s.contains(s[i]));
        assert(s.contains(s[i + 1]));
        assert(v[i] == s[i].1 && v[i + 1] == s[i + 1].1);
        lemma_listed_name(es, p, s[i]);
        lemma_listed_name(es, p, s[i + 1]);
        assert(!by_component()(s[i].0, s[i + 1].0));
        law_lex_less_is_dictionary_order(s[i + 1].0, s[i].0);
    }
}


proof fn lemma_filter_unique(es: Seq<EntryView>, pred: spec_fn(EntryView) -> bool)
    requires
        keys_unique(es),
    ensures
        keys_unique(es.filter(pred)),
    decreases es.len(),
{
    reveal_with_fuel(Seq::<_>::filter, 1);
    if es.len() > 0 {
        let rest = es.drop_last();
        assert(keys_unique(rest)) by {
            assert forall|i: int, j: int|
                0 <= i < rest.len() && 0 <= j < rest.len() && i != j implies #[trigger] rest[i].key
                != #[trigger] rest[j].key by {
                assert(rest[i] == es[i]);
                assert(rest[j] == es[j]);
            }
        }
        lemma_filter_unique(rest, pred);
        let sub = rest.filter(pred);
        if pred(es.last()) {
            let r = sub.push(es.last());
            assert forall|i: int, j: int|
                0 <= i < r.len() && 0 <= j < r.len() && i != j implies #[trigger] r[i].key
                != #[trigger] r[j].key by {
                if i < sub.len() && j < sub.len() {
                    assert(r[i] == sub[i]);
                    assert(r[j] == sub[j]);
                } else {
                    let k = if i < sub.len() {
                        i
                    } else {
                        j
                    };
                    assert(sub.contains(sub[k]));
                    rest.lemma_filter_contains_rev(pred, sub[k]);
                    let m = choose|m: int| 0 <= m < rest.len() && rest[m] == sub[k];
                    assert(es[m] == rest[m]);
                    assert(es[es.len() - 1] == es.last());
                }
            }
        }
    }
}

/// Removing a directory tree removes every entry under it and leaves every
/// other entry as it was.
pub proof fn law_remove_dir_all(es: Seq<EntryView>, path: Seq<char>, q: PathView)
    requires
        keys_unique(es),
        remove_dir_all_spec(es, path).1 is Ok,
    ensures
        keys_unique(remove_dir_all_spec(es, path).0),
        starts_with_spec(q, normalize_spec(path)) ==> !has_key(remove_dir_all_spec(es, path).0, q),
        !starts_with_spec(q, normalize_spec(path)) ==> lookup(remove_dir_all_spec(es, path).0, q)
            == lookup(es, q),
{
    let p = normalize_spec(path);
    let pred = outside(p);
    let r = es.filter(pred);
    lemma_filter_unique(es, pred);
    if has_key(r, q) {
        let j = choose|j: int| 0 <= j < r.len() && #[trigger] r[j].key == q;
        es.lemma_filter_pred(pred, j);
        assert(r.contains(r[j]));
        es.lemma_filter_contains_rev(pred, r[j]);
        let i = choose|i: int| 0 <= i < es.len() && es[i] == r[j];
        lemma_lookup_at(es, i);
        lemma_lookup_at(r, j);
    } else if has_key(es, q) {
        let i = choose|i: int| 0 <= i < es.len() && #[trigger] es[i].key == q;
        if pred(es[i]) {
            es.lemma_filter_contains(pred, i);
            let j = choose|j: int| 0 <= j < r.len() && r[j] == es[i];
            assert(r[j].key == q);
        }
    }
}

} // verus!

verus! {

proof fn lemma_dir_depth(es: Seq<EntryView>, dir: PathView, text: Seq<char>, depth: nat, rules: WalkRules)
    requires
        rules.max_depth matches Some(m) && depth <= m,
    ensures
        forall|i: int|
            0 <= i < walk_dir_spec(es, dir, text, depth, rules).len() ==> (#[trigger] walk_dir_spec(
                es,
                dir,
                text,
                depth,
                rules,
            )[i]).depth <= rules.max_depth->0,
    decreases max_key_len(es) - dir.comps.len(), 1int, 0int,
{
    let m = rules.max_depth->0;
    if depth < m {
        lemma_items_depth(es, dir, walk_children(es, dir, rules.after), depth, rules);
    }
}

proof fn lemma_items_depth(
    es: Seq<EntryView>,
    dir: PathView,
    cs: Seq<ChildView>,
    depth: nat,
    rules: WalkRules,
)
    requires
        rules.max_depth matches Some(m) && depth < m,
    ensures
        forall|i: int|
            0 <= i < walk_items_spec(es, dir, cs, depth, rules).len() ==> (
            #[trigger] walk_items_spec(es, dir, cs, depth, rules)[i]).depth <= rules.max_depth->0,
    decreases max_key_len(es) - dir.comps.len(), 0int, cs.len(),
{
    if cs.len() > 0 {
        lemma_items_depth(es, dir, cs.drop_last(), depth, rules);
        let c = cs.last();
        let (ft, sym) = child_type(es, dir, c, rules.follow_links);
        if ft == FileType::Directory && c.key.comps.len() == dir.comps.len() + 1
            && c.key.comps.len() <= max_key_len(es) {
            lemma_dir_depth(es, c.key, c.text, depth + 1, rules);
        }
    }
}

/// A walk with a depth limit yields no entry below that depth: a directory
/// at the limit is yielded but not entered.
pub proof fn law_walk_depth_limit(es: Seq<EntryView>, root: Seq<char>, rules: WalkRules)
    requires
        rules.max_depth is Some,
    ensures
        forall|i: int|
            0 <= i < walk_spec(es, root, rules).len() ==> (#[trigger] walk_spec(
                es,
                root,
                rules,
            )[i]).depth <= rules.max_depth->0,
{
    let r = normalize_spec(root);
    if lookup(es, r) matches Some(NodeView::Directory) {
        lemma_dir_depth(es, r, display_spec(r), 0, rules);
    }
}

/// The children of `cs` are stored, with the kinds they are visited as.
pub open spec fn children_stored(es: Seq<EntryView>, cs: Seq<ChildView>) -> bool {
    forall|j: int|
        0 <= j < cs.len() ==> (lookup(es, #[trigger] cs[j].key) matches Some(n) && kind_of(n)
            == cs[j].kind)
}

proof fn lemma_dir_kept(
    es: Seq<EntryView>,
    dir: PathView,
    text: Seq<char>,
    depth: nat,
    rules: WalkRules,
)
    requires
        keys_unique(es),
    ensures
        forall|i: int|
            1 <= i < walk_dir_spec(es, dir, text, depth, rules).len() ==> kept(
                rules,
                #[trigger] walk_dir_spec(es, dir, text, depth, rules)[i],
            ),
    decreases max_key_len(es) - dir.comps.len(), 1int, 0int,
{
    if !(rules.max_depth matches Some(m) && depth >= m) {
        let cs = walk_children(es, dir, rules.after);
        assert forall|j: int| 0 <= j < cs.len() implies (lookup(es, #[trigger] cs[j].key) matches Some(
            n,
        ) && kind_of(n) == cs[j].kind) by {
            lemma_walk_child_kind(es, dir, rules.after, j);
        }
        lemma_items_kept(es, dir, cs, depth, rules);
        let w = walk_dir_spec(es, dir, text, depth, rules);
        let items = walk_items_spec(es, dir, cs, depth, rules);
        assert forall|i: int| 1 <= i < w.len() implies kept(rules, #[trigger] w[i]) by {
            assert(w[i] == items[i - 1]);
        }
    }
}

proof fn lemma_items_kept(
    es: Seq<EntryView>,
    dir: PathView,
    cs: Seq<ChildView>,
    depth: nat,
    rules: WalkRules,
)
    requires
        keys_unique(es),
        children_stored(es, cs),
    ensures
        forall|i: int|
            0 <= i < walk_items_spec(es, dir, cs, depth, rules).len() ==> kept(
                rules,
                #[trigger] walk_items_spec(es, dir, cs, depth, rules)[i],
            ),
    decreases max_key_len(es) - dir.comps.len(), 0int, cs.len(),
{
    if cs.len() > 0 {
        let rest = cs.drop_last();
        assert forall|j: int| 0 <= j < rest.len() implies (lookup(es, #[trigger] rest[j].key) matches Some(
            n,
        ) && kind_of(n) == rest[j].kind) by {
            assert(rest[j] == cs[j]);
        }
        lemma_items_kept(es, dir, rest, depth, rules);
        let c = cs.last();
        assert(lookup(es, cs[cs.len() - 1].key) matches Some(n) && kind_of(n) == c.kind);
        let (ft, sym) = child_type(es, dir, c, rules.follow_links);
        let e = WalkEntryView { path: c.text, file_type: ft, depth: depth + 1, is_symlink: sym };
        let before = walk_items_spec(es, dir, rest, depth, rules);
        let all = walk_items_spec(es, dir, cs, depth, rules);
        if !(rules.hidden && is_hidden(c.key)) && kept(rules, e) {
            if ft == FileType::Directory {
                if c.key.comps.len() == dir.comps.len() + 1 && c.key.comps.len() <= max_key_len(
                    es,
                ) {
                    lemma_dir_kept(es, c.key, c.text, depth + 1, rules);
                    let sub = walk_dir_spec(es, c.key, c.text, depth + 1, rules);
                    assert(sub[0] == e);
                    assert(all == before + sub);
                    assert forall|i: int| 0 <= i < all.len() implies kept(rules, #[trigger] all[i]) by {
                        if i >= before.len() {
                            assert(all[i] == sub[i - before.len()]);
                        } else {
                            assert(all[i] == before[i]);
                        }
                    }
                }
            } else {
                assert(all == before.push(e));
                assert forall|i: int| 0 <= i < all.len() implies kept(rules, #[trigger] all[i]) by {
                    if i < before.len() {
                        assert(all[i] == before[i]);
                    }
                }
            }
        }
    }
}

/// A walk yields, after its root, only entries the filter keeps; a
/// directory the filter refuses is not entered.
pub proof fn law_walk_filter(es: Seq<EntryView>, root: Seq<char>, rules: WalkRules)
    requires
        keys_unique(es),
    ensures
        forall|i: int|
            1 <= i < walk_spec(es, root, rules).len() ==> kept(
                rules,
                #[trigger] walk_spec(es, root, rules)[i],
            ),
{
    let r = normalize_spec(root);
    if lookup(es, r) matches Some(NodeView::Directory) {
        lemma_dir_kept(es, r, display_spec(r), 0, rules);
    }
}

/// `path` is the text of a stored entry whose name does not start with a dot.
pub open spec fn stored_visible(es: Seq<EntryView>, path: Seq<char>) -> bool {
    exists|j: int| 0 <= j < es.len() && (#[trigger] es[j]).text == path && !is_hidden(es[j].key)
}

/// The children of `cs` are stored under their keys and texts.
pub open spec fn children_listed(es: Seq<EntryView>, cs: Seq<ChildView>) -> bool {
    forall|k: int|
        0 <= k < cs.len() ==> exists|j: int|
            0 <= j < es.len() && (#[trigger] es[j]).key == (#[trigger] cs[k]).key && es[j].text
                == cs[k].text
}

proof fn lemma_dir_visible(
    es: Seq<EntryView>,
    dir: PathView,
    text: Seq<char>,
    depth: nat,
    rules: WalkRules,
)
    requires
        keys_unique(es),
        rules.hidden,
    ensures
        forall|i: int|
            1 <= i < walk_dir_spec(es, dir, text, depth, rules).len() ==> stored_visible(
                es,
                (#[trigger] walk_dir_spec(es, dir, text, depth, rules)[i]).path,
            ),
    decreases max_key_len(es) - dir.comps.len(), 1int, 0int,
{
    if !(rules.max_depth matches Some(m) && depth >= m) {
        let cs = walk_children(es, dir, rules.after);
        assert forall|k: int| 0 <= k < cs.len() implies exists|j: int|
            0 <= j < es.len() && (#[trigger] es[j]).key == (#[trigger] cs[k]).key && es[j].text
                == cs[k].text by {
            lemma_walk_child_kind(es, dir, rules.after, k);
        }
        lemma_items_visible(es, dir, cs, depth, rules);
        let w = walk_dir_spec(es, dir, text, depth, rules);
        let items = walk_items_spec(es, dir, cs, depth, rules);
        assert forall|i: int| 1 <= i < w.len() implies stored_visible(es, (#[trigger] w[i]).path) by {
            assert(w[i] == items[i - 1]);
        }
    }
}

proof fn lemma_items_visible(
    es: Seq<EntryView>,
    dir: PathView,
    cs: Seq<ChildView>,
    depth: nat,
    rules: WalkRules,
)
    requires
        keys_unique(es),
        rules.hidden,
        children_listed(es, cs),
    ensures
        forall|i: int|
            0 <= i < walk_items_spec(es, dir, cs, depth, rules).len() ==> stored_visible(
                es,
                (#[trigger] walk_items_spec(es, dir, cs, depth, rules)[i]).path,
            ),
    decreases max_key_len(es) - dir.comps.len(), 0int, cs.len(),
{
    if cs.len() > 0 {
        let rest = cs.drop_last();
        assert forall|k: int| 0 <= k < rest.len() implies exists|j: int|
            0 <= j < es.len() && (#[trigger] es[j]).key == (#[trigger] rest[k]).key && es[j].text
                == rest[k].text by {
            assert(rest[k] == cs[k]);
        }
        lemma_items_visible(es, dir, rest, depth, rules);
        let c = cs.last();
        let (ft, sym) = child_type(es, dir, c, rules.follow_links);
        let e = WalkEntryView { path: c.text, file_type: ft, depth: depth + 1, is_symlink: sym };
        let before = walk_items_spec(es, dir, rest, depth, rules);
        let all = walk_items_spec(es, dir, cs, depth, rules);
        if !is_hidden(c.key) && kept(rules, e) {
            assert(stored_visible(es, c.text)) by {
                assert(cs[cs.len() - 1] == c);
                let j = choose|j: int|
                    0 <= j < es.len() && (#[trigger] es[j]).key == cs[cs.len() - 1].key
                        && es[j].text == cs[cs.len() - 1].text;
                assert(es[j].text == c.text && !is_hidden(es[j].key));
            }
            if ft == FileType::Directory {
                if c.key.comps.len() == dir.comps.len() + 1 && c.key.comps.len() <= max_key_len(
                    es,
                ) {
                    lemma_dir_visible(es, c.key, c.text, depth + 1, rules);
                    let sub = walk_dir_spec(es, c.key, c.text, depth + 1, rules);
                    assert(sub[0].path == c.text);
                    assert(all == before + sub);
                    assert forall|i: int| 0 <= i < all.len() implies stored_visible(
                        es,
                        (#[trigger] all[i]).path,
                    ) by {
                        if i >= before.len() {
                            assert(all[i] == sub[i - before.len()]);
                        } else {
                            assert(all[i] == before[i]);
                        }
                    }
                }
            } else {
                assert(all == before.push(e));
                assert forall|i: int| 0 <= i < all.len() implies stored_visible(
                    es,
                    (#[trigger] all[i]).path,
                ) by {
                    if i < before.len() {
                        assert(all[i] == before[i]);
                    }
                }
            }
        }
    }
}

/// A walk that skips hidden entries yields, after its root, only entries
/// stored under a name that does not start with a dot.
pub proof fn law_walk_skips_hidden(es: Seq<EntryView>, root: Seq<char>, rules: WalkRules)
    requires
        keys_unique(es),
        rules.hidden,
    ensures
        forall|i: int|
            1 <= i < walk_spec(es, root, rules).len() ==> stored_visible(
                es,
                (#[trigger] walk_spec(es, root, rules)[i]).path,
            ),
{
    let r = normalize_spec(root);
    if lookup(es, r) matches Some(NodeView::Directory) {
        lemma_dir_visible(es, r, display_spec(r), 0, rules);
    }
}

/// A link followed from a normal path leads to a normal path.
proof fn lemma_link_step_normal(p: PathView, target: Seq<char>)
    requires
        is_normal(p),
    ensures
        is_normal(link_step(p, target)),
{
    let base = parent_or_root(p);
    assert forall|i: int| 0 <= i < base.comps.len() implies #[trigger] base.comps[i].len() > 0
        && base.comps[i] != dot() && base.comps[i] != dot_dot() && !base.comps[i].contains('/') by {
        assert(base.comps[i] == p.comps[i]);
    }
    if is_absolute(target) {
        lemma_normalize_normal(target);
    } else {
        lemma_components_pieces(target);
        lemma_norm_fold_normal(base.comps, components_spec(target).comps);
        let q = PathView { absolute: false, comps: norm_fold(base.comps, components_spec(target).comps) };
        let r = link_step(p, target);
        assert forall|i: int| 0 <= i < r.comps.len() implies #[trigger] r.comps[i].len() > 0
            && r.comps[i] != dot() && r.comps[i] != dot_dot() && !r.comps[i].contains('/') by {
            assert(r.comps[i] == q.comps[i]);
        }
    }
}

/// Following links from a normal path ends, if it ends, at a normal path
/// that is not a link.
proof fn lemma_resolve_result(es: Seq<EntryView>, q: PathView, d: nat)
    requires
        is_normal(q),
    ensures
        resolve_spec(es, q, d) matches Ok(p) ==> is_normal(p) && !(lookup(es, p) matches Some(
            NodeView::Symlink { .. },
        )),
    decreases link_limit() + 1 - d,
{
    if d <= link_limit() {
        if let Some(NodeView::Symlink { target }) = lookup(es, q) {
            lemma_link_step_normal(q, target);
            lemma_resolve_result(es, link_step(q, target), d + 1);
        }
    }
}

/// Canonicalizing the text that canonicalization gave leads to that same
/// text: a canonical path is its own canonical form.
pub proof fn law_canonicalize_idempotent(es: Seq<EntryView>, path: Seq<char>)
    ensures
        canonicalize_spec(es, path) matches Ok(c) ==> canonicalize_spec(es, c) == Ok::<
            Seq<char>,
            ErrView,
        >(c),
{
    lemma_normalize_normal(path);
    lemma_resolve_result(es, normalize_spec(path), 0);
    if let Ok(p) = resolve_spec(es, normalize_spec(path), 0) {
        lemma_normalize_display(p);
        assert(resolve_spec(es, p, 0) == Ok::<PathView, ErrView>(p));
    }
}

/// Setting the permissions of a file sets its read-only flag to the one
/// asked for, whether that makes it read-only or writable again; its
/// contents and time stay, and metadata reports the new flag and the mode
/// that goes with it.  Every other path reads as before.
pub proof fn law_set_permissions_sets_readonly(
    es: Seq<EntryView>,
    path: Seq<char>,
    readonly: bool,
    q: PathView,
)
    requires
        keys_unique(es),
        lookup(es, normalize_spec(path)) matches Some(NodeView::File { .. }),
    ensures
        set_permissions_spec(es, path, readonly).1 is Ok,
        keys_unique(set_permissions_spec(es, path, readonly).0),
        lookup(es, normalize_spec(path)) matches Some(NodeView::File { contents, modified, .. })
            && lookup(set_permissions_spec(es, path, readonly).0, normalize_spec(path)) == Some(
            NodeView::File { contents, modified, readonly },
        ),
        metadata_spec(set_permissions_spec(es, path, readonly).0, path) matches Ok(m) && m.readonly
            == readonly && m.mode == (if readonly {
            0o444u32
        } else {
            0o644u32
        }),
        q != normalize_spec(path) ==> lookup(set_permissions_spec(es, path, readonly).0, q)
            == lookup(es, q),
{
    let p = normalize_spec(path);
    if let Some(NodeView::File { contents, modified, .. }) = lookup(es, p) {
        let n = NodeView::File { contents, modified, readonly };
        lemma_set_node(es, p, display_spec(p), n);
        let es2 = set_permissions_spec(es, path, readonly).0;
        assert(resolve_spec(es2, p, 0) == Ok::<PathView, ErrView>(p));
    }
}

/// A file takes writes exactly when it is not read-only: once its
/// permissions are set, a write succeeds and is read back when they make it
/// writable, and is refused with `PermissionDenied` ("file is readonly")
/// when they make it read-only, the file then keeping its contents.
pub proof fn law_write_respects_readonly(
    es: Seq<EntryView>,
    path: Seq<char>,
    readonly: bool,
    contents: Seq<u8>,
    t: web_time::SystemTime,
)
    requires
        keys_unique(es),
        lookup(es, normalize_spec(path)) matches Some(NodeView::File { .. }),
    ensures
        (write_spec(set_permissions_spec(es, path, readonly).0, path, contents, t).1 is Ok)
            == !readonly,
        readonly ==> write_spec(set_permissions_spec(es, path, readonly).0, path, contents, t).1
            == Err::<(), ErrView>(err_view(ErrorKind::PermissionDenied, "file is readonly"@)),
        readonly ==> read_spec(
            write_spec(set_permissions_spec(es, path, readonly).0, path, contents, t).0,
            path,
        ) == read_spec(es, path),
        !readonly ==> read_spec(
            write_spec(set_permissions_spec(es, path, readonly).0, path, contents, t).0,
            path,
        ) == Ok::<Seq<u8>, ErrView>(contents),
{
    let p = normalize_spec(path);
    let es2 = set_permissions_spec(es, path, readonly).0;
    law_set_permissions_sets_readonly(es, path, readonly, p);
    assert(has_key(es2, p));
    lemma_with_parents(es2, p);
    if readonly {
        let es3 = write_spec(es2, path, contents, t).0;
        assert(es3 == with_parents(es2, p));
        if let Some(NodeView::File { contents: old, modified, .. }) = lookup(es, p) {
            assert(resolve_spec(es, p, 0) == Ok::<PathView, ErrView>(p)) by {
                lemma_normalize_normal(path);
            }
            assert(resolve_spec(es3, p, 0) == Ok::<PathView, ErrView>(p)) by {
                lemma_normalize_normal(path);
            }
            assert(read_spec(es, path) == Ok::<Seq<u8>, ErrView>(old));
            assert(read_spec(es3, path) == Ok::<Seq<u8>, ErrView>(old));
        }
    } else {
        law_read_after_write(es2, path, contents, t);
    }
}

} // verus!
