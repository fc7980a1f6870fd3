//! Stable ordering of named items, a caller supplied test telling when one
//! name sorts after another.

use vstd::prelude::*;
use vstd::string::*;

verus! {

/// Whether the first name sorts strictly after the second.
pub type NameOrder = spec_fn(Seq<char>, Seq<char>) -> bool;

/// `after_fn` computes `ord` on every pair of names.
pub open spec fn computes<C: Fn(&str, &str) -> bool>(after_fn: C, ord: NameOrder) -> bool {
    &&& forall|a: &str, b: &str| #[trigger] call_requires(after_fn, (a, b))
    &&& forall|a: &str, b: &str, r: bool|
        #[trigger] call_ensures(after_fn, (a, b), r) ==> r == ord(a@, b@)
}

/// Places `x` after the last item that does not sort after it.
pub open spec fn insert_sorted<T>(s: Seq<(Seq<char>, T)>, x: (Seq<char>, T), ord: NameOrder) -> Seq<
    (Seq<char>, T),
>
    decreases s.len(),
{
    if s.len() == 0 {
        seq![x]
    } else if ord(s.last().0, x.0) {
        insert_sorted(s.drop_last(), x, ord).push(s.last())
    } else {
        s.push(x)
    }
}

/// The stable sort of `s` by the names of its items.
pub open spec fn sort_spec<T>(s: Seq<(Seq<char>, T)>, ord: NameOrder) -> Seq<(Seq<char>, T)>
    decreases s.len(),
{
    if s.len() == 0 {
        seq![]
    } else {
        insert_sorted(sort_spec(s.drop_last(), ord), s.last(), ord)
    }
}

pub open spec fn named_view<T: View>(v: Seq<(String, T)>) -> Seq<(Seq<char>, T::V)> {
    v.map_values(|p: (String, T)| (p.0@, p.1@))
}

/// Inserting at the position found by scanning from the end.
proof fn lemma_insert_at<T>(s: Seq<(Seq<char>, T)>, x: (Seq<char>, T), ord: NameOrder, j: int)
    requires
        0 <= j <= s.len(),
        forall|k: int| j <= k < s.len() ==> ord(#[trigger] s[k].0, x.0),
        j > 0 ==> !ord(s[j - 1].0, x.0),
    ensures
        insert_sorted(s, x, ord) == s.take(j) + seq![x] + s.skip(j),
    decreases s.len(),
{
    if s.len() == 0 {
        assert(s.take(j) + seq![x] + s.skip(j) =~= seq![x]);
    } else if j == s.len() {
        assert(s.take(j) + seq![x] + s.skip(j) =~= s.push(x));
    } else {
        let t = s.drop_last();
        assert(ord(s[s.len() - 1].0, x.0));
        assert forall|k: int| j <= k < t.len() implies ord(#[trigger] t[k].0, x.0)
            by {
            assert(t[k] == s[k]);
        }
        lemma_insert_at(t, x, ord, j);
        assert(t.take(j) + seq![x] + t.skip(j) + seq![s.last()] =~= s.take(j) + seq![x] + s.skip(
            j,
        ));
    }
}

/// Sorts `items` stably by name, `after_fn` deciding between two names.
pub fn sort_by_name<T: View, C: Fn(&str, &str) -> bool>(
    items: Vec<(String, T)>,
    after_fn: &C,
    Ghost(ord): Ghost<NameOrder>,
) -> (r: Vec<(String, T)>)
    requires
        computes(*after_fn, ord),
    ensures
        named_view(r@) == sort_spec(named_view(items@), ord),
{
    let mut out: Vec<(String, T)> = Vec::new();
    let mut rest = items;
    let ghost all = named_view(rest@);
    let mut i: usize = 0;
    let n = rest.len();
    assert(all.take(0) =~= Seq::<(Seq<char>, T::V)>::empty());
    while rest.len() > 0
        invariant
            n == all.len(),
            i + rest.len() == n,
            named_view(rest@) == all.skip(i as int),
            named_view(out@) == sort_spec(all.take(i as int), ord),
            computes(*after_fn, ord),
        decreases rest.len(),
    {
        let ghost rest_before = rest@;
        let x = rest.remove(0);
        let ghost xv = (x.0@, x.1@);
        let ghost before = named_view(out@);
        assert(named_view(rest_before)[0] == xv);
        assert(xv == all[i as int]);
        assert(named_view(rest@) =~= named_view(rest_before).skip(1));
        assert(named_view(rest@) =~= all.skip(i + 1));
        let mut j = out.len();
        while j > 0
            invariant
                0 <= j <= out.len(),
                named_view(out@) == before,
                xv == (x.0@, x.1@),
                forall|k: int|
                    j <= k < before.len() ==> ord(#[trigger] before[k].0, xv.0)
                       ,
                computes(*after_fn, ord),
            ensures
                0 <= j <= out.len(),
                forall|k: int|
                    j <= k < before.len() ==> ord(#[trigger] before[k].0, xv.0)
                       ,
                j > 0 ==> !ord(before[j - 1].0, xv.0),
            decreases j,
        {
            let a = out[j - 1].0.as_str();
            let b = x.0.as_str();
            let o = after_fn(a, b);
            assert(call_ensures(*after_fn, (a, b), o));
            assert(o == ord(a@, b@));
            assert(before[j - 1].0 == out@[j - 1].0@);
            assert(b@ == x.0@);
            assert(b@ == xv.0);
            assert(o == ord(before[j - 1].0, xv.0));
            if o {
                j = j - 1;
            } else {
                break;
            }
        }
        proof {
            lemma_insert_at(before, xv, ord, j as int);
        }
        out.insert(j, x);
        proof {
            assert(named_view(out@) =~= before.take(j as int) + seq![xv] + before.skip(j as int));
            assert(all.take(i + 1).drop_last() =~= all.take(i as int));
        }
        i = i + 1;
    }
    assert(all.take(n as int) =~= all);
    out
}


proof fn lemma_insert_sorted_contains<T>(
    t: Seq<(Seq<char>, T)>,
    x: (Seq<char>, T),
    ord: NameOrder,
    y: (Seq<char>, T),
)
    requires
        insert_sorted(t, x, ord).contains(y),
    ensures
        y == x || t.contains(y),
    decreases t.len(),
{
    if t.len() == 0 {
        assert(insert_sorted(t, x, ord) == seq![x]);
    } else if ord(t.last().0, x.0) {
        let u = insert_sorted(t.drop_last(), x, ord);
        let k = choose|k: int| 0 <= k < insert_sorted(t, x, ord).len() && insert_sorted(t, x, ord)[k] == y;
        if k < u.len() {
            assert(u[k] == y);
            lemma_insert_sorted_contains(t.drop_last(), x, ord, y);
            if t.drop_last().contains(y) {
                let m = choose|m: int| 0 <= m < t.drop_last().len() && t.drop_last()[m] == y;
                assert(t[m] == y);
            }
        } else {
            assert(y == t.last());
            assert(t[t.len() - 1] == y);
        }
    } else {
        let k = choose|k: int| 0 <= k < insert_sorted(t, x, ord).len() && insert_sorted(t, x, ord)[k] == y;
        if k < t.len() {
            assert(t[k] == y);
        }
    }
}

/// Sorting keeps only items of the input.
pub proof fn lemma_sort_contains<T>(s: Seq<(Seq<char>, T)>, ord: NameOrder, y: (Seq<char>, T))
    requires
        sort_spec(s, ord).contains(y),
    ensures
        s.contains(y),
    decreases s.len(),
{
    if s.len() > 0 {
        lemma_insert_sorted_contains(sort_spec(s.drop_last(), ord), s.last(), ord, y);
        if y == s.last() {
            assert(s[s.len() - 1] == y);
        } else {
            lemma_sort_contains(s.drop_last(), ord, y);
            let m = choose|m: int| 0 <= m < s.drop_last().len() && s.drop_last()[m] == y;
            assert(s[m] == y);
        }
    }
}


/// No name sorts after a name that sorts after it.
pub open spec fn asymmetric(ord: NameOrder) -> bool {
    forall|a: Seq<char>, b: Seq<char>| #[trigger] ord(a, b) ==> !ord(b, a)
}

/// No item sorts after the item that follows it.
pub open spec fn sorted_by<T>(s: Seq<(Seq<char>, T)>, ord: NameOrder) -> bool {
    forall|i: int| 0 <= i < s.len() - 1 ==> !ord(#[trigger] s[i].0, s[i + 1].0)
}

proof fn lemma_insert_sorted_sorted<T>(t: Seq<(Seq<char>, T)>, x: (Seq<char>, T), ord: NameOrder)
    requires
        asymmetric(ord),
        sorted_by(t, ord),
    ensures
        sorted_by(insert_sorted(t, x, ord), ord),
        insert_sorted(t, x, ord).len() == t.len() + 1,
        insert_sorted(t, x, ord).len() > 0,
        insert_sorted(t, x, ord).last() == x || (t.len() > 0 && insert_sorted(t, x, ord).last()
            == t.last()),
    decreases t.len(),
{
    if t.len() == 0 {
    } else if ord(t.last().0, x.0) {
        let u = insert_sorted(t.drop_last(), x, ord);
        assert(sorted_by(t.drop_last(), ord)) by {
            assert forall|i: int| 0 <= i < t.drop_last().len() - 1 implies !ord(
                #[trigger] t.drop_last()[i].0,
                t.drop_last()[i + 1].0,
            ) by {
                assert(t.drop_last()[i] == t[i]);
                assert(t.drop_last()[i + 1] == t[i + 1]);
            }
        }
        lemma_insert_sorted_sorted(t.drop_last(), x, ord);
        let r = u.push(t.last());
        assert forall|i: int| 0 <= i < r.len() - 1 implies !ord(#[trigger] r[i].0, r[i + 1].0) by {
            if i < u.len() - 1 {
                assert(r[i] == u[i]);
                assert(r[i + 1] == u[i + 1]);
            } else {
                assert(r[i] == u.last());
                assert(r[i + 1] == t.last());
                if u.last() == x {
                    assert(ord(t.last().0, x.0));
                } else {
                    assert(u.last() == t.drop_last().last());
                    assert(t.drop_last().last() == t[t.len() - 2]);
                }
            }
        }
    } else {
        let r = t.push(x);
        assert forall|i: int| 0 <= i < r.len() - 1 implies !ord(#[trigger] r[i].0, r[i + 1].0) by {
            assert(r[i] == t[i]);
            if i < t.len() - 1 {
                assert(r[i + 1] == t[i + 1]);
            }
        }
    }
}

/// With an asymmetric order, sorting leaves no item sorting after its successor.
pub proof fn lemma_sort_sorted<T>(s: Seq<(Seq<char>, T)>, ord: NameOrder)
    requires
        asymmetric(ord),
    ensures
        sorted_by(sort_spec(s, ord), ord),
        sort_spec(s, ord).len() == s.len(),
    decreases s.len(),
{
    if s.len() > 0 {
        lemma_sort_sorted(s.drop_last(), ord);
        lemma_insert_sorted_sorted(sort_spec(s.drop_last(), ord), s.last(), ord);
    }
}

} // verus!
