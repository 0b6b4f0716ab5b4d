//! Sequence facts the list logic rests on: the meaning of the stable
//! sorts (`sort_by`, `sort_by_key`) that the window list, the fuzzy ranking
//! and the application index use, and when a filter keeps everything.

use vstd::prelude::*;

verus! {

/// Where a stable insertion puts `e` into the already ordered `s`: before
/// the first element that must come after `e` (`!le(x, e)`).
pub open spec fn ins_pos<T>(s: Seq<T>, le: spec_fn(T, T) -> bool, e: T) -> int
    decreases s.len(),
{
    if s.len() == 0 {
        0
    } else if !le(s[0], e) {
        0
    } else {
        1 + ins_pos(s.drop_first(), le, e)
    }
}

/// The stable sort of `s` under the total preorder `le`: equal elements
/// keep their original relative order.
pub open spec fn stable_sort<T>(s: Seq<T>, le: spec_fn(T, T) -> bool) -> Seq<T>
    decreases s.len(),
{
    if s.len() == 0 {
        Seq::empty()
    } else {
        let p = stable_sort(s.drop_last(), le);
        p.insert(ins_pos(p, le, s.last()), s.last())
    }
}

pub proof fn lemma_ins_pos_bounds<T>(s: Seq<T>, le: spec_fn(T, T) -> bool, e: T)
    ensures
        0 <= ins_pos(s, le, e) <= s.len(),
        forall|j: int| 0 <= j < ins_pos(s, le, e) ==> le(#[trigger] s[j], e),
        ins_pos(s, le, e) < s.len() ==> !le(s[ins_pos(s, le, e)], e),
    decreases s.len(),
{
    if s.len() > 0 && le(s[0], e) {
        lemma_ins_pos_bounds(s.drop_first(), le, e);
        assert forall|j: int| 0 <= j < ins_pos(s, le, e) implies le(#[trigger] s[j], e) by {
            if j > 0 {
                assert(s[j] == s.drop_first()[j - 1]);
            }
        }
    }
}

pub proof fn lemma_ins_pos_skip<T>(s: Seq<T>, le: spec_fn(T, T) -> bool, e: T, j: int)
    requires
        0 <= j <= s.len(),
        forall|k: int| 0 <= k < j ==> le(#[trigger] s[k], e),
    ensures
        ins_pos(s, le, e) == j + ins_pos(s.skip(j), le, e),
    decreases j,
{
    if j > 0 {
        assert(s.skip(1) =~= s.drop_first());
        assert forall|k: int| 0 <= k < j - 1 implies le(#[trigger] s.drop_first()[k], e) by {
            assert(s.drop_first()[k] == s[k + 1]);
        }
        lemma_ins_pos_skip(s.drop_first(), le, e, j - 1);
        assert(s.drop_first().skip(j - 1) =~= s.skip(j));
    } else {
        assert(s.skip(0) =~= s);
    }
}

pub proof fn lemma_stable_sort_len<T>(s: Seq<T>, le: spec_fn(T, T) -> bool)
    ensures
        stable_sort(s, le).len() == s.len(),
    decreases s.len(),
{
    if s.len() > 0 {
        lemma_stable_sort_len(s.drop_last(), le);
        lemma_ins_pos_bounds(stable_sort(s.drop_last(), le), le, s.last());
    }
}

pub proof fn lemma_stable_sort_elems<T>(s: Seq<T>, le: spec_fn(T, T) -> bool)
    ensures
        forall|k: int|
            0 <= k < stable_sort(s, le).len() ==> exists|j: int|
                0 <= j < s.len() && #[trigger] stable_sort(s, le)[k] == s[j],
    decreases s.len(),
{
    lemma_stable_sort_len(s, le);
    if s.len() > 0 {
        let dl = s.drop_last();
        lemma_stable_sort_elems(dl, le);
        let p = stable_sort(dl, le);
        lemma_stable_sort_len(dl, le);
        let pos = ins_pos(p, le, s.last());
        lemma_ins_pos_bounds(p, le, s.last());
        let r = stable_sort(s, le);
        assert(r == p.insert(pos, s.last()));
        assert forall|k: int| 0 <= k < r.len() implies exists|j: int|
            0 <= j < s.len() && #[trigger] r[k] == s[j] by {
            if k < pos {
                assert(r[k] == p[k]);
                let j = choose|j: int| 0 <= j < dl.len() && p[k] == dl[j];
                assert(s[j] == dl[j]);
            } else if k == pos {
                assert(r[k] == s[s.len() - 1]);
            } else {
                assert(r[k] == p[k - 1]);
                let j = choose|j: int| 0 <= j < dl.len() && p[k - 1] == dl[j];
                assert(s[j] == dl[j]);
            }
        }
    }
}


/// `le` is a total preorder: any two elements compare, and comparisons
/// chain.
pub open spec fn total_preorder<T>(le: spec_fn(T, T) -> bool) -> bool {
    &&& forall|a: T, b: T| #[trigger] le(a, b) || le(b, a)
    &&& forall|a: T, b: T, c: T| #[trigger] le(a, b) && #[trigger] le(b, c) ==> le(a, c)
}

/// In order under `le`.
pub open spec fn sorted_by<T>(s: Seq<T>, le: spec_fn(T, T) -> bool) -> bool {
    forall|p: int, q: int| 0 <= p < q < s.len() ==> le(#[trigger] s[p], #[trigger] s[q])
}

/// A stable sort under a total preorder puts its elements in order.
pub proof fn lemma_stable_sort_sorted<T>(s: Seq<T>, le: spec_fn(T, T) -> bool)
    requires
        total_preorder(le),
    ensures
        sorted_by(stable_sort(s, le), le),
    decreases s.len(),
{
    if s.len() > 0 {
        let p = stable_sort(s.drop_last(), le);
        lemma_stable_sort_sorted(s.drop_last(), le);
        let e = s.last();
        let pos = ins_pos(p, le, e);
        lemma_ins_pos_bounds(p, le, e);
        p.insert_ensures(pos, e);
        let r = p.insert(pos, e);
        assert(stable_sort(s, le) == r);
        if pos < p.len() {
            assert(le(e, p[pos]));
        }
        assert forall|a: int, b: int| 0 <= a < b < r.len() implies le(#[trigger] r[a], #[trigger] r[b]) by {
            if b < pos {
                assert(r[a] == p[a] && r[b] == p[b]);
            } else if b == pos {
                assert(r[a] == p[a] && r[b] == e);
            } else if a < pos {
                assert(r[a] == p[a] && r[b] == p[b - 1]);
                assert(le(p[a], e));
                assert(le(e, p[pos]));
                if pos < b - 1 {
                    assert(le(p[pos], p[b - 1]));
                }
            } else if a == pos {
                assert(r[b] == p[b - 1]);
                if pos < b - 1 {
                    assert(le(p[pos], p[b - 1]));
                }
            } else {
                assert(r[a] == p[a - 1] && r[b] == p[b - 1]);
            }
        }
    }
}


/// A stable sort keeps every element.
pub proof fn lemma_stable_sort_contains<T>(s: Seq<T>, le: spec_fn(T, T) -> bool)
    ensures
        forall|j: int| 0 <= j < s.len() ==> stable_sort(s, le).contains(#[trigger] s[j]),
    decreases s.len(),
{
    if s.len() > 0 {
        let d = s.drop_last();
        lemma_stable_sort_contains(d, le);
        let p = stable_sort(d, le);
        let e = s.last();
        let pos = ins_pos(p, le, e);
        lemma_ins_pos_bounds(p, le, e);
        p.insert_ensures(pos, e);
        let r = p.insert(pos, e);
        assert(stable_sort(s, le) == r);
        assert forall|j: int| 0 <= j < s.len() implies r.contains(#[trigger] s[j]) by {
            if j == s.len() - 1 {
                assert(r[pos] == e);
            } else {
                assert(d[j] == s[j]);
                let k = choose|k: int| 0 <= k < p.len() && p[k] == d[j];
                if k < pos {
                    assert(r[k] == p[k]);
                } else {
                    assert(r[k + 1] == p[k]);
                }
            }
        }
    }
}

/// A stable sort of a sequence without repeats has none.
pub proof fn lemma_stable_sort_no_dup<T>(s: Seq<T>, le: spec_fn(T, T) -> bool)
    requires
        no_dup(s),
    ensures
        no_dup(stable_sort(s, le)),
    decreases s.len(),
{
    if s.len() > 0 {
        let d = s.drop_last();
        assert forall|p: int, q: int| 0 <= p < q < d.len() implies d[p] != d[q] by {
            assert(d[p] == s[p] && d[q] == s[q]);
        }
        lemma_stable_sort_no_dup(d, le);
        lemma_stable_sort_elems(d, le);
        lemma_stable_sort_len(d, le);
        let p = stable_sort(d, le);
        let e = s.last();
        let pos = ins_pos(p, le, e);
        lemma_ins_pos_bounds(p, le, e);
        p.insert_ensures(pos, e);
        let r = p.insert(pos, e);
        assert(stable_sort(s, le) == r);
        assert forall|k: int| 0 <= k < p.len() implies #[trigger] p[k] != e by {
            let j = choose|j: int| 0 <= j < d.len() && p[k] == d[j];
            assert(d[j] == s[j]);
        }
        assert forall|a: int, b: int| 0 <= a < b < r.len() implies r[a] != r[b] by {
            if b < pos {
                assert(r[a] == p[a] && r[b] == p[b]);
            } else if b == pos {
                assert(r[a] == p[a]);
            } else if a < pos {
                assert(r[a] == p[a] && r[b] == p[b - 1]);
            } else if a == pos {
                assert(r[b] == p[b - 1]);
            } else {
                assert(r[a] == p[a - 1] && r[b] == p[b - 1]);
            }
        }
    }
}

/// Filtering keeps a sequence whole exactly when every element passes.
pub proof fn lemma_filter_keeps_all<A>(s: Seq<A>, pred: spec_fn(A) -> bool)
    ensures
        (s.filter(pred).len() == s.len()) == (forall|i: int| 0 <= i < s.len() ==> pred(s[i])),
        (forall|i: int| 0 <= i < s.len() ==> pred(s[i])) ==> s.filter(pred) == s,
    decreases s.len(),
{
    reveal(Seq::filter);
    if s.len() > 0 {
        let d = s.drop_last();
        lemma_filter_keeps_all(d, pred);
        d.lemma_filter_len(pred);
        if forall|i: int| 0 <= i < s.len() ==> pred(s[i]) {
            assert forall|i: int| 0 <= i < d.len() implies pred(d[i]) by {
                assert(d[i] == s[i]);
            }
            assert(s.filter(pred) =~= s);
        } else {
            let k = choose|k: int| 0 <= k < s.len() && !pred(s[k]);
            if k == s.len() - 1 {
                assert(s.filter(pred) == d.filter(pred));
            } else {
                assert(d[k] == s[k]);
                assert(d.filter(pred).len() < d.len());
            }
        }
    }
}


/// No element occurs twice.
pub open spec fn no_dup<A>(s: Seq<A>) -> bool {
    forall|p: int, q: int| 0 <= p < q < s.len() ==> s[p] != s[q]
}

/// Where an element of a concatenation of sequences comes from.
pub proof fn lemma_flatten_index<A>(gs: Seq<Seq<A>>, i: int)
    requires
        0 <= i < gs.flatten().len(),
    ensures
        exists|k: int, j: int|
            0 <= k < gs.len() && 0 <= j < gs[k].len() && gs.flatten()[i] == #[trigger] gs[k][j],
    decreases gs.len(),
{
    if gs.len() > 0 {
        let rest = gs.drop_first();
        let f = gs.flatten();
        assert(f == gs[0] + rest.flatten());
        if i < gs[0].len() {
            assert(f[i] == gs[0][i]);
        } else {
            lemma_flatten_index(rest, i - gs[0].len());
            let (k, j) = choose|k: int, j: int|
                0 <= k < rest.len() && 0 <= j < rest[k].len() && rest.flatten()[i - gs[0].len()]
                    == #[trigger] rest[k][j];
            assert(rest[k] == gs[k + 1]);
            assert(f[i] == gs[k + 1][j]);
        }
    }
}

/// Every element of every part is in the concatenation.
pub proof fn lemma_flatten_contains<A>(gs: Seq<Seq<A>>, k: int, j: int)
    requires
        0 <= k < gs.len(),
        0 <= j < gs[k].len(),
    ensures
        gs.flatten().contains(gs[k][j]),
    decreases gs.len(),
{
    let rest = gs.drop_first();
    let f = gs.flatten();
    assert(f == gs[0] + rest.flatten());
    if k == 0 {
        assert(f[j] == gs[0][j]);
    } else {
        assert(rest[k - 1] == gs[k]);
        lemma_flatten_contains(rest, k - 1, j);
        let p = choose|p: int| 0 <= p < rest.flatten().len() && rest.flatten()[p] == gs[k][j];
        assert(f[p + gs[0].len()] == rest.flatten()[p]);
    }
}

/// A concatenation of sequences that are each free of repeats and share no
/// element is free of repeats.
pub proof fn lemma_flatten_no_dup<A>(gs: Seq<Seq<A>>)
    requires
        forall|k: int| 0 <= k < gs.len() ==> no_dup(#[trigger] gs[k]),
        forall|k1: int, k2: int, j1: int, j2: int|
            0 <= k1 < k2 < gs.len() && 0 <= j1 < gs[k1].len() && 0 <= j2 < gs[k2].len()
                ==> #[trigger] gs[k1][j1] != #[trigger] gs[k2][j2],
    ensures
        no_dup(gs.flatten()),
    decreases gs.len(),
{
    if gs.len() > 0 {
        let rest = gs.drop_first();
        assert forall|k: int| 0 <= k < rest.len() implies no_dup(#[trigger] rest[k]) by {
            assert(rest[k] == gs[k + 1]);
        }
        assert forall|k1: int, k2: int, j1: int, j2: int|
            0 <= k1 < k2 < rest.len() && 0 <= j1 < rest[k1].len() && 0 <= j2 < rest[k2].len()
                implies #[trigger] rest[k1][j1] != #[trigger] rest[k2][j2] by {
            assert(rest[k1] == gs[k1 + 1] && rest[k2] == gs[k2 + 1]);
        }
        lemma_flatten_no_dup(rest);
        let a = gs[0];
        let r = rest.flatten();
        let f = gs.flatten();
        assert(f == a + r);
        assert forall|p: int, q: int| 0 <= p < q < f.len() implies f[p] != f[q] by {
            if q < a.len() {
                assert(f[p] == a[p] && f[q] == a[q]);
            } else if p >= a.len() {
                assert(f[p] == r[p - a.len()] && f[q] == r[q - a.len()]);
            } else {
                lemma_flatten_index(rest, q - a.len());
                let (k, j) = choose|k: int, j: int|
                    0 <= k < rest.len() && 0 <= j < rest[k].len() && r[q - a.len()]
                        == #[trigger] rest[k][j];
                assert(rest[k] == gs[k + 1]);
                assert(f[p] == gs[0][p]);
                assert(gs[0][p] != gs[k + 1][j]);
            }
        }
    }
}

} // verus!
