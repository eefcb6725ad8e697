//! Ordered sequences produced by `order_by`, `order_by_descending`, `order`
//! and `order_descending`, refined by `then_by`, `then_by_descending` and
//! `then_by_with`: the analogue of C#'s `IOrderedEnumerable<T>`.
//!
//! Each refinement sorts stably inside the runs of elements that all the
//! earlier keys left equal, so the result is ordered lexicographically by the
//! keys in the order they were given, and elements equal under every key
//! keep their source order.
use vstd::prelude::*;

use core::cmp::Ordering;
use crate::compare::{bytes_order, compare_text, lemma_bytes_order_antisym, lemma_bytes_order_trans};
use crate::keyed::{firsts, key_callable, key_list, keys_trace, pair_up, seconds};
use vstd::string::StringSliceAdditionalSpecFns;
use vstd::utf8::encode_utf8;

verus! {

// ═══════════════════════════════════════════════════════════════════════
// Sort keys
// ═══════════════════════════════════════════════════════════════════════

/// A key type with a total order, usable by `order_by` and `then_by`.
pub trait SortKey: Sized {
    /// `a` sorts no later than `b`.
    spec fn spec_le(a: Self, b: Self) -> bool;

    /// Any two keys are comparable.
    proof fn lemma_total(a: Self, b: Self)
        ensures
            Self::spec_le(a, b) || Self::spec_le(b, a),
    ;

    /// The order is transitive.
    proof fn lemma_transitive(a: Self, b: Self, c: Self)
        requires
            Self::spec_le(a, b),
            Self::spec_le(b, c),
        ensures
            Self::spec_le(a, c),
    ;

    /// Computes [`SortKey::spec_le`].
    fn key_le(&self, other: &Self) -> (r: bool)
        ensures
            r == Self::spec_le(*self, *other),
    ;
}

impl SortKey for i64 {
    open spec fn spec_le(a: Self, b: Self) -> bool {
        a <= b
    }

    proof fn lemma_total(a: Self, b: Self) {
    }

    proof fn lemma_transitive(a: Self, b: Self, c: Self) {
    }

    fn key_le(&self, other: &Self) -> (r: bool) {
        *self <= *other
    }
}

impl SortKey for i32 {
    open spec fn spec_le(a: Self, b: Self) -> bool {
        a <= b
    }

    proof fn lemma_total(a: Self, b: Self) {
    }

    proof fn lemma_transitive(a: Self, b: Self, c: Self) {
    }

    fn key_le(&self, other: &Self) -> (r: bool) {
        *self <= *other
    }
}

impl SortKey for u64 {
    open spec fn spec_le(a: Self, b: Self) -> bool {
        a <= b
    }

    proof fn lemma_total(a: Self, b: Self) {
    }

    proof fn lemma_transitive(a: Self, b: Self, c: Self) {
    }

    fn key_le(&self, other: &Self) -> (r: bool) {
        *self <= *other
    }
}

impl SortKey for u32 {
    open spec fn spec_le(a: Self, b: Self) -> bool {
        a <= b
    }

    proof fn lemma_total(a: Self, b: Self) {
    }

    proof fn lemma_transitive(a: Self, b: Self, c: Self) {
    }

    fn key_le(&self, other: &Self) -> (r: bool) {
        *self <= *other
    }
}

impl SortKey for usize {
    open spec fn spec_le(a: Self, b: Self) -> bool {
        a <= b
    }

    proof fn lemma_total(a: Self, b: Self) {
    }

    proof fn lemma_transitive(a: Self, b: Self, c: Self) {
    }

    fn key_le(&self, other: &Self) -> (r: bool) {
        *self <= *other
    }
}

impl SortKey for bool {
    /// `false` sorts before `true`.
    open spec fn spec_le(a: Self, b: Self) -> bool {
        !a || b
    }

    proof fn lemma_total(a: Self, b: Self) {
    }

    proof fn lemma_transitive(a: Self, b: Self, c: Self) {
    }

    fn key_le(&self, other: &Self) -> (r: bool) {
        !*self || *other
    }
}

impl SortKey for char {
    /// By code point.
    open spec fn spec_le(a: Self, b: Self) -> bool {
        a <= b
    }

    proof fn lemma_total(a: Self, b: Self) {
    }

    proof fn lemma_transitive(a: Self, b: Self, c: Self) {
    }

    fn key_le(&self, other: &Self) -> (r: bool) {
        *self <= *other
    }
}

impl<'a> SortKey for &'a str {
    /// By UTF-8 bytes, as `Ord` orders strings.
    open spec fn spec_le(a: Self, b: Self) -> bool {
        bytes_order(a.spec_bytes(), b.spec_bytes()) <= 0
    }

    proof fn lemma_total(a: Self, b: Self) {
        lemma_bytes_order_antisym(a.spec_bytes(), b.spec_bytes());
    }

    proof fn lemma_transitive(a: Self, b: Self, c: Self) {
        lemma_bytes_order_trans(a.spec_bytes(), b.spec_bytes(), c.spec_bytes());
    }

    fn key_le(&self, other: &Self) -> (r: bool) {
        compare_text(*self, *other) <= 0
    }
}

impl SortKey for String {
    /// By UTF-8 bytes, as `Ord` orders strings.
    open spec fn spec_le(a: Self, b: Self) -> bool {
        bytes_order(encode_utf8(a@), encode_utf8(b@)) <= 0
    }

    proof fn lemma_total(a: Self, b: Self) {
        lemma_bytes_order_antisym(encode_utf8(a@), encode_utf8(b@));
    }

    proof fn lemma_transitive(a: Self, b: Self, c: Self) {
        lemma_bytes_order_trans(encode_utf8(a@), encode_utf8(b@), encode_utf8(c@));
    }

    fn key_le(&self, other: &Self) -> (r: bool) {
        compare_text(self.as_str(), other.as_str()) <= 0
    }
}

impl<'a> SortKey for &'a String {
    /// By UTF-8 bytes, as `Ord` orders strings.
    open spec fn spec_le(a: Self, b: Self) -> bool {
        bytes_order(encode_utf8(a@), encode_utf8(b@)) <= 0
    }

    proof fn lemma_total(a: Self, b: Self) {
        lemma_bytes_order_antisym(encode_utf8(a@), encode_utf8(b@));
    }

    proof fn lemma_transitive(a: Self, b: Self, c: Self) {
        lemma_bytes_order_trans(encode_utf8(a@), encode_utf8(b@), encode_utf8(c@));
    }

    fn key_le(&self, other: &Self) -> (r: bool) {
        compare_text(self.as_str(), other.as_str()) <= 0
    }
}

impl<A: SortKey, B: SortKey> SortKey for (A, B) {
    /// Lexicographically, as `Ord` orders pairs: by the first component,
    /// then by the second among equal first components.
    open spec fn spec_le(a: Self, b: Self) -> bool {
        A::spec_le(a.0, b.0) && (!A::spec_le(b.0, a.0) || B::spec_le(a.1, b.1))
    }

    proof fn lemma_total(a: Self, b: Self) {
        A::lemma_total(a.0, b.0);
        B::lemma_total(a.1, b.1);
    }

    proof fn lemma_transitive(a: Self, b: Self, c: Self) {
        A::lemma_transitive(a.0, b.0, c.0);
        if A::spec_le(c.0, a.0) {
            A::lemma_transitive(b.0, c.0, a.0);
            A::lemma_transitive(c.0, a.0, b.0);
            B::lemma_transitive(a.1, b.1, c.1);
        }
    }

    fn key_le(&self, other: &Self) -> (r: bool) {
        if !self.0.key_le(&other.0) {
            false
        } else if !other.0.key_le(&self.0) {
            true
        } else {
            self.1.key_le(&other.1)
        }
    }
}

// ═══════════════════════════════════════════════════════════════════════
// Stable sorting over a total preorder
// ═══════════════════════════════════════════════════════════════════════

/// `rel` is total and transitive on the elements of `s`.
pub open spec fn total_preorder_on<E>(rel: spec_fn(E, E) -> bool, s: Seq<E>) -> bool {
    &&& forall|i: int, j: int|
        0 <= i < s.len() && 0 <= j < s.len() ==> #[trigger] rel(s[i], s[j]) || #[trigger] rel(s[j], s[i])
    &&& forall|i: int, j: int, k: int|
        0 <= i < s.len() && 0 <= j < s.len() && 0 <= k < s.len() && #[trigger] rel(s[i], s[j])
            && #[trigger] rel(s[j], s[k]) ==> rel(s[i], s[k])
}

/// Some entry of `out` is tagged with source position `p`.
pub open spec fn has_tag<E>(out: Seq<(usize, E)>, p: int) -> bool {
    exists|a: int| 0 <= a < out.len() && (#[trigger] out[a]).0 == p
}

/// `out` is a stable sort of `src` under `rel`, each output entry tagged
/// with the source position it came from.
pub open spec fn is_stable_sort<E>(rel: spec_fn(E, E) -> bool, src: Seq<E>, out: Seq<(usize, E)>) -> bool {
    &&& out.len() == src.len()
    &&& forall|a: int| 0 <= a < out.len() ==> (#[trigger] out[a]).0 < src.len() && out[a].1 == src[out[a].0 as int]
    &&& forall|a: int, b: int| 0 <= a < b < out.len() ==> (#[trigger] out[a]).0 != (#[trigger] out[b]).0
    &&& forall|p: int| 0 <= p < src.len() ==> #[trigger] has_tag(out, p)
    &&& forall|a: int, b: int| 0 <= a < b < out.len() ==> rel(#[trigger] out[a].1, #[trigger] out[b].1)
    &&& forall|a: int, b: int|
        0 <= a < b < out.len() && rel(#[trigger] out[b].1, #[trigger] out[a].1) ==> out[a].0 < out[b].0
}

/// Two stable sorts of one sequence under one relation agree up to
/// position `a`.
proof fn lemma_stable_sort_prefix<E>(rel: spec_fn(E, E) -> bool, src: Seq<E>, t1: Seq<(usize, E)>, t2: Seq<(usize, E)>, a: int)
    requires
        is_stable_sort(rel, src, t1),
        is_stable_sort(rel, src, t2),
        0 <= a < t1.len(),
    ensures
        forall|x: int| 0 <= x <= a ==> t1[x] == t2[x],
    decreases a,
{
    if a > 0 {
        lemma_stable_sort_prefix(rel, src, t1, t2, a - 1);
    }
    let p = t1[a].0;
    let q = t2[a].0;
    if p != q {
        assert(has_tag(t2, p as int));
        let b = choose|b: int| 0 <= b < t2.len() && (#[trigger] t2[b]).0 == p;
        if b < a {
            assert(t1[b] == t2[b]);
            assert(t1[b].0 != t1[a].0);
        }
        assert(has_tag(t1, q as int));
        let c = choose|c: int| 0 <= c < t1.len() && (#[trigger] t1[c]).0 == q;
        if c < a {
            assert(t1[c] == t2[c]);
            assert(t2[c].0 != t2[a].0);
        }
        assert(rel(t1[a].1, t1[c].1));
        assert(rel(t2[a].1, t2[b].1));
        assert(t1[a].1 == src[p as int] && t1[c].1 == src[q as int]);
        assert(t2[a].1 == src[q as int] && t2[b].1 == src[p as int]);
        assert(p < q);
        assert(q < p);
    }
}

/// A stable sort is unique: two stable sorts of one sequence under one
/// relation are the same, entry for entry.
pub proof fn lemma_stable_sort_unique<E>(rel: spec_fn(E, E) -> bool, src: Seq<E>, t1: Seq<(usize, E)>, t2: Seq<(usize, E)>)
    requires
        is_stable_sort(rel, src, t1),
        is_stable_sort(rel, src, t2),
    ensures
        t1 == t2,
{
    assert forall|a: int| 0 <= a < t1.len() implies t1[a] == t2[a] by {
        lemma_stable_sort_prefix(rel, src, t1, t2, a);
    }
    assert(t1 =~= t2);
}

/// Stable insertion sort of `items` under the total preorder `rel`, which
/// `le` computes.
pub(crate) fn stable_sort<E, F: Fn(&E, &E) -> bool>(items: Vec<E>, le: &F, Ghost(rel): Ghost<spec_fn(E, E) -> bool>) -> (r: Vec<(usize, E)>)
    requires
        total_preorder_on(rel, items@),
        forall|i: int, j: int|
            0 <= i < items@.len() && 0 <= j < items@.len() ==> call_requires(*le, (&items@[i], &items@[j])),
        forall|i: int, j: int, b: bool|
            0 <= i < items@.len() && 0 <= j < items@.len() && call_ensures(*le, (&items@[i], &items@[j]), b)
                ==> b == rel(items@[i], items@[j]),
    ensures
        is_stable_sort(rel, items@, r@),
{
    let ghost src = items@;
    let _len: usize = items.len();
    let mut out: Vec<(usize, E)> = Vec::new();
    let mut i: usize = 0;
    for x in it: items.into_iter()
        invariant
            src == it.seq(),
            i == it.index(),
            i <= src.len(),
            src.len() <= usize::MAX,
            total_preorder_on(rel, src),
            forall|p: int, q: int| 0 <= p < src.len() && 0 <= q < src.len() ==> call_requires(*le, (&src[p], &src[q])),
            forall|p: int, q: int, b: bool|
                0 <= p < src.len() && 0 <= q < src.len() && call_ensures(*le, (&src[p], &src[q]), b) ==> b == rel(src[p], src[q]),
            out@.len() == i,
            forall|a: int| 0 <= a < out@.len() ==> (#[trigger] out@[a]).0 < i && out@[a].1 == src[out@[a].0 as int],
            forall|a: int, b: int| 0 <= a < b < out@.len() ==> (#[trigger] out@[a]).0 != (#[trigger] out@[b]).0,
            forall|p: int| 0 <= p < i ==> #[trigger] has_tag(out@, p),
            forall|a: int, b: int| 0 <= a < b < out@.len() ==> rel(#[trigger] out@[a].1, #[trigger] out@[b].1),
            forall|a: int, b: int|
                0 <= a < b < out@.len() && rel(#[trigger] out@[b].1, #[trigger] out@[a].1) ==> out@[a].0 < out@[b].0,
    {
        assert(it.index() < it.seq().len());
        assert(x == src[i as int]);
        let ghost before = out@;
        // Find the insertion point: after every element that sorts no later than `x`.
        let mut j: usize = out.len();
        while j > 0
            invariant
                before == out@,
                0 <= j <= out@.len(),
                x == src[i as int],
                i < src.len(),
                forall|a: int| 0 <= a < out@.len() ==> (#[trigger] out@[a]).0 < i && out@[a].1 == src[out@[a].0 as int],
                forall|p: int, q: int| 0 <= p < src.len() && 0 <= q < src.len() ==> call_requires(*le, (&src[p], &src[q])),
                forall|p: int, q: int, b: bool|
                    0 <= p < src.len() && 0 <= q < src.len() && call_ensures(*le, (&src[p], &src[q]), b) ==> b == rel(src[p], src[q]),
                forall|b: int| j <= b < out@.len() ==> !rel(#[trigger] out@[b].1, x),
            ensures
                0 <= j <= out@.len(),
                forall|b: int| j <= b < out@.len() ==> !rel(#[trigger] out@[b].1, x),
                j > 0 ==> rel(out@[j - 1].1, x),
            decreases j,
        {
            let ghost p = out@[j - 1].0 as int;
            assert(out@[j - 1].1 == src[p]);
            let keep = le(&out[j - 1].1, &x);
            if keep {
                break;
            }
            j = j - 1;
        }
        proof {
            let n = before.len() as int;
            let xi = i as int;
            // Everything after the insertion point sorts strictly after `x`.
            assert forall|b: int| j <= b < n implies rel(x, #[trigger] before[b].1) by {
                let q = before[b].0 as int;
                assert(rel(src[q], src[xi]) || rel(src[xi], src[q]));
            }
            // Everything before it sorts no later than `x`.
            assert forall|a: int| 0 <= a < j implies rel(#[trigger] before[a].1, x) by {
                if a < j - 1 {
                    let pa = before[a].0 as int;
                    let pj = before[j - 1].0 as int;
                    assert(rel(before[a].1, before[j - 1].1));
                    assert(rel(src[pa], src[pj]) && rel(src[pj], src[xi]));
                }
            }
        }
        out.insert(j, (i, x));
        proof {
            let n = before.len() as int;
            let ju = j as int;
            assert(out@ == before.insert(ju, (i, x)));
            assert forall|a: int| 0 <= a < out@.len() implies (#[trigger] out@[a]).0 < i + 1 && out@[a].1 == src[out@[a].0 as int] by {
                if a < ju {
                    assert(out@[a] == before[a]);
                } else if a > ju {
                    assert(out@[a] == before[a - 1]);
                }
            }
            assert forall|a: int, b: int| 0 <= a < b < out@.len() implies (#[trigger] out@[a]).0 != (#[trigger] out@[b]).0 by {
                let oa = if a < ju { before[a] } else if a == ju { (i, x) } else { before[a - 1] };
                let ob = if b < ju { before[b] } else if b == ju { (i, x) } else { before[b - 1] };
                assert(out@[a] == oa);
                assert(out@[b] == ob);
                if a != ju && b != ju {
                    let a0 = if a < ju { a } else { a - 1 };
                    let b0 = if b < ju { b } else { b - 1 };
                    assert(before[a0].0 != before[b0].0);
                }
            }
            assert forall|p: int| 0 <= p < i + 1 implies #[trigger] has_tag(out@, p) by {
                if p == i {
                    assert(out@[ju].0 == p);
                } else {
                    assert(has_tag(before, p));
                    let a0 = choose|a: int| 0 <= a < before.len() && (#[trigger] before[a]).0 == p;
                    if a0 < ju {
                        assert(out@[a0] == before[a0]);
                    } else {
                        assert(out@[a0 + 1] == before[a0]);
                    }
                }
            }
            assert forall|a: int, b: int| 0 <= a < b < out@.len() implies rel(#[trigger] out@[a].1, #[trigger] out@[b].1) by {
                if b < ju {
                    assert(out@[a] == before[a] && out@[b] == before[b]);
                } else if b == ju {
                    assert(out@[a] == before[a]);
                    assert(rel(before[a].1, x));
                } else if a == ju {
                    assert(out@[b] == before[b - 1]);
                    assert(rel(x, before[b - 1].1));
                } else if a < ju {
                    assert(out@[a] == before[a] && out@[b] == before[b - 1]);
                    assert(rel(before[a].1, before[b - 1].1));
                } else {
                    assert(out@[a] == before[a - 1] && out@[b] == before[b - 1]);
                    assert(rel(before[a - 1].1, before[b - 1].1));
                }
            }
            assert forall|a: int, b: int|
                0 <= a < b < out@.len() && rel(#[trigger] out@[b].1, #[trigger] out@[a].1) implies out@[a].0 < out@[b].0 by {
                if b < ju {
                    assert(out@[a] == before[a] && out@[b] == before[b]);
                } else if b == ju {
                    assert(out@[a] == before[a]);
                } else if a == ju {
                    assert(out@[b] == before[b - 1]);
                    assert(!rel(before[b - 1].1, x));
                } else if a < ju {
                    assert(out@[a] == before[a] && out@[b] == before[b - 1]);
                } else {
                    assert(out@[a] == before[a - 1] && out@[b] == before[b - 1]);
                }
            }
        }
        i = i + 1;
    }
    out
}

// ═══════════════════════════════════════════════════════════════════════
// Orders over source positions
// ═══════════════════════════════════════════════════════════════════════

/// `order` is total and transitive on the positions `0..n`.
pub open spec fn preorder_on_positions(order: spec_fn(int, int) -> bool, n: int) -> bool {
    &&& forall|p: int, q: int| 0 <= p < n && 0 <= q < n ==> #[trigger] order(p, q) || #[trigger] order(q, p)
    &&& forall|p: int, q: int, r: int|
        0 <= p < n && 0 <= q < n && 0 <= r < n && #[trigger] order(p, q) && #[trigger] order(q, r) ==> order(p, r)
}

/// `out` lists `source` sorted by `order` over source positions, positions
/// that `order` ranks equal keeping their source order; `perm[k]` is the
/// source position of `out[k]`.
pub open spec fn is_stable_order<T>(order: spec_fn(int, int) -> bool, source: Seq<T>, perm: Seq<int>, out: Seq<T>) -> bool {
    &&& perm.len() == source.len()
    &&& out.len() == source.len()
    &&& forall|k: int| 0 <= k < out.len() ==> 0 <= #[trigger] perm[k] < source.len() && out[k] == source[perm[k]]
    &&& forall|a: int, b: int| 0 <= a < b < out.len() ==> #[trigger] perm[a] != #[trigger] perm[b]
    &&& forall|a: int, b: int| 0 <= a < b < out.len() ==> order(#[trigger] perm[a], #[trigger] perm[b])
    &&& forall|a: int, b: int| 0 <= a < b < out.len() && order(#[trigger] perm[b], #[trigger] perm[a]) ==> perm[a] < perm[b]
}

/// Some position of `perm` holds `p`.
pub open spec fn covers(perm: Seq<int>, p: int) -> bool {
    exists|k: int| 0 <= k < perm.len() && #[trigger] perm[k] == p
}

/// The order that sorts by `first`, and by `second` among positions that
/// `first` ranks equal.
pub open spec fn then_order(first: spec_fn(int, int) -> bool, second: spec_fn(int, int) -> bool) -> spec_fn(int, int) -> bool {
    |p: int, q: int| (first(p, q) && !first(q, p)) || (first(p, q) && first(q, p) && second(p, q))
}

/// The order of positions by their keys, ascending or descending.
pub open spec fn key_order<K: SortKey>(keys: Seq<K>, descending: bool) -> spec_fn(int, int) -> bool {
    |p: int, q: int| if descending { K::spec_le(keys[q], keys[p]) } else { K::spec_le(keys[p], keys[q]) }
}

/// The order that ranks every position equal.
pub open spec fn all_equal_order() -> spec_fn(int, int) -> bool {
    |p: int, q: int| true
}

/// Sort entries by their run, then by their key.
pub open spec fn entry_le<K: SortKey, T>(descending: bool, a: (usize, K, T), b: (usize, K, T)) -> bool {
    a.0 < b.0 || (a.0 == b.0 && if descending { K::spec_le(b.1, a.1) } else { K::spec_le(a.1, b.1) })
}

/// Nondecreasing steps give a nondecreasing sequence.
proof fn lemma_steps_monotone(runs: Seq<usize>)
    requires
        forall|a: int| 0 <= a && a + 1 < runs.len() ==> #[trigger] runs[a] <= runs[a + 1],
    ensures
        forall|a: int, b: int| 0 <= a <= b < runs.len() ==> runs[a] <= runs[b],
    decreases runs.len(),
{
    if runs.len() > 0 {
        let init = runs.drop_last();
        assert forall|a: int| 0 <= a && a + 1 < init.len() implies #[trigger] init[a] <= init[a + 1] by {
            assert(runs[a] <= runs[a + 1]);
        }
        lemma_steps_monotone(init);
        assert forall|a: int, b: int| 0 <= a <= b < runs.len() implies runs[a] <= runs[b] by {
            if b < runs.len() - 1 {
                assert(init[a] <= init[b]);
            } else if a < b {
                assert(init[a] <= init[b - 1]);
                assert(runs[b - 1] <= runs[b]);
            }
        }
    }
}

// ═══════════════════════════════════════════════════════════════════════
// OrderedQueryable
// ═══════════════════════════════════════════════════════════════════════

/// A sequence sorted by one or more keys.
pub struct OrderedQueryable<T> {
    /// The elements, sorted by the keys given so far.
    items: Vec<T>,
    /// Run numbers: adjacent elements share a run exactly when every key so
    /// far ranks them equal.
    runs: Vec<usize>,
    /// The elements in source order.
    source: Ghost<Seq<T>>,
    /// The source position of each element of `items`.
    perm: Ghost<Seq<int>>,
    /// The order over source positions that the keys so far define.
    order: Ghost<spec_fn(int, int) -> bool>,
}

impl<T> OrderedQueryable<T> {
    /// The elements in source order.
    pub closed spec fn spec_source(&self) -> Seq<T> {
        self.source@
    }

    /// The order over source positions that the keys given so far define.
    pub closed spec fn spec_order(&self) -> spec_fn(int, int) -> bool {
        self.order@
    }

    /// The elements are the source stably sorted by the order, and the runs
    /// mark the stretches the order ranks equal.
    pub closed spec fn well_formed(&self) -> bool {
        let n = self.source@.len();
        let perm = self.perm@;
        let runs = self.runs@;
        &&& preorder_on_positions(self.order@, n as int)
        &&& is_stable_order(self.order@, self.source@, perm, self.items@)
        &&& forall|p: int| 0 <= p < n ==> #[trigger] covers(perm, p)
        &&& runs.len() == n
        &&& forall|a: int| 0 <= a < n ==> #[trigger] runs[a] <= a
        &&& forall|a: int| 0 <= a && a + 1 < n ==> #[trigger] runs[a] <= runs[a + 1]
        &&& forall|a: int|
            0 <= a && a + 1 < n ==> (#[trigger] runs[a + 1] == runs[a] <==> (self.order@)(perm[a + 1], perm[a]))
    }

    /// Two elements share a run exactly when the order ranks them equal.
    proof fn lemma_runs_are_classes(&self)
        requires
            self.well_formed(),
        ensures
            forall|a: int, b: int| 0 <= a <= b < self.runs@.len() ==> self.runs@[a] <= self.runs@[b],
            forall|a: int, b: int|
                0 <= a < self.runs@.len() && 0 <= b < self.runs@.len() ==> (self.runs@[a] == self.runs@[b] <==> (
                    self.order@)(self.perm@[a], self.perm@[b]) && (self.order@)(self.perm@[b], self.perm@[a])),
    {
        let n = self.runs@.len() as int;
        lemma_steps_monotone(self.runs@);
        assert forall|a: int, b: int| 0 <= a <= b < n implies (self.runs@[a] == self.runs@[b] <==> (self.order@)(
            self.perm@[b],
            self.perm@[a],
        )) by {
            self.lemma_run_span(a, b);
        }
        assert forall|a: int, b: int|
            0 <= a < n && 0 <= b < n implies (self.runs@[a] == self.runs@[b] <==> (self.order@)(self.perm@[a], self.perm@[b])
                && (self.order@)(self.perm@[b], self.perm@[a])) by {
            let o = self.order@;
            let pa = self.perm@[a];
            let pb = self.perm@[b];
            if a < b {
                assert(o(pa, pb));
                self.lemma_run_span(a, b);
            } else if b < a {
                assert(o(pb, pa));
                self.lemma_run_span(b, a);
            } else {
                assert(o(pa, pa) || o(pa, pa));
            }
        }
    }

    proof fn lemma_run_span(&self, a: int, b: int)
        requires
            self.well_formed(),
            0 <= a <= b < self.runs@.len(),
        ensures
            self.runs@[a] == self.runs@[b] <==> (self.order@)(self.perm@[b], self.perm@[a]),
        decreases b - a,
    {
        let o = self.order@;
        let perm = self.perm@;
        let runs = self.runs@;
        lemma_steps_monotone(runs);
        if a == b {
            assert(o(perm[a], perm[a]) || o(perm[a], perm[a]));
        } else {
            self.lemma_run_span(a, b - 1);
            assert(runs[b - 1 + 1] == runs[b - 1] <==> o(perm[b - 1 + 1], perm[b - 1]));
            assert(runs[a] <= runs[b - 1] && runs[b - 1] <= runs[b]);
            if o(perm[b], perm[a]) {
                if a < b - 1 {
                    assert(o(perm[a], perm[b - 1]));
                }
                assert(o(perm[b - 1], perm[b]));
                assert(o(perm[b], perm[b - 1]));
                if a < b - 1 {
                    assert(o(perm[b - 1], perm[a]));
                }
            }
            if runs[a] == runs[b] {
                assert(o(perm[b], perm[b - 1]));
                if a < b - 1 {
                    assert(o(perm[b - 1], perm[a]));
                }
            }
        }
    }
}


impl<T> OrderedQueryable<T> {
    /// `items`, not yet ordered by any key: the order ranks every position equal.
    pub(crate) fn new(items: Vec<T>) -> (r: Self)
        ensures
            r.well_formed(),
            r.spec_source() == items@,
            r.spec_order() == all_equal_order(),
    {
        let ghost src = items@;
        let n = items.len();
        let mut runs: Vec<usize> = Vec::new();
        let mut i: usize = 0;
        while i < n
            invariant
                i <= n,
                runs@.len() == i,
                forall|a: int| 0 <= a < i ==> #[trigger] runs@[a] == 0,
            decreases n - i,
        {
            runs.push(0);
            i = i + 1;
        }
        let ghost perm = Seq::new(n as nat, |k: int| k);
        let r = OrderedQueryable {
            items,
            runs,
            source: Ghost(src),
            perm: Ghost(perm),
            order: Ghost(all_equal_order()),
        };
        proof {
            assert forall|p: int| 0 <= p < n implies #[trigger] covers(perm, p) by {
                assert(perm[p] == p);
            }
        }
        r
    }

    /// An entry relation that sorts by run and then by `second` compares
    /// entries exactly as the refined order compares their source positions.
    proof fn lemma_entry_rel_iff<K>(
        &self,
        keys: Seq<K>,
        erel: spec_fn((usize, K, T), (usize, K, T)) -> bool,
        second: spec_fn(int, int) -> bool,
        a: int,
        b: int,
    )
        requires
            self.well_formed(),
            keys.len() == self.items@.len(),
            0 <= a < keys.len(),
            0 <= b < keys.len(),
            erel((self.runs@[a], keys[a], self.items@[a]), (self.runs@[b], keys[b], self.items@[b])) == (self.runs@[a]
                < self.runs@[b] || (self.runs@[a] == self.runs@[b] && second(self.perm@[a], self.perm@[b]))),
        ensures
            erel((self.runs@[a], keys[a], self.items@[a]), (self.runs@[b], keys[b], self.items@[b]))
                <==> then_order(self.order@, second)(self.perm@[a], self.perm@[b]),
    {
        self.lemma_runs_are_classes();
        let o = self.order@;
        let pa = self.perm@[a];
        let pb = self.perm@[b];
        if a < b {
            assert(o(pa, pb));
        } else if b < a {
            assert(o(pb, pa));
        } else {
            assert(o(pa, pa) || o(pa, pa));
        }
    }

    /// The same elements and source, sorted within each run by `second`, a
    /// total preorder over source positions. Each element is paired with a
    /// key (`keys`, in current position), and `le` computes `erel` on the
    /// entries `(run, key, element)`: by run, then by `second`.
    fn refine<K, F: Fn(&(usize, K, T), &(usize, K, T)) -> bool>(
        self,
        keys: Vec<K>,
        le: &F,
        Ghost(erel): Ghost<spec_fn((usize, K, T), (usize, K, T)) -> bool>,
        Ghost(second): Ghost<spec_fn(int, int) -> bool>,
    ) -> (r: Self)
        requires
            self.well_formed(),
            keys@.len() == self.items@.len(),
            preorder_on_positions(second, self.source@.len() as int),
            forall|a: int, b: int|
                0 <= a < keys@.len() && 0 <= b < keys@.len() ==> call_requires(
                    *le,
                    (&(self.runs@[a], keys@[a], self.items@[a]), &(self.runs@[b], keys@[b], self.items@[b])),
                ),
            forall|a: int, b: int, c: bool|
                0 <= a < keys@.len() && 0 <= b < keys@.len() && call_ensures(
                    *le,
                    (&(self.runs@[a], keys@[a], self.items@[a]), &(self.runs@[b], keys@[b], self.items@[b])),
                    c,
                ) ==> c == erel((self.runs@[a], keys@[a], self.items@[a]), (self.runs@[b], keys@[b], self.items@[b])),
            forall|a: int, b: int|
                0 <= a < keys@.len() && 0 <= b < keys@.len() ==> erel(
                    (self.runs@[a], keys@[a], self.items@[a]),
                    (self.runs@[b], keys@[b], self.items@[b]),
                ) == (self.runs@[a] < self.runs@[b] || (self.runs@[a] == self.runs@[b] && second(self.perm@[a], self.perm@[b]))),
        ensures
            r.well_formed(),
            r.spec_source() == self.spec_source(),
            r.spec_order() == then_order(self.spec_order(), second),
    {
        proof {
            self.lemma_runs_are_classes();
        }
        let ghost n = self.items@.len();
        let _len_items: usize = self.items.len();
        let ghost old_perm = self.perm@;
        let ghost old_order = self.order@;
        let ghost old_runs = self.runs@;
        let ghost old_items = self.items@;
        let ghost kv = keys@;
        let ghost new_order = then_order(old_order, second);
        proof {
            assert forall|a: int, b: int| 0 <= a < n && 0 <= b < n implies
                (erel((old_runs[a], kv[a], old_items[a]), (old_runs[b], kv[b], old_items[b]))
                    <==> new_order(old_perm[a], old_perm[b])) by {
                self.lemma_entry_rel_iff(kv, erel, second, a, b);
            }
        }
        let OrderedQueryable { items, runs, source, perm, order } = self;
        let pairs = pair_up(keys, items);
        let ghost ps = pairs@;
        proof {
            assert forall|k: int| 0 <= k < n implies #[trigger] ps[k] == (kv[k], old_items[k]) by {
                assert(firsts(ps)[k] == kv[k]);
                assert(seconds(ps)[k] == old_items[k]);
            }
        }
        let mut entries: Vec<(usize, K, T)> = Vec::new();
        let mut k: usize = 0;
        for pr in it: pairs.into_iter()
            invariant
                ps == it.seq(),
                k == it.index(),
                k <= n,
                n <= usize::MAX,
                ps.len() == n,
                kv.len() == n,
                old_items.len() == n,
                runs@ == old_runs,
                old_runs.len() == n,
                forall|m: int| 0 <= m < n ==> #[trigger] ps[m] == (kv[m], old_items[m]),
                entries@.len() == k,
                forall|m: int| 0 <= m < k ==> #[trigger] entries@[m] == (old_runs[m], kv[m], old_items[m]),
        {
            assert(it.index() < it.seq().len());
            assert(pr == ps[k as int]);
            let (key, item) = pr;
            entries.push((runs[k], key, item));
            k = k + 1;
        }
        let ghost es = entries@;
        proof {
            assert forall|i: int, j: int| 0 <= i < es.len() && 0 <= j < es.len() implies #[trigger] erel(es[i], es[j]) || #[trigger] erel(es[j], es[i]) by {
                assert(es[i] == (old_runs[i], kv[i], old_items[i]));
                assert(es[j] == (old_runs[j], kv[j], old_items[j]));
                assert(second(old_perm[i], old_perm[j]) || second(old_perm[j], old_perm[i]));
            }
            assert forall|i: int, j: int, l: int|
                0 <= i < es.len() && 0 <= j < es.len() && 0 <= l < es.len() && #[trigger] erel(es[i], es[j]) && #[trigger] erel(es[j], es[l])
                implies erel(es[i], es[l]) by {
                assert(es[i] == (old_runs[i], kv[i], old_items[i]));
                assert(es[j] == (old_runs[j], kv[j], old_items[j]));
                assert(es[l] == (old_runs[l], kv[l], old_items[l]));
                if old_runs[i] == old_runs[j] && old_runs[j] == old_runs[l] {
                    assert(second(old_perm[i], old_perm[j]) && second(old_perm[j], old_perm[l]));
                }
            }
            assert forall|i: int, j: int| 0 <= i < es.len() && 0 <= j < es.len() implies call_requires(*le, (&es[i], &es[j])) by {
                assert(es[i] == (old_runs[i], kv[i], old_items[i]));
                assert(es[j] == (old_runs[j], kv[j], old_items[j]));
            }
            assert forall|i: int, j: int, c: bool| 0 <= i < es.len() && 0 <= j < es.len() && call_ensures(*le, (&es[i], &es[j]), c) implies c == erel(es[i], es[j]) by {
                assert(es[i] == (old_runs[i], kv[i], old_items[i]));
                assert(es[j] == (old_runs[j], kv[j], old_items[j]));
            }
        }
        let sorted = stable_sort(entries, le, Ghost(erel));
        let ghost ss = sorted@;
        let _len: usize = sorted.len();
        // Where each sorted entry starts a new run: unless its predecessor
        // ranks equal to it both ways.
        let mut same: Vec<bool> = Vec::new();
        let mut m: usize = 0;
        while m < sorted.len()
            invariant
                ss == sorted@,
                is_stable_sort(erel, es, ss),
                es.len() == n,
                ss.len() == n,
                m <= n,
                same@.len() == m,
                forall|i: int, j: int| 0 <= i < es.len() && 0 <= j < es.len() ==> call_requires(*le, (&es[i], &es[j])),
                forall|i: int, j: int, c: bool| 0 <= i < es.len() && 0 <= j < es.len() && call_ensures(*le, (&es[i], &es[j]), c) ==> c == erel(es[i], es[j]),
                forall|j: int| 1 <= j < m ==> #[trigger] same@[j] == (erel(ss[j - 1].1, ss[j].1) && erel(ss[j].1, ss[j - 1].1)),
            decreases n - m,
        {
            if m == 0 {
                same.push(true);
            } else {
                let ghost ta = ss[m - 1].0 as int;
                let ghost tb = ss[m as int].0 as int;
                assert(es[ta] == ss[m - 1].1 && es[tb] == ss[m as int].1);
                let fwd = le(&sorted[m - 1].1, &sorted[m].1);
                let bwd = le(&sorted[m].1, &sorted[m - 1].1);
                same.push(fwd && bwd);
            }
            m = m + 1;
        }
        let mut new_items: Vec<T> = Vec::new();
        let mut new_runs: Vec<usize> = Vec::new();
        let ghost mut new_perm: Seq<int> = Seq::empty();
        let mut cur: usize = 0;
        let mut m: usize = 0;
        for e in it: sorted.into_iter()
            invariant
                ss == it.seq(),
                m == it.index(),
                m <= n,
                n <= usize::MAX,
                ss.len() == n,
                es.len() == n,
                old_perm.len() == n,
                same@.len() == n,
                forall|j: int| 1 <= j < n ==> #[trigger] same@[j] == (erel(ss[j - 1].1, ss[j].1) && erel(ss[j].1, ss[j - 1].1)),
                is_stable_sort(erel, es, ss),
                new_items@.len() == m,
                new_runs@.len() == m,
                new_perm.len() == m,
                forall|j: int| 0 <= j < m ==> #[trigger] new_perm[j] == old_perm[ss[j].0 as int],
                forall|j: int| 0 <= j < m ==> #[trigger] new_items@[j] == ss[j].1.2,
                forall|j: int| 0 <= j < m ==> #[trigger] new_runs@[j] <= j,
                forall|j: int| 0 <= j && j + 1 < m ==> #[trigger] new_runs@[j] <= new_runs@[j + 1],
                forall|j: int| 0 <= j && j + 1 < m ==> (#[trigger] new_runs@[j + 1] == new_runs@[j] <==> same@[j + 1]),
                m > 0 ==> cur == new_runs@[m - 1],
                m == 0 ==> cur == 0,
        {
            assert(it.index() < it.seq().len());
            assert(e == ss[m as int]);
            let (tag, entry) = e;
            let (_run, _key, item) = entry;
            if m > 0 && !same[m] {
                cur = cur + 1;
            }
            new_runs.push(cur);
            new_items.push(item);
            proof {
                new_perm = new_perm.push(old_perm[tag as int]);
            }
            m = m + 1;
        }
        let r = OrderedQueryable {
            items: new_items,
            runs: new_runs,
            source,
            perm: Ghost(new_perm),
            order: Ghost(new_order),
        };
        proof {
            let src = r.source@;
            assert(src.len() == n);
            // Entry comparisons are comparisons in the refined order.
            assert forall|a: int, b: int| 0 <= a < n && 0 <= b < n implies
                (erel(es[a], es[b]) <==> new_order(old_perm[a], old_perm[b])) by {
                assert(es[a] == (old_runs[a], kv[a], old_items[a]));
                assert(es[b] == (old_runs[b], kv[b], old_items[b]));
            }
            // The refined order is a total preorder.
            assert forall|p: int, q: int| 0 <= p < n && 0 <= q < n implies #[trigger] new_order(p, q) || #[trigger] new_order(q, p) by {
                assert(second(p, q) || second(q, p));
                assert(old_order(p, q) || old_order(q, p));
            }
            assert forall|p: int, q: int, t: int|
                0 <= p < n && 0 <= q < n && 0 <= t < n && #[trigger] new_order(p, q) && #[trigger] new_order(q, t) implies new_order(p, t) by {
                assert(old_order(p, q) && old_order(q, t));
                assert(old_order(p, t));
                if old_order(q, p) && old_order(t, q) {
                    assert(old_order(t, p));
                    assert(second(p, q) && second(q, t));
                }
                if old_order(t, p) {
                    assert(old_order(t, q));
                    assert(old_order(q, p));
                }
            }
            assert(preorder_on_positions(new_order, n as int));
            // The elements are the source stably sorted by the refined order.
            assert forall|j: int| 0 <= j < n implies 0 <= #[trigger] new_perm[j] < n && r.items@[j] == src[new_perm[j]] by {
                let t = ss[j].0 as int;
                assert(es[t] == ss[j].1);
                assert(old_items[t] == src[old_perm[t]]);
            }
            assert forall|a: int, b: int| 0 <= a < b < n implies #[trigger] new_perm[a] != #[trigger] new_perm[b] by {
                let ta = ss[a].0 as int;
                let tb = ss[b].0 as int;
                assert(ta != tb);
                if ta < tb {
                    assert(old_perm[ta] != old_perm[tb]);
                } else {
                    assert(old_perm[tb] != old_perm[ta]);
                }
            }
            assert forall|a: int, b: int| 0 <= a < b < n implies new_order(#[trigger] new_perm[a], #[trigger] new_perm[b]) by {
                let ta = ss[a].0 as int;
                let tb = ss[b].0 as int;
                assert(erel(ss[a].1, ss[b].1));
                assert(es[ta] == ss[a].1 && es[tb] == ss[b].1);
            }
            assert forall|a: int, b: int| 0 <= a < b < n && new_order(#[trigger] new_perm[b], #[trigger] new_perm[a]) implies new_perm[a] < new_perm[b] by {
                let ta = ss[a].0 as int;
                let tb = ss[b].0 as int;
                assert(es[ta] == ss[a].1 && es[tb] == ss[b].1);
                assert(erel(ss[b].1, ss[a].1));
                assert(erel(ss[a].1, ss[b].1));
                assert(ta < tb);
                assert(old_runs[ta] == old_runs[tb]);
                assert(old_order(old_perm[tb], old_perm[ta]));
            }
            assert(is_stable_order(new_order, src, new_perm, r.items@));
            assert forall|p: int| 0 <= p < n implies #[trigger] covers(new_perm, p) by {
                assert(covers(old_perm, p));
                let k0 = choose|k: int| 0 <= k < old_perm.len() && #[trigger] old_perm[k] == p;
                assert(has_tag(ss, k0));
                let a0 = choose|a: int| 0 <= a < ss.len() && (#[trigger] ss[a]).0 == k0;
                assert(new_perm[a0] == p);
            }
            // Runs mark exactly the stretches the refined order ranks equal.
            assert forall|j: int| 0 <= j && j + 1 < n implies (#[trigger] r.runs@[j + 1] == r.runs@[j] <==> new_order(new_perm[j + 1], new_perm[j])) by {
                let ta = ss[j].0 as int;
                let tb = ss[j + 1].0 as int;
                assert(es[ta] == ss[j].1 && es[tb] == ss[j + 1].1);
                assert(erel(ss[j].1, ss[j + 1].1));
                assert(same@[j + 1] == (erel(ss[j].1, ss[j + 1].1) && erel(ss[j + 1].1, ss[j].1)));
                assert(new_order(new_perm[j + 1], new_perm[j]) <==> erel(ss[j + 1].1, ss[j].1));
            }
        }
        r
    }

    /// The same elements and source, sorted within each run by `keys` (the
    /// key of each element, in its current position); `src_keys` holds the
    /// same keys by source position.
    fn refine_by_keys<K: SortKey>(self, keys: Vec<K>, descending: bool, Ghost(src_keys): Ghost<Seq<K>>) -> (r: Self)
        requires
            self.well_formed(),
            keys@.len() == self.items@.len(),
            src_keys.len() == self.source@.len(),
            forall|k: int| 0 <= k < keys@.len() ==> keys@[k] == src_keys[#[trigger] self.perm@[k]],
        ensures
            r.well_formed(),
            r.spec_source() == self.spec_source(),
            r.spec_order() == then_order(self.spec_order(), key_order(src_keys, descending)),
    {
        let ghost n = self.source@.len();
        let ghost second = key_order(src_keys, descending);
        let ghost erel = |x: (usize, K, T), y: (usize, K, T)| entry_le::<K, T>(descending, x, y);
        proof {
            assert forall|p: int, q: int| 0 <= p < n && 0 <= q < n implies #[trigger] second(p, q) || #[trigger] second(q, p) by {
                K::lemma_total(src_keys[p], src_keys[q]);
            }
            assert forall|p: int, q: int, t: int|
                0 <= p < n && 0 <= q < n && 0 <= t < n && #[trigger] second(p, q) && #[trigger] second(q, t) implies second(p, t) by {
                if descending {
                    K::lemma_transitive(src_keys[t], src_keys[q], src_keys[p]);
                } else {
                    K::lemma_transitive(src_keys[p], src_keys[q], src_keys[t]);
                }
            }
        }
        let le = |x: &(usize, K, T), y: &(usize, K, T)| -> (b: bool)
            ensures
                b == entry_le::<K, T>(descending, *x, *y),
            {
                if x.0 < y.0 {
                    true
                } else if y.0 < x.0 {
                    false
                } else if descending {
                    y.1.key_le(&x.1)
                } else {
                    x.1.key_le(&y.1)
                }
            };
        self.refine(keys, &le, Ghost(erel), Ghost(second))
    }
}

impl<T> OrderedQueryable<T> {
    /// The keys of the source elements, by source position, read off the
    /// keys of the sorted elements.
    spec fn keys_by_source<K>(&self, keys: Seq<K>) -> Seq<K> {
        Seq::new(self.source@.len(), |p: int| keys[choose|k: int| 0 <= k < self.perm@.len() && self.perm@[k] == p])
    }

    /// Computes the key of every element and refines the order by it.
    fn refine_by_key_fn<K: SortKey, F: Fn(&T) -> K>(self, key_fn: F, descending: bool) -> (r: Self)
        requires
            self.well_formed(),
            key_callable(key_fn, self.spec_source()),
        ensures
            r.well_formed(),
            r.spec_source() == self.spec_source(),
            exists|keys: Seq<K>|
                keys_trace(key_fn, self.spec_source(), keys) && r.spec_order() == then_order(
                    self.spec_order(),
                    key_order(keys, descending),
                ),
    {
        let ghost src = self.source@;
        let ghost perm = self.perm@;
        let ghost n = src.len();
        proof {
            assert forall|k: int| 0 <= k < self.items@.len() implies call_requires(key_fn, (&#[trigger] self.items@[k],)) by {
                assert(self.items@[k] == src[perm[k]]);
            }
        }
        let keys = key_list(&self.items, &key_fn);
        let ghost kv = keys@;
        let ghost src_keys = self.keys_by_source(kv);
        proof {
            assert forall|k: int| 0 <= k < kv.len() implies kv[k] == src_keys[#[trigger] perm[k]] by {
                assert(0 <= perm[k] < n);
                let c = choose|c: int| 0 <= c < perm.len() && perm[c] == perm[k];
                assert(perm[c] == perm[k]);
                if c < k {
                    assert(perm[c] != perm[k]);
                } else if k < c {
                    assert(perm[k] != perm[c]);
                }
            }
            assert forall|p: int| 0 <= p < n implies call_ensures(key_fn, (&src[p],), #[trigger] src_keys[p]) by {
                assert(covers(perm, p));
                let c = choose|c: int| 0 <= c < perm.len() && perm[c] == p;
                assert(self.items@[c] == src[perm[c]]);
                assert(call_ensures(key_fn, (&self.items@[c],), kv[c]));
            }
            assert(keys_trace(key_fn, src, src_keys));
        }
        self.refine_by_keys(keys, descending, Ghost(src_keys))
    }

    /// Further sorts by an ascending secondary key, applied only among
    /// elements that the keys so far rank equal.
    pub fn then_by<K: SortKey, F: Fn(&T) -> K>(self, key_fn: F) -> (r: Self)
        requires
            self.well_formed(),
            key_callable(key_fn, self.spec_source()),
        ensures
            r.well_formed(),
            r.spec_source() == self.spec_source(),
            exists|keys: Seq<K>|
                keys_trace(key_fn, self.spec_source(), keys) && r.spec_order() == then_order(
                    self.spec_order(),
                    key_order(keys, false),
                ),
    {
        self.refine_by_key_fn(key_fn, false)
    }

    /// Further sorts by a descending secondary key, applied only among
    /// elements that the keys so far rank equal.
    pub fn then_by_descending<K: SortKey, F: Fn(&T) -> K>(self, key_fn: F) -> (r: Self)
        requires
            self.well_formed(),
            key_callable(key_fn, self.spec_source()),
        ensures
            r.well_formed(),
            r.spec_source() == self.spec_source(),
            exists|keys: Seq<K>|
                keys_trace(key_fn, self.spec_source(), keys) && r.spec_order() == then_order(
                    self.spec_order(),
                    key_order(keys, true),
                ),
    {
        self.refine_by_key_fn(key_fn, true)
    }

    /// The sorted elements.
    pub fn to_vec(self) -> (r: Vec<T>)
        requires
            self.well_formed(),
        ensures
            exists|perm: Seq<int>| is_stable_order(self.spec_order(), self.spec_source(), perm, r@),
    {
        let ghost perm = self.perm@;
        let r = self.items;
        assert(is_stable_order(self.spec_order(), self.spec_source(), perm, r@));
        r
    }

    /// Number of elements.
    pub fn len(&self) -> (r: usize)
        requires
            self.well_formed(),
        ensures
            r == self.spec_source().len(),
    {
        self.items.len()
    }
}

// ═══════════════════════════════════════════════════════════════════════
// Comparators
// ═══════════════════════════════════════════════════════════════════════

/// Every possible outcome of `comparer(a, b)` ranks `a` no later than `b`.
pub open spec fn comparer_le<T, F: Fn(&T, &T) -> Ordering>(comparer: F, a: T, b: T) -> bool {
    forall|o: Ordering| #[trigger] call_ensures(comparer, (&a, &b), o) ==> o != Ordering::Greater
}

/// `comparer` may be called on any two elements of `s`, has one outcome for
/// each pair, and ranks the elements by a total preorder.
pub open spec fn comparer_total_on<T, F: Fn(&T, &T) -> Ordering>(comparer: F, s: Seq<T>) -> bool {
    &&& forall|i: int, j: int| 0 <= i < s.len() && 0 <= j < s.len() ==> call_requires(comparer, (&s[i], &s[j]))
    &&& forall|i: int, j: int, o1: Ordering, o2: Ordering|
        0 <= i < s.len() && 0 <= j < s.len() && #[trigger] call_ensures(comparer, (&s[i], &s[j]), o1)
            && #[trigger] call_ensures(comparer, (&s[i], &s[j]), o2) ==> o1 == o2
    &&& forall|i: int, j: int|
        0 <= i < s.len() && 0 <= j < s.len() ==> #[trigger] comparer_le(comparer, s[i], s[j]) || #[trigger] comparer_le(
            comparer,
            s[j],
            s[i],
        )
    &&& forall|i: int, j: int, k: int|
        0 <= i < s.len() && 0 <= j < s.len() && 0 <= k < s.len() && #[trigger] comparer_le(comparer, s[i], s[j])
            && #[trigger] comparer_le(comparer, s[j], s[k]) ==> comparer_le(comparer, s[i], s[k])
}

/// The order of positions of `source` by `comparer` on the elements there.
pub open spec fn comparer_order<T, F: Fn(&T, &T) -> Ordering>(comparer: F, source: Seq<T>) -> spec_fn(int, int) -> bool {
    |p: int, q: int| comparer_le(comparer, source[p], source[q])
}

/// Sort entries by their run, then by `comparer` on their elements.
pub open spec fn comparer_entry_le<T, F: Fn(&T, &T) -> Ordering>(comparer: F, a: (usize, (), T), b: (usize, (), T)) -> bool {
    a.0 < b.0 || (a.0 == b.0 && comparer_le(comparer, a.2, b.2))
}

impl<T> OrderedQueryable<T> {
    /// Further sorts with an explicit comparator, among elements that the
    /// keys so far rank equal; for keys that have no [`SortKey`] order.
    /// The comparator must rank the elements by a total preorder.
    pub fn then_by_with<F: Fn(&T, &T) -> Ordering>(self, comparer: F) -> (r: Self)
        requires
            self.well_formed(),
            comparer_total_on(comparer, self.spec_source()),
        ensures
            r.well_formed(),
            r.spec_source() == self.spec_source(),
            r.spec_order() == then_order(self.spec_order(), comparer_order(comparer, self.spec_source())),
    {
        let ghost src = self.source@;
        let ghost perm = self.perm@;
        let ghost n = src.len();
        let ghost second = comparer_order(comparer, src);
        let ghost erel = |x: (usize, (), T), y: (usize, (), T)| comparer_entry_le(comparer, x, y);
        let count = self.items.len();
        let mut keys: Vec<()> = Vec::new();
        let mut i: usize = 0;
        while i < count
            invariant
                i <= count,
                keys@.len() == i,
            decreases count - i,
        {
            keys.push(());
            i = i + 1;
        }
        proof {
            assert forall|p: int, q: int| 0 <= p < n && 0 <= q < n implies #[trigger] second(p, q) || #[trigger] second(q, p) by {
                assert(comparer_le(comparer, src[p], src[q]) || comparer_le(comparer, src[q], src[p]));
            }
            assert forall|p: int, q: int, t: int|
                0 <= p < n && 0 <= q < n && 0 <= t < n && #[trigger] second(p, q) && #[trigger] second(q, t) implies second(p, t) by {
                assert(comparer_le(comparer, src[p], src[q]) && comparer_le(comparer, src[q], src[t]));
            }
        }
        let cg: Ghost<F> = Ghost(comparer);
        let cmp_ref = &comparer;
        let le = |x: &(usize, (), T), y: &(usize, (), T)| -> (b: bool)
            requires
                call_requires(cg@, (&x.2, &y.2)),
            ensures
                x.0 < y.0 ==> b,
                y.0 < x.0 ==> !b,
                x.0 == y.0 ==> exists|o: Ordering| call_ensures(cg@, (&x.2, &y.2), o) && b == (o != Ordering::Greater),
            {
                if x.0 < y.0 {
                    true
                } else if y.0 < x.0 {
                    false
                } else {
                    let o = cmp_ref(&x.2, &y.2);
                    match o {
                        Ordering::Greater => false,
                        Ordering::Less => true,
                        Ordering::Equal => true,
                    }
                }
            };
        proof {
            let runs = self.runs@;
            let items = self.items@;
            let kv = keys@;
            assert forall|a: int, b: int| 0 <= a < kv.len() && 0 <= b < kv.len() implies call_requires(
                le,
                (&(runs[a], kv[a], items[a]), &(runs[b], kv[b], items[b])),
            ) by {
                assert(items[a] == src[perm[a]] && items[b] == src[perm[b]]);
                assert(call_requires(comparer, (&src[perm[a]], &src[perm[b]])));
            }
            assert forall|a: int, b: int, c: bool|
                0 <= a < kv.len() && 0 <= b < kv.len() && call_ensures(le, (&(runs[a], kv[a], items[a]), &(runs[b], kv[b], items[b])), c)
                implies c == erel((runs[a], kv[a], items[a]), (runs[b], kv[b], items[b])) by {
                assert(items[a] == src[perm[a]] && items[b] == src[perm[b]]);
                if runs[a] == runs[b] {
                    let o = choose|o: Ordering| call_ensures(comparer, (&items[a], &items[b]), o) && c == (o != Ordering::Greater);
                    assert forall|o2: Ordering| #[trigger] call_ensures(comparer, (&items[a], &items[b]), o2) implies o2 == o by {
                        assert(call_ensures(comparer, (&src[perm[a]], &src[perm[b]]), o2));
                    }
                }
            }
            assert forall|a: int, b: int| 0 <= a < kv.len() && 0 <= b < kv.len() implies erel(
                (runs[a], kv[a], items[a]),
                (runs[b], kv[b], items[b]),
            ) == (runs[a] < runs[b] || (runs[a] == runs[b] && second(perm[a], perm[b]))) by {
                assert(items[a] == src[perm[a]] && items[b] == src[perm[b]]);
            }
        }
        self.refine(keys, &le, Ghost(erel), Ghost(second))
    }
}

// ═══════════════════════════════════════════════════════════════════════
// Laws
// ═══════════════════════════════════════════════════════════════════════

/// Sorting by a key is stable: the output is ascending by key, and two
/// elements with equal keys keep their source order.
pub proof fn lemma_order_by_stable<K: SortKey, T>(keys: Seq<K>, source: Seq<T>, perm: Seq<int>, out: Seq<T>, a: int, b: int)
    requires
        is_stable_order(key_order(keys, false), source, perm, out),
        0 <= a < b < out.len(),
    ensures
        K::spec_le(keys[perm[a]], keys[perm[b]]),
        K::spec_le(keys[perm[b]], keys[perm[a]]) ==> perm[a] < perm[b],
{
    assert(key_order(keys, false)(perm[a], perm[b]));
}

/// Sorting by a key and then by a second key orders lexicographically: by
/// the first key, and by the second among elements whose first keys are equal.
pub proof fn lemma_then_by_lexicographic<K1: SortKey, K2: SortKey, T>(
    keys1: Seq<K1>,
    keys2: Seq<K2>,
    source: Seq<T>,
    perm: Seq<int>,
    out: Seq<T>,
    a: int,
    b: int,
)
    requires
        is_stable_order(then_order(key_order(keys1, false), key_order(keys2, false)), source, perm, out),
        0 <= a < b < out.len(),
    ensures
        K1::spec_le(keys1[perm[a]], keys1[perm[b]]),
        K1::spec_le(keys1[perm[b]], keys1[perm[a]]) ==> K2::spec_le(keys2[perm[a]], keys2[perm[b]]),
        K1::spec_le(keys1[perm[b]], keys1[perm[a]]) && K2::spec_le(keys2[perm[b]], keys2[perm[a]]) ==> perm[a] < perm[b],
{
    assert(then_order(key_order(keys1, false), key_order(keys2, false))(perm[a], perm[b]));
}

/// `then_by` and `then_by_descending` as a trait, for code that is generic
/// over ordered sequences.
pub trait ThenBy<T>: Sized {
    /// The ordered sequence this is.
    spec fn spec_ordered(&self) -> OrderedQueryable<T>;

    /// Further sorts by an ascending secondary key, applied only among
    /// elements that the keys so far rank equal.
    fn then_by<K: SortKey, F: Fn(&T) -> K>(self, key_fn: F) -> (r: OrderedQueryable<T>)
        requires
            self.spec_ordered().well_formed(),
            key_callable(key_fn, self.spec_ordered().spec_source()),
        ensures
            r.well_formed(),
            r.spec_source() == self.spec_ordered().spec_source(),
            exists|keys: Seq<K>|
                keys_trace(key_fn, self.spec_ordered().spec_source(), keys) && r.spec_order() == then_order(
                    self.spec_ordered().spec_order(),
                    key_order(keys, false),
                ),
    ;

    /// Further sorts by a descending secondary key, applied only among
    /// elements that the keys so far rank equal.
    fn then_by_descending<K: SortKey, F: Fn(&T) -> K>(self, key_fn: F) -> (r: OrderedQueryable<T>)
        requires
            self.spec_ordered().well_formed(),
            key_callable(key_fn, self.spec_ordered().spec_source()),
        ensures
            r.well_formed(),
            r.spec_source() == self.spec_ordered().spec_source(),
            exists|keys: Seq<K>|
                keys_trace(key_fn, self.spec_ordered().spec_source(), keys) && r.spec_order() == then_order(
                    self.spec_ordered().spec_order(),
                    key_order(keys, true),
                ),
    ;
}

impl<T> ThenBy<T> for OrderedQueryable<T> {
    open spec fn spec_ordered(&self) -> OrderedQueryable<T> {
        *self
    }

    fn then_by<K: SortKey, F: Fn(&T) -> K>(self, key_fn: F) -> (r: OrderedQueryable<T>) {
        OrderedQueryable::then_by(self, key_fn)
    }

    fn then_by_descending<K: SortKey, F: Fn(&T) -> K>(self, key_fn: F) -> (r: OrderedQueryable<T>) {
        OrderedQueryable::then_by_descending(self, key_fn)
    }
}

} // verus!

