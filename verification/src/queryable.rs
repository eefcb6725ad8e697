//! The [`LinqExt`] extension trait: C#-LINQ-style query operators on vectors.
use vstd::prelude::*;

use crate::error::SingleError;
use crate::grouping::Grouping;
use crate::lookup::Lookup;
use crate::summable::{partial_sums_fit, seq_total, total_of, Summable};
use crate::ordered::{all_equal_order, comparer_order, comparer_total_on, key_order, then_order, OrderedQueryable, SortKey};
use core::cmp::Ordering;
use crate::keyed::{
    clone_is_identity, clone_list, elems_of, filter_by_flags, first_occurrence_flags,
    first_occurrence_flags_hashed, first_occurrences, group_pairs_hashed, group_pairs_partial_eq,
    has_key, ident_eqv, is_grouping, key_callable, key_list, keys_of, keys_trace,
    membership_flags, membership_flags_hashed, pair_up, partial_eqv, as_ints, bucket_indices,
    clone_at, cloned_group, cross_eqv, join_row, joined_row, matched_indices, matching_indices,
};
use std::collections::HashSet;
use std::collections::HashMap;
use std::hash::Hash;
use vstd::std_specs::hash::obeys_key_model;
use vstd::std_specs::cmp::PartialEqSpec;

verus! {

// ═══════════════════════════════════════════════════════════════════════
// Spec helpers
// ═══════════════════════════════════════════════════════════════════════

/// The elements of `s` whose matching entry of `picks` is `true`, in order.
pub open spec fn filter_by<T>(s: Seq<T>, picks: Seq<bool>) -> Seq<T>
    decreases s.len(),
{
    if s.len() == 0 {
        Seq::empty()
    } else {
        let rest = filter_by(s.drop_last(), picks.drop_last());
        if picks.last() {
            rest.push(s.last())
        } else {
            rest
        }
    }
}

/// How many entries of `picks` are `true`.
pub open spec fn count_true(picks: Seq<bool>) -> nat
    decreases picks.len(),
{
    if picks.len() == 0 {
        0
    } else {
        count_true(picks.drop_last()) + if picks.last() { 1nat } else { 0nat }
    }
}

/// `picks` records one possible outcome of `predicate` on each element of `s`.
pub open spec fn picks_of<T, P: Fn(&T) -> bool>(predicate: P, s: Seq<T>, picks: Seq<bool>) -> bool {
    &&& picks.len() == s.len()
    &&& forall|i: int| 0 <= i < s.len() ==> call_ensures(predicate, (&s[i],), #[trigger] picks[i])
}

/// `picks` records one possible outcome of the indexed `predicate` on each element of `s`.
pub open spec fn indexed_picks_of<T, P: Fn(&T, usize) -> bool>(
    predicate: P,
    s: Seq<T>,
    picks: Seq<bool>,
) -> bool {
    &&& picks.len() == s.len()
    &&& forall|i: int|
        0 <= i < s.len() ==> call_ensures(predicate, (&s[i], i as usize), #[trigger] picks[i])
}

/// `predicate` may be called on every element of `s`.
pub open spec fn callable_on<T, P: Fn(&T) -> bool>(predicate: P, s: Seq<T>) -> bool {
    forall|i: int| 0 <= i < s.len() ==> call_requires(predicate, (&#[trigger] s[i],))
}

/// The indexed `predicate` may be called on every element of `s` with its index.
pub open spec fn indexed_callable_on<T, P: Fn(&T, usize) -> bool>(predicate: P, s: Seq<T>) -> bool {
    forall|i: int| 0 <= i < s.len() ==> call_requires(predicate, (&#[trigger] s[i], i as usize))
}

/// `k` is where a "while" scan over `s` stopped: `predicate` held on every
/// element before `k`, and (if `k` is inside `s`) did not hold at `k`.
pub open spec fn while_stop<T, P: Fn(&T) -> bool>(predicate: P, s: Seq<T>, k: int) -> bool {
    &&& 0 <= k <= s.len()
    &&& forall|i: int| 0 <= i < k ==> call_ensures(predicate, (&#[trigger] s[i],), true)
    &&& k < s.len() ==> call_ensures(predicate, (&s[k],), false)
}

/// The indexed form of [`while_stop`].
pub open spec fn indexed_while_stop<T, P: Fn(&T, usize) -> bool>(predicate: P, s: Seq<T>, k: int) -> bool {
    &&& 0 <= k <= s.len()
    &&& forall|i: int| 0 <= i < k ==> call_ensures(predicate, (&#[trigger] s[i], i as usize), true)
    &&& k < s.len() ==> call_ensures(predicate, (&s[k], k as usize), false)
}

/// `k` is where a search over `s` stopped: `predicate` was false on every
/// element before `k`, and (if `k` is inside `s`) true at `k`.
pub open spec fn search_stop<T, P: Fn(&T) -> bool>(predicate: P, s: Seq<T>, k: int) -> bool {
    &&& 0 <= k <= s.len()
    &&& forall|i: int| 0 <= i < k ==> call_ensures(predicate, (&#[trigger] s[i],), false)
    &&& k < s.len() ==> call_ensures(predicate, (&s[k],), true)
}

/// Like [`search_stop`] for a predicate that takes elements by value and
/// stops at the first element on which it returns `stop_on`.
pub open spec fn owned_scan_stop<T, P: Fn(T) -> bool>(predicate: P, s: Seq<T>, k: int, stop_on: bool) -> bool {
    &&& 0 <= k <= s.len()
    &&& forall|i: int| 0 <= i < k ==> call_ensures(predicate, (#[trigger] s[i],), !stop_on)
    &&& k < s.len() ==> call_ensures(predicate, (s[k],), stop_on)
}

/// The concatenation of the views of a sequence of vectors.
pub open spec fn flatten_views<U>(vs: Seq<Vec<U>>) -> Seq<U> {
    vs.map_values(|v: Vec<U>| v@).flatten()
}

/// A fold of `f` over `s` from `seed`: `accs[i + 1]` is one possible
/// outcome of `f(accs[i], s[i])`.
pub open spec fn fold_trace<T, Acc, F: Fn(Acc, T) -> Acc>(
    f: F,
    seed: Acc,
    s: Seq<T>,
    accs: Seq<Acc>,
) -> bool {
    &&& accs.len() == s.len() + 1
    &&& accs[0] == seed
    &&& forall|i: int|
        0 <= i < s.len() ==> call_ensures(f, (#[trigger] accs[i], s[i]), accs[i + 1])
}

/// `f` may be called with any accumulator and any element of `s`.
pub open spec fn fold_callable<T, Acc, F: Fn(Acc, T) -> Acc>(f: F, s: Seq<T>) -> bool {
    forall|acc: Acc, i: int| 0 <= i < s.len() ==> #[trigger] call_requires(f, (acc, s[i]))
}

/// Picking from a prefix one element longer.
pub proof fn lemma_filter_by_step<T>(s: Seq<T>, picks: Seq<bool>, i: int)
    requires
        0 <= i < s.len(),
        picks.len() == i + 1,
    ensures
        filter_by(s.take(i + 1), picks) == if picks[i] {
            filter_by(s.take(i), picks.drop_last()).push(s[i])
        } else {
            filter_by(s.take(i), picks.drop_last())
        },
{
    assert(s.take(i + 1).drop_last() == s.take(i));
}

/// As many elements are picked as there are `true` picks.
pub proof fn lemma_count_true_is_filter_len<T>(s: Seq<T>, picks: Seq<bool>)
    requires
        picks.len() == s.len(),
    ensures
        filter_by(s, picks).len() == count_true(picks),
    decreases s.len(),
{
    if s.len() > 0 {
        lemma_count_true_is_filter_len(s.drop_last(), picks.drop_last());
    }
}

/// Flattening with one more vector appends its elements.
pub proof fn lemma_flatten_views_push<U>(vs: Seq<Vec<U>>, v: Vec<U>)
    ensures
        flatten_views(vs.push(v)) == flatten_views(vs) + v@,
{
    let f = |v: Vec<U>| v@;
    assert(vs.push(v).map_values(f) == vs.map_values(f).push(v@));
    vs.map_values(f).lemma_flatten_push(v@);
}


/// The map from each key to the last element carrying it.
pub open spec fn last_by_key<K, T>(keys: Seq<K>, s: Seq<T>) -> Map<K, T>
    decreases s.len(),
{
    if s.len() == 0 || keys.len() == 0 {
        Map::empty()
    } else {
        last_by_key(keys.drop_last(), s.drop_last()).insert(keys.last(), s.last())
    }
}

/// `out` is one possible outcome of `result_fn` applied to a group's key and
/// a vector holding its elements.
pub open spec fn group_result<K, T, R, RF: Fn(K, Vec<T>) -> R>(result_fn: RF, g: Grouping<K, T>, out: R) -> bool {
    exists|v: Vec<T>| v@ == g.spec_elements() && call_ensures(result_fn, (g.spec_key(), v), out)
}

/// `out` is the fold of one group: its key, and one possible outcome of
/// folding its elements from `seed_fn(&key)` with `accum`.
pub open spec fn group_folded<K, T, Acc, SF: Fn(&K) -> Acc, AF: Fn(Acc, T) -> Acc>(
    seed_fn: SF,
    accum: AF,
    g: Grouping<K, T>,
    out: (K, Acc),
) -> bool {
    &&& out.0 == g.spec_key()
    &&& exists|seed: Acc, accs: Seq<Acc>|
        call_ensures(seed_fn, (&g.spec_key(),), seed) && fold_trace(accum, seed, g.spec_elements(), accs)
            && out.1 == accs[g.spec_elements().len() as int]
}


/// Folds `f` over `items` from `seed`.
fn fold_vec<T, Acc, F: Fn(Acc, T) -> Acc>(items: Vec<T>, seed: Acc, f: &F) -> (r: Acc)
    requires
        fold_callable(*f, items@),
    ensures
        exists|accs: Seq<Acc>| fold_trace(*f, seed, items@, accs) && r == accs[items@.len() as int],
{
    let ghost src = items@;
    let mut acc = seed;
    let ghost mut accs: Seq<Acc> = seq![seed];
    for x in it: items.into_iter()
        invariant
            src == it.seq(),
            fold_callable(*f, src),
            accs.len() == it.index() + 1,
            accs[0] == seed,
            forall|i: int| 0 <= i < it.index() ==> call_ensures(*f, (#[trigger] accs[i], src[i]), accs[i + 1]),
            acc == accs.last(),
    {
        let ghost i = it.index() as int;
        assert(x == src[i]);
        let ghost before = acc;
        assert(call_requires(*f, (before, src[i])));
        acc = f(acc, x);
        proof {
            accs = accs.push(acc);
            assert(accs[i] == before);
        }
    }
    proof {
        assert(fold_trace(*f, seed, src, accs));
    }
    acc
}

/// Folds each group from `seed_fn(&key)` with `accum`.
fn fold_groups<K, T, Acc, SF: Fn(&K) -> Acc, AF: Fn(Acc, T) -> Acc>(
    groups: Vec<Grouping<K, T>>,
    seed_fn: &SF,
    accum: &AF,
) -> (r: Vec<(K, Acc)>)
    requires
        forall|k: K| call_requires(*seed_fn, (&k,)),
        forall|acc: Acc, x: T| call_requires(*accum, (acc, x)),
    ensures
        r@.len() == groups@.len(),
        forall|j: int| 0 <= j < groups@.len() ==> #[trigger] group_folded(*seed_fn, *accum, groups@[j], r@[j]),
{
    let ghost src = groups@;
    let _len: usize = groups.len();
    let mut out: Vec<(K, Acc)> = Vec::new();
    let mut idx: usize = 0;
    for g in it: groups.into_iter()
        invariant
            src == it.seq(),
            idx == it.index(),
            idx <= src.len(),
            src.len() <= usize::MAX,
            forall|k: K| call_requires(*seed_fn, (&k,)),
            forall|acc: Acc, x: T| call_requires(*accum, (acc, x)),
            out@.len() == idx,
            forall|j: int| 0 <= j < out@.len() ==> #[trigger] group_folded(*seed_fn, *accum, src[j], out@[j]),
    {
        assert(it.index() < it.seq().len());
        assert(g == src[idx as int]);
        let ghost gg = g;
        let (k, elems) = g.into_parts();
        let seed = seed_fn(&k);
        let acc = fold_vec(elems, seed, accum);
        out.push((k, acc));
        proof {
            assert(group_folded(*seed_fn, *accum, gg, (k, acc)));
        }
        idx = idx + 1;
    }
    out
}

/// Counts the elements of each group.
fn count_groups<K, T>(groups: Vec<Grouping<K, T>>) -> (r: Vec<(K, usize)>)
    ensures
        r@.len() == groups@.len(),
        forall|j: int| 0 <= j < groups@.len() ==> #[trigger] r@[j] == (groups@[j].spec_key(), groups@[j].spec_elements().len() as usize),
{
    let ghost src = groups@;
    let _len: usize = groups.len();
    let mut out: Vec<(K, usize)> = Vec::new();
    let mut idx: usize = 0;
    for g in it: groups.into_iter()
        invariant
            src == it.seq(),
            idx == it.index(),
            idx <= src.len(),
            src.len() <= usize::MAX,
            out@.len() == idx,
            forall|j: int| 0 <= j < out@.len() ==> #[trigger] out@[j] == (src[j].spec_key(), src[j].spec_elements().len() as usize),
    {
        assert(it.index() < it.seq().len());
        assert(g == src[idx as int]);
        let (k, elems) = g.into_parts();
        out.push((k, elems.len()));
        idx = idx + 1;
    }
    out
}

/// `outs[i]` is one possible result of converting `s[i]` with `U::try_from`.
pub open spec fn conversions_of<T, U: TryFrom<T>>(s: Seq<T>, outs: Seq<Result<U, U::Error>>) -> bool {
    &&& outs.len() == s.len()
    &&& forall|i: int| 0 <= i < s.len() ==> call_ensures(U::try_from, (s[i],), #[trigger] outs[i])
}

/// The `Ok` values of `outs`, in order.
pub open spec fn oks<U, E>(outs: Seq<Result<U, E>>) -> Seq<U>
    decreases outs.len(),
{
    if outs.len() == 0 {
        Seq::empty()
    } else {
        let rest = oks(outs.drop_last());
        match outs.last() {
            Ok(u) => rest.push(u),
            Err(_) => rest,
        }
    }
}

/// Every possible conversion of every element of `s` succeeds.
pub open spec fn converts_all<T, U: TryFrom<T>>(s: Seq<T>) -> bool {
    forall|i: int, res: Result<U, U::Error>|
        0 <= i < s.len() && #[trigger] call_ensures(U::try_from, (s[i],), res) ==> res is Ok
}

/// Converts each element with `U::try_from`, keeping the successes.
fn convert_all<T, U: TryFrom<T>>(items: Vec<T>) -> (r: Vec<U>)
    ensures
        exists|outs: Seq<Result<U, U::Error>>| conversions_of(items@, outs) && r@ == oks(outs),
{
    let ghost src = items@;
    let _len: usize = items.len();
    let mut out: Vec<U> = Vec::new();
    let ghost mut outs: Seq<Result<U, U::Error>> = Seq::empty();
    let mut i: usize = 0;
    for x in it: items.into_iter()
        invariant
            src == it.seq(),
            i == it.index(),
            i <= src.len(),
            src.len() <= usize::MAX,
            outs.len() == i,
            forall|j: int| 0 <= j < i ==> call_ensures(U::try_from, (src[j],), #[trigger] outs[j]),
            out@ == oks(outs),
    {
        assert(it.index() < it.seq().len());
        assert(x == src[i as int]);
        let conv = U::try_from;
        let res = conv(x);
        proof {
            assert(outs.push(res).drop_last() == outs);
        }
        match res {
            Ok(u) => {
                proof {
                    outs = outs.push(Ok(u));
                }
                out.push(u);
            },
            Err(e) => {
                proof {
                    outs = outs.push(Err(e));
                }
            },
        }
        i = i + 1;
    }
    proof {
        assert(conversions_of(src, outs));
    }
    out
}

/// The `Ok` values of conversions that all succeeded: one per element.
pub proof fn lemma_oks_all_ok<T, U: TryFrom<T>>(s: Seq<T>, outs: Seq<Result<U, U::Error>>)
    requires
        conversions_of(s, outs),
        converts_all::<T, U>(s),
    ensures
        oks(outs).len() == s.len(),
        forall|i: int| 0 <= i < s.len() ==> outs[i] == Ok::<U, U::Error>(#[trigger] oks(outs)[i]),
    decreases s.len(),
{
    if s.len() > 0 {
        let n = s.len() - 1;
        assert(call_ensures(U::try_from, (s[n],), outs[n]));
        assert(conversions_of(s.drop_last(), outs.drop_last()));
        lemma_oks_all_ok::<T, U>(s.drop_last(), outs.drop_last());
        assert forall|i: int| 0 <= i < s.len() implies outs[i] == Ok::<U, U::Error>(#[trigger] oks(outs)[i]) by {
            if i < n {
                assert(outs.drop_last()[i] == outs[i]);
            }
        }
    }
}

/// Position `i` holds the first least key of `keys`.
pub open spec fn is_first_min<K: SortKey>(keys: Seq<K>, i: int) -> bool {
    &&& 0 <= i < keys.len()
    &&& forall|j: int| 0 <= j < keys.len() ==> K::spec_le(keys[i], #[trigger] keys[j])
    &&& forall|j: int| 0 <= j < i ==> !K::spec_le(#[trigger] keys[j], keys[i])
}

/// Position `i` holds the last greatest key of `keys`.
pub open spec fn is_last_max<K: SortKey>(keys: Seq<K>, i: int) -> bool {
    &&& 0 <= i < keys.len()
    &&& forall|j: int| 0 <= j < keys.len() ==> K::spec_le(#[trigger] keys[j], keys[i])
    &&& forall|j: int| i < j < keys.len() ==> !K::spec_le(keys[i], #[trigger] keys[j])
}

/// The position of the first least key, or of the last greatest one.
fn extreme_position<K: SortKey>(keys: &Vec<K>, last_max: bool) -> (i: usize)
    requires
        keys@.len() > 0,
    ensures
        !last_max ==> is_first_min(keys@, i as int),
        last_max ==> is_last_max(keys@, i as int),
{
    let mut best: usize = 0;
    let mut j: usize = 1;
    proof {
        K::lemma_total(keys@[0], keys@[0]);
    }
    while j < keys.len()
        invariant
            keys@.len() > 0,
            0 <= best < j <= keys@.len(),
            !last_max ==> forall|q: int| 0 <= q < j ==> K::spec_le(keys@[best as int], #[trigger] keys@[q]),
            !last_max ==> forall|q: int| 0 <= q < best ==> !K::spec_le(#[trigger] keys@[q], keys@[best as int]),
            last_max ==> forall|q: int| 0 <= q < j ==> K::spec_le(#[trigger] keys@[q], keys@[best as int]),
            last_max ==> forall|q: int| best < q < j ==> !K::spec_le(keys@[best as int], #[trigger] keys@[q]),
        decreases keys@.len() - j,
    {
        let ghost old_best = best as int;
        if last_max {
            if keys[best].key_le(&keys[j]) {
                proof {
                    assert forall|q: int| 0 <= q < j + 1 implies K::spec_le(#[trigger] keys@[q], keys@[j as int]) by {
                        if q < j {
                            K::lemma_transitive(keys@[q], keys@[old_best], keys@[j as int]);
                        }
                        K::lemma_total(keys@[q], keys@[q]);
                    }
                }
                best = j;
            } else {
                proof {
                    K::lemma_total(keys@[old_best], keys@[j as int]);
                }
            }
        } else {
            if !keys[best].key_le(&keys[j]) {
                proof {
                    K::lemma_total(keys@[old_best], keys@[j as int]);
                    assert forall|q: int| 0 <= q < j + 1 implies K::spec_le(keys@[j as int], #[trigger] keys@[q]) by {
                        if q < j {
                            K::lemma_transitive(keys@[j as int], keys@[old_best], keys@[q]);
                        }
                        K::lemma_total(keys@[q], keys@[q]);
                    }
                    assert forall|q: int| 0 <= q < j implies !K::spec_le(#[trigger] keys@[q], keys@[j as int]) by {
                        if K::spec_le(keys@[q], keys@[j as int]) {
                            K::lemma_transitive(keys@[old_best], keys@[q], keys@[j as int]);
                        }
                    }
                }
                best = j;
            }
        }
        j = j + 1;
    }
    best
}

// ═══════════════════════════════════════════════════════════════════════
// The trait
// ═══════════════════════════════════════════════════════════════════════

/// Extends a vector with C# LINQ–style query operations.
///
/// Every operator consumes the vector and returns its result eagerly.
pub trait LinqExt<T>: Sized + View<V = Seq<T>> {
    // ── FILTERING ─────────────────────────────────────────────────────────

    /// Filters elements by a predicate. C# analogue: `Where`.
    fn where_<P: Fn(&T) -> bool>(self, predicate: P) -> (r: Vec<T>)
        requires
            callable_on(predicate, self@),
        ensures
            exists|picks: Seq<bool>|
                picks_of(predicate, self@, picks) && r@ == filter_by(self@, picks),
    ;

    /// Filters with access to the item's 0-based index.
    fn where_indexed<P: Fn(&T, usize) -> bool>(self, predicate: P) -> (r: Vec<T>)
        requires
            indexed_callable_on(predicate, self@),
        ensures
            exists|picks: Seq<bool>|
                indexed_picks_of(predicate, self@, picks) && r@ == filter_by(
                    self@,
                    picks,
                ),
    ;

    // ── PROJECTION ────────────────────────────────────────────────────────

    /// Projects each element into a new form. C# analogue: `Select`.
    fn select<B, F: Fn(T) -> B>(self, f: F) -> (r: Vec<B>)
        requires
            forall|i: int| 0 <= i < self@.len() ==> call_requires(f, (#[trigger] self@[i],)),
        ensures
            r@.len() == self@.len(),
            forall|i: int| 0 <= i < r@.len() ==> call_ensures(f, (self@[i],), #[trigger] r@[i]),
    ;

    /// Projects with access to the item's 0-based index.
    fn select_indexed<B, F: Fn(T, usize) -> B>(self, f: F) -> (r: Vec<B>)
        requires
            forall|i: int|
                0 <= i < self@.len() ==> call_requires(f, (#[trigger] self@[i], i as usize)),
        ensures
            r@.len() == self@.len(),
            forall|i: int|
                0 <= i < r@.len() ==> call_ensures(f, (self@[i], i as usize), #[trigger] r@[i]),
    ;

    /// Projects each element to a vector and flattens the results.
    /// C# analogue: `SelectMany`.
    fn select_many<U, F: Fn(T) -> Vec<U>>(self, f: F) -> (r: Vec<U>)
        requires
            forall|i: int| 0 <= i < self@.len() ==> call_requires(f, (#[trigger] self@[i],)),
        ensures
            exists|outs: Seq<Vec<U>>|
                {
                    &&& outs.len() == self@.len()
                    &&& forall|i: int|
                        0 <= i < outs.len() ==> call_ensures(f, (self@[i],), #[trigger] outs[i])
                    &&& r@ == flatten_views(outs)
                },
    ;

    /// `select_many` with the item's 0-based index.
    fn select_many_indexed<U, F: Fn(T, usize) -> Vec<U>>(self, f: F) -> (r: Vec<U>)
        requires
            forall|i: int|
                0 <= i < self@.len() ==> call_requires(f, (#[trigger] self@[i], i as usize)),
        ensures
            exists|outs: Seq<Vec<U>>|
                {
                    &&& outs.len() == self@.len()
                    &&& forall|i: int|
                        0 <= i < outs.len() ==> call_ensures(
                            f,
                            (self@[i], i as usize),
                            #[trigger] outs[i],
                        )
                    &&& r@ == flatten_views(outs)
                },
    ;

    // ── PAGING / SLICING ──────────────────────────────────────────────────

    /// Skips the first `n` elements. C# analogue: `Skip`.
    fn skip_(self, n: usize) -> (r: Vec<T>)
        ensures
            r@ == if n <= self@.len() { self@.skip(n as int) } else { Seq::empty() },
    ;

    /// Takes at most `n` elements. C# analogue: `Take`.
    fn take_(self, n: usize) -> (r: Vec<T>)
        ensures
            r@ == if n <= self@.len() { self@.take(n as int) } else { self@ },
    ;

    /// Skips elements while the predicate holds. C# analogue: `SkipWhile`.
    fn skip_while_<P: Fn(&T) -> bool>(self, predicate: P) -> (r: Vec<T>)
        requires
            callable_on(predicate, self@),
        ensures
            exists|k: int| #[trigger] while_stop(predicate, self@, k) && r@ == self@.skip(k),
    ;

    /// `skip_while_` with the item's 0-based index.
    fn skip_while_indexed<P: Fn(&T, usize) -> bool>(self, predicate: P) -> (r: Vec<T>)
        requires
            indexed_callable_on(predicate, self@),
        ensures
            exists|k: int| #[trigger] indexed_while_stop(predicate, self@, k) && r@ == self@.skip(k),
    ;

    /// Takes elements while the predicate holds. C# analogue: `TakeWhile`.
    fn take_while_<P: Fn(&T) -> bool>(self, predicate: P) -> (r: Vec<T>)
        requires
            callable_on(predicate, self@),
        ensures
            exists|k: int| #[trigger] while_stop(predicate, self@, k) && r@ == self@.take(k),
    ;

    /// `take_while_` with the item's 0-based index.
    fn take_while_indexed<P: Fn(&T, usize) -> bool>(self, predicate: P) -> (r: Vec<T>)
        requires
            indexed_callable_on(predicate, self@),
        ensures
            exists|k: int| #[trigger] indexed_while_stop(predicate, self@, k) && r@ == self@.take(k),
    ;

    /// All elements except the last `n`. C# analogue: `SkipLast`.
    fn skip_last(self, n: usize) -> (r: Vec<T>)
        ensures
            r@ == if n <= self@.len() {
                self@.take(self@.len() - n)
            } else {
                Seq::empty()
            },
    ;

    /// Only the last `n` elements. C# analogue: `TakeLast`.
    fn take_last(self, n: usize) -> (r: Vec<T>)
        ensures
            r@ == if n <= self@.len() {
                self@.skip(self@.len() - n)
            } else {
                self@
            },
    ;

    /// Splits the sequence into chunks of `size`; the last may be shorter.
    /// The size must be positive.
    fn chunk(self, size: usize) -> (r: Vec<Vec<T>>)
        requires
            size > 0,
        ensures
            flatten_views(r@) == self@,
            forall|i: int| 0 <= i < r@.len() - 1 ==> (#[trigger] r@[i])@.len() == size,
            r@.len() > 0 ==> 0 < r@.last()@.len() <= size,
    ;

    /// Concatenates two sequences. C# analogue: `Concat`.
    fn concat_(self, other: Vec<T>) -> (r: Vec<T>)
        ensures
            r@ == self@ + other@,
    ;

    /// Reverses the sequence. C# analogue: `Reverse`.
    fn reverse(self) -> (r: Vec<T>)
        ensures
            r@ == self@.reverse(),
    ;

    // ── AGGREGATION ───────────────────────────────────────────────────────

    /// Folds with an explicit seed. C# analogue: `Aggregate(seed, func)`.
    fn aggregate<Acc, F: Fn(Acc, T) -> Acc>(self, seed: Acc, f: F) -> (r: Acc)
        requires
            fold_callable(f, self@),
        ensures
            exists|accs: Seq<Acc>|
                fold_trace(f, seed, self@, accs) && r == accs[self@.len() as int],
    ;

    /// Folds using the first element as the seed; `None` if empty.
    fn reduce_<F: Fn(T, T) -> T>(self, f: F) -> (r: Option<T>)
        requires
            fold_callable(f, self@),
        ensures
            self@.len() == 0 <==> r is None,
            self@.len() > 0 ==> exists|accs: Seq<T>|
                fold_trace(f, self@[0], self@.drop_first(), accs) && r == Some(
                    accs[self@.len() - 1],
                ),
    ;

    /// Folds with a seed, then projects the accumulator through `result_selector`.
    fn aggregate_with_selector<Acc, R, F: Fn(Acc, T) -> Acc, S: FnOnce(Acc) -> R>(
        self,
        seed: Acc,
        f: F,
        result_selector: S,
    ) -> (r: R)
        requires
            fold_callable(f, self@),
            forall|acc: Acc| call_requires(result_selector, (acc,)),
        ensures
            exists|accs: Seq<Acc>|
                fold_trace(f, seed, self@, accs) && call_ensures(
                    result_selector,
                    (accs[self@.len() as int],),
                    r,
                ),
    ;

    /// The sum of the elements. C# analogue: `Sum`. Every partial sum must
    /// stay within the type: adding past its bounds is an overflow.
    fn sum_(self) -> (r: T)
        where
            T: Summable,
        requires
            partial_sums_fit(self@),
        ensures
            r.spec_value() == seq_total(self@),
    ;

    /// The sum of `selector` applied to each element. C# analogue:
    /// `Sum(selector)`.
    fn sum_by<S: Summable, F: Fn(T) -> S>(self, selector: F) -> (r: S)
        requires
            forall|i: int| 0 <= i < self@.len() ==> call_requires(selector, (#[trigger] self@[i],)),
            forall|vals: Seq<S>|
                vals.len() == self@.len() && (forall|i: int|
                    0 <= i < vals.len() ==> call_ensures(selector, (self@[i],), #[trigger] vals[i]))
                    ==> partial_sums_fit(vals),
        ensures
            exists|vals: Seq<S>|
                {
                    &&& vals.len() == self@.len()
                    &&& forall|i: int| 0 <= i < vals.len() ==> call_ensures(selector, (self@[i],), #[trigger] vals[i])
                    &&& r.spec_value() == seq_total(vals)
                },
    ;

    /// Counts elements matching a predicate.
    fn count_where<P: Fn(&T) -> bool>(self, predicate: P) -> (r: usize)
        requires
            callable_on(predicate, self@),
        ensures
            exists|picks: Seq<bool>|
                picks_of(predicate, self@, picks) && r == count_true(picks),
    ;

    // ── ELEMENT OPERATIONS ────────────────────────────────────────────────

    /// The first element, of a sequence that must not be empty.
    fn first(self) -> (r: T)
        requires
            self@.len() > 0,
        ensures
            r == self@[0],
    ;

    /// The first element, or `None`. C# analogue: `FirstOrDefault`.
    fn first_or_default(self) -> (r: Option<T>)
        ensures
            r == if self@.len() > 0 { Some(self@[0]) } else { None },
    ;

    /// The first element matching a predicate, or `None`.
    fn first_where<P: Fn(&T) -> bool>(self, predicate: P) -> (r: Option<T>)
        requires
            callable_on(predicate, self@),
        ensures
            exists|k: int|
                #[trigger] search_stop(predicate, self@, k) && r == if k < self@.len() {
                    Some(self@[k])
                } else {
                    None
                },
    ;

    /// The last element, of a sequence that must not be empty.
    fn last_(self) -> (r: T)
        requires
            self@.len() > 0,
        ensures
            r == self@.last(),
    ;

    /// The last element, or `None`. C# analogue: `LastOrDefault`.
    fn last_or_default(self) -> (r: Option<T>)
        ensures
            r == if self@.len() > 0 { Some(self@.last()) } else { None },
    ;

    /// The last element matching a predicate, or `None`.
    fn last_where<P: Fn(&T) -> bool>(self, predicate: P) -> (r: Option<T>)
        requires
            callable_on(predicate, self@),
        ensures
            exists|picks: Seq<bool>|
                picks_of(predicate, self@, picks) && r == if filter_by(
                    self@,
                    picks,
                ).len() > 0 {
                    Some(filter_by(self@, picks).last())
                } else {
                    None
                },
    ;

    /// The element at `index`, or `None`. C# analogue: `ElementAtOrDefault`.
    fn element_at(self, index: usize) -> (r: Option<T>)
        ensures
            r == if index < self@.len() { Some(self@[index as int]) } else { None },
    ;

    /// The element at `index`, which must be in bounds.
    fn element_at_strict(self, index: usize) -> (r: T)
        requires
            index < self@.len(),
        ensures
            r == self@[index as int],
    ;

    /// The single element, or which way it failed.
    fn try_single(self) -> (r: Result<T, SingleError>)
        ensures
            self@.len() == 0 <==> r == Err::<T, SingleError>(SingleError::Empty),
            self@.len() >= 2 <==> r == Err::<T, SingleError>(SingleError::MoreThanOne),
            self@.len() == 1 <==> r == Ok::<T, SingleError>(self@[0]),
    ;

    /// The single element, of a sequence that must hold exactly one.
    fn single(self) -> (r: T)
        requires
            self@.len() == 1,
        ensures
            r == self@[0],
    ;

    /// `Ok(Some(x))` for exactly one element, `Ok(None)` for none, and
    /// `Err(MoreThanOne)` for several.
    fn single_or_default(self) -> (r: Result<Option<T>, SingleError>)
        ensures
            self@.len() == 0 <==> r == Ok::<Option<T>, SingleError>(None),
            self@.len() == 1 <==> r == Ok::<Option<T>, SingleError>(Some(self@[0])),
            self@.len() >= 2 <==> r == Err::<Option<T>, SingleError>(SingleError::MoreThanOne),
    ;

    /// The first element, or `default` if empty.
    fn first_or(self, default: T) -> (r: T)
        ensures
            r == if self@.len() > 0 { self@[0] } else { default },
    ;

    /// The last element, or `default` if empty.
    fn last_or(self, default: T) -> (r: T)
        ensures
            r == if self@.len() > 0 { self@.last() } else { default },
    ;

    /// The single element, or `default` if empty; the sequence must not
    /// hold two or more.
    fn single_or(self, default: T) -> (r: T)
        requires
            self@.len() <= 1,
        ensures
            r == if self@.len() == 1 { self@[0] } else { default },
    ;

    /// The element at `index`, or `default` if out of bounds.
    fn element_at_or(self, index: usize, default: T) -> (r: T)
        ensures
            r == if index < self@.len() { self@[index as int] } else { default },
    ;

    /// Yields `default` once if empty; otherwise all elements unchanged.
    fn default_if_empty(self, default: T) -> (r: Vec<T>)
        ensures
            r@ == if self@.len() == 0 { seq![default] } else { self@ },
    ;

    // ── QUANTIFIERS ───────────────────────────────────────────────────────

    /// Whether any element satisfies the predicate; stops at the first that does.
    fn any_<P: Fn(T) -> bool>(self, predicate: P) -> (r: bool)
        requires
            forall|i: int|
                0 <= i < self@.len() ==> call_requires(predicate, (#[trigger] self@[i],)),
        ensures
            exists|k: int| #[trigger] owned_scan_stop(predicate, self@, k, true) && r == (k < self@.len()),
    ;

    /// Whether every element satisfies the predicate; stops at the first that does not.
    fn all_<P: Fn(T) -> bool>(self, predicate: P) -> (r: bool)
        requires
            forall|i: int|
                0 <= i < self@.len() ==> call_requires(predicate, (#[trigger] self@[i],)),
        ensures
            exists|k: int| #[trigger] owned_scan_stop(predicate, self@, k, false) && r == (k == self@.len()),
    ;

    /// Whether the sequence holds an element equal to `value`.
    fn contains_<U>(self, value: &U) -> (r: bool)
        where
            T: PartialEq<U>,
        requires
            <T as PartialEqSpec<U>>::obeys_eq_spec(),
        ensures
            r == exists|i: int| 0 <= i < self@.len() && (#[trigger] self@[i]).eq_spec(value),
    ;


    // ── SET OPERATIONS ────────────────────────────────────────────────────

    /// Distinct elements (first occurrences), compared with `PartialEq` by a
    /// linear scan. C# analogue: `Distinct`.
    fn distinct_partial_eq(self) -> (r: Vec<T>)
        where
            T: PartialEq,
        requires
            T::obeys_eq_spec(),
        ensures
            r@ == filter_by(self@, first_occurrences(partial_eqv(), self@)),
    ;

    /// Distinct elements by a key selector, keys compared with `PartialEq`.
    fn distinct_by_partial_eq<K: PartialEq, F: Fn(&T) -> K>(self, key_fn: F) -> (r: Vec<T>)
        requires
            K::obeys_eq_spec(),
            key_callable(key_fn, self@),
        ensures
            exists|keys: Seq<K>|
                keys_trace(key_fn, self@, keys) && r@ == filter_by(self@, first_occurrences(partial_eqv(), keys)),
    ;

    /// Distinct elements through a hash set.
    fn distinct(self) -> (r: Vec<T>)
        where
            T: Eq + Hash + Clone,
        requires
            obeys_key_model::<T>(),
            clone_is_identity::<T>(),
        ensures
            r@ == filter_by(self@, first_occurrences(ident_eqv(), self@)),
    ;

    /// Distinct elements by a key selector, through a hash set of keys.
    fn distinct_by<K: Eq + Hash, F: Fn(&T) -> K>(self, key_fn: F) -> (r: Vec<T>)
        requires
            obeys_key_model::<K>(),
            key_callable(key_fn, self@),
        ensures
            exists|keys: Seq<K>|
                keys_trace(key_fn, self@, keys) && r@ == filter_by(self@, first_occurrences(ident_eqv(), keys)),
    ;

    /// Elements of `self` not equal (by `PartialEq`) to any element of `other`.
    fn except_partial_eq(self, other: Vec<T>) -> (r: Vec<T>)
        where
            T: PartialEq,
        requires
            T::obeys_eq_spec(),
        ensures
            r@ == filter_by(self@, Seq::new(self@.len(), |i: int| !has_key(partial_eqv(), other@, self@[i]))),
    ;

    /// Elements of `self` equal (by `PartialEq`) to some element of `other`.
    fn intersect_partial_eq(self, other: Vec<T>) -> (r: Vec<T>)
        where
            T: PartialEq,
        requires
            T::obeys_eq_spec(),
        ensures
            r@ == filter_by(self@, Seq::new(self@.len(), |i: int| has_key(partial_eqv(), other@, self@[i]))),
    ;

    /// The set union of two sequences: distinct elements of both, in order.
    fn union_partial_eq(self, other: Vec<T>) -> (r: Vec<T>)
        where
            T: PartialEq,
        requires
            T::obeys_eq_spec(),
        ensures
            r@ == filter_by(self@ + other@, first_occurrences(partial_eqv(), self@ + other@)),
    ;

    /// Elements of `self` whose key is not among `other_keys`.
    fn except_by<K: PartialEq, F: Fn(&T) -> K>(self, other_keys: Vec<K>, key_fn: F) -> (r: Vec<T>)
        requires
            K::obeys_eq_spec(),
            key_callable(key_fn, self@),
        ensures
            exists|keys: Seq<K>|
                keys_trace(key_fn, self@, keys) && r@ == filter_by(
                    self@,
                    Seq::new(self@.len(), |i: int| !has_key(partial_eqv(), other_keys@, keys[i])),
                ),
    ;

    /// Elements of `self` whose key is among `other_keys`.
    fn intersect_by<K: PartialEq, F: Fn(&T) -> K>(self, other_keys: Vec<K>, key_fn: F) -> (r: Vec<T>)
        requires
            K::obeys_eq_spec(),
            key_callable(key_fn, self@),
        ensures
            exists|keys: Seq<K>|
                keys_trace(key_fn, self@, keys) && r@ == filter_by(
                    self@,
                    Seq::new(self@.len(), |i: int| has_key(partial_eqv(), other_keys@, keys[i])),
                ),
    ;

    /// Set difference through a hash set of `other`.
    fn except(self, other: Vec<T>) -> (r: Vec<T>)
        where
            T: Eq + Hash + Clone,
        requires
            obeys_key_model::<T>(),
            clone_is_identity::<T>(),
        ensures
            r@ == filter_by(self@, Seq::new(self@.len(), |i: int| !other@.contains(self@[i]))),
    ;

    /// Intersection through a hash set of `other`.
    fn intersect(self, other: Vec<T>) -> (r: Vec<T>)
        where
            T: Eq + Hash + Clone,
        requires
            obeys_key_model::<T>(),
            clone_is_identity::<T>(),
        ensures
            r@ == filter_by(self@, Seq::new(self@.len(), |i: int| other@.contains(self@[i]))),
    ;

    /// Set union through a hash set.
    fn union_(self, other: Vec<T>) -> (r: Vec<T>)
        where
            T: Eq + Hash + Clone,
        requires
            obeys_key_model::<T>(),
            clone_is_identity::<T>(),
        ensures
            r@ == filter_by(self@ + other@, first_occurrences(ident_eqv(), self@ + other@)),
    ;

    /// Union deduplicated by projected key; `other` supplies items.
    fn union_by<K: PartialEq, F: Fn(&T) -> K>(self, other: Vec<T>, key_fn: F) -> (r: Vec<T>)
        requires
            K::obeys_eq_spec(),
            key_callable(key_fn, self@ + other@),
        ensures
            exists|keys: Seq<K>|
                keys_trace(key_fn, self@ + other@, keys) && r@ == filter_by(
                    self@ + other@,
                    first_occurrences(partial_eqv(), keys),
                ),
    ;

    // ── GROUPING ──────────────────────────────────────────────────────────

    /// Groups elements by key (compared with `PartialEq`), groups in
    /// first-appearance order. C# analogue: `GroupBy`.
    fn group_by_key_partial_eq<K: PartialEq, F: Fn(&T) -> K>(self, key_fn: F) -> (r: Vec<Grouping<K, T>>)
        requires
            K::obeys_eq_spec(),
            key_callable(key_fn, self@),
        ensures
            exists|keys: Seq<K>|
                keys_trace(key_fn, self@, keys) && is_grouping(partial_eqv(), keys, self@, keys_of(r@), elems_of(r@)),
    ;

    /// Groups elements by key, projecting each through `element_fn`.
    fn group_by_with_element<K: PartialEq, E, KF: Fn(&T) -> K, EF: Fn(T) -> E>(
        self,
        key_fn: KF,
        element_fn: EF,
    ) -> (r: Vec<Grouping<K, E>>)
        requires
            K::obeys_eq_spec(),
            key_callable(key_fn, self@),
            forall|i: int| 0 <= i < self@.len() ==> call_requires(element_fn, (#[trigger] self@[i],)),
        ensures
            exists|keys: Seq<K>, es: Seq<E>|
                {
                    &&& keys_trace(key_fn, self@, keys)
                    &&& es.len() == self@.len()
                    &&& forall|i: int| 0 <= i < es.len() ==> call_ensures(element_fn, (self@[i],), #[trigger] es[i])
                    &&& is_grouping(partial_eqv(), keys, es, keys_of(r@), elems_of(r@))
                },
    ;

    /// Groups elements by key, then projects each group through `result_fn`.
    fn group_by_with_result<K: PartialEq, R, KF: Fn(&T) -> K, RF: Fn(K, Vec<T>) -> R>(
        self,
        key_fn: KF,
        result_fn: RF,
    ) -> (r: Vec<R>)
        requires
            K::obeys_eq_spec(),
            key_callable(key_fn, self@),
            forall|k: K, v: Vec<T>| call_requires(result_fn, (k, v)),
        ensures
            exists|keys: Seq<K>, gs: Seq<Grouping<K, T>>|
                {
                    &&& keys_trace(key_fn, self@, keys)
                    &&& is_grouping(partial_eqv(), keys, self@, keys_of(gs), elems_of(gs))
                    &&& r@.len() == gs.len()
                    &&& forall|j: int| 0 <= j < gs.len() ==> #[trigger] group_result(result_fn, gs[j], r@[j])
                },
    ;

    /// `(key, count)` per group, keys compared with `PartialEq`.
    fn count_by_partial_eq<K: PartialEq, F: Fn(&T) -> K>(self, key_fn: F) -> (r: Vec<(K, usize)>)
        requires
            K::obeys_eq_spec(),
            key_callable(key_fn, self@),
        ensures
            exists|keys: Seq<K>, gs: Seq<Grouping<K, T>>|
                {
                    &&& keys_trace(key_fn, self@, keys)
                    &&& is_grouping(partial_eqv(), keys, self@, keys_of(gs), elems_of(gs))
                    &&& r@.len() == gs.len()
                    &&& forall|j: int| 0 <= j < gs.len() ==> #[trigger] r@[j] == (gs[j].spec_key(), gs[j].spec_elements().len() as usize)
                },
    ;

    /// Groups elements by key through a hash index, groups in
    /// first-appearance order.
    fn group_by_key<K: Eq + Hash + Clone, F: Fn(&T) -> K>(self, key_fn: F) -> (r: Vec<Grouping<K, T>>)
        requires
            obeys_key_model::<K>(),
            clone_is_identity::<K>(),
            key_callable(key_fn, self@),
        ensures
            exists|keys: Seq<K>|
                keys_trace(key_fn, self@, keys) && is_grouping(ident_eqv(), keys, self@, keys_of(r@), elems_of(r@)),
    ;

    /// `(key, count)` per key, through a hash index. Keys come in the order
    /// of their first appearance.
    fn count_by<K: Eq + Hash + Clone, F: Fn(&T) -> K>(self, key_fn: F) -> (r: Vec<(K, usize)>)
        requires
            obeys_key_model::<K>(),
            clone_is_identity::<K>(),
            key_callable(key_fn, self@),
        ensures
            exists|keys: Seq<K>, gs: Seq<Grouping<K, T>>|
                {
                    &&& keys_trace(key_fn, self@, keys)
                    &&& is_grouping(ident_eqv(), keys, self@, keys_of(gs), elems_of(gs))
                    &&& r@.len() == gs.len()
                    &&& forall|j: int| 0 <= j < gs.len() ==> #[trigger] r@[j] == (gs[j].spec_key(), gs[j].spec_elements().len() as usize)
                },
    ;

    /// Fused group-and-fold through a hash index: one `(key, accumulator)`
    /// per key, each fold seeded by `seed_fn(&key)`. Keys come in the order
    /// of their first appearance.
    fn aggregate_by<K: Eq + Hash + Clone, Acc, KF: Fn(&T) -> K, SF: Fn(&K) -> Acc, AF: Fn(Acc, T) -> Acc>(
        self,
        key_fn: KF,
        seed_fn: SF,
        accum: AF,
    ) -> (r: Vec<(K, Acc)>)
        requires
            obeys_key_model::<K>(),
            clone_is_identity::<K>(),
            key_callable(key_fn, self@),
            forall|k: K| call_requires(seed_fn, (&k,)),
            forall|acc: Acc, x: T| call_requires(accum, (acc, x)),
        ensures
            exists|keys: Seq<K>, gs: Seq<Grouping<K, T>>|
                {
                    &&& keys_trace(key_fn, self@, keys)
                    &&& is_grouping(ident_eqv(), keys, self@, keys_of(gs), elems_of(gs))
                    &&& r@.len() == gs.len()
                    &&& forall|j: int| 0 <= j < gs.len() ==> #[trigger] group_folded(seed_fn, accum, gs[j], r@[j])
                },
    ;

    /// Fused group-and-fold with keys compared by `PartialEq`.
    fn aggregate_by_partial_eq<K: PartialEq, Acc, KF: Fn(&T) -> K, SF: Fn(&K) -> Acc, AF: Fn(Acc, T) -> Acc>(
        self,
        key_fn: KF,
        seed_fn: SF,
        accum: AF,
    ) -> (r: Vec<(K, Acc)>)
        requires
            K::obeys_eq_spec(),
            key_callable(key_fn, self@),
            forall|k: K| call_requires(seed_fn, (&k,)),
            forall|acc: Acc, x: T| call_requires(accum, (acc, x)),
        ensures
            exists|keys: Seq<K>, gs: Seq<Grouping<K, T>>|
                {
                    &&& keys_trace(key_fn, self@, keys)
                    &&& is_grouping(partial_eqv(), keys, self@, keys_of(gs), elems_of(gs))
                    &&& r@.len() == gs.len()
                    &&& forall|j: int| 0 <= j < gs.len() ==> #[trigger] group_folded(seed_fn, accum, gs[j], r@[j])
                },
    ;


    // ── JOINING ───────────────────────────────────────────────────────────

    /// Inner join on matching keys (`inner_key == outer_key` by `PartialEq`),
    /// outer-major, each match projected through `result_selector`.
    fn inner_join_partial_eq<U: Clone, OK, IK: PartialEq<OK>, R, OKF: Fn(&T) -> OK, IKF: Fn(&U) -> IK, RF: Fn(T, U) -> R>(
        self,
        inner: Vec<U>,
        outer_key_fn: OKF,
        inner_key_fn: IKF,
        result_selector: RF,
    ) -> (r: Vec<R>)
        where
            T: Clone,
        requires
            <IK as PartialEqSpec<OK>>::obeys_eq_spec(),
            key_callable(outer_key_fn, self@),
            key_callable(inner_key_fn, inner@),
            forall|a: T, b: U| call_requires(result_selector, (a, b)),
        ensures
            exists|okeys: Seq<OK>, ikeys: Seq<IK>, rows: Seq<Seq<R>>|
                {
                    &&& keys_trace(outer_key_fn, self@, okeys)
                    &&& keys_trace(inner_key_fn, inner@, ikeys)
                    &&& rows.len() == self@.len()
                    &&& forall|i: int| 0 <= i < rows.len() ==> #[trigger] joined_row(
                        result_selector,
                        self@[i],
                        inner@,
                        matched_indices(cross_eqv(), ikeys, okeys[i]),
                        rows[i],
                    )
                    &&& r@ == rows.flatten()
                },
    ;

    /// Inner join through a hash index over the inner keys.
    fn inner_join<U: Clone, Key: Eq + Hash, R, OKF: Fn(&T) -> Key, IKF: Fn(&U) -> Key, RF: Fn(T, U) -> R>(
        self,
        inner: Vec<U>,
        outer_key_fn: OKF,
        inner_key_fn: IKF,
        result_selector: RF,
    ) -> (r: Vec<R>)
        where
            T: Clone,
        requires
            obeys_key_model::<Key>(),
            key_callable(outer_key_fn, self@),
            key_callable(inner_key_fn, inner@),
            forall|a: T, b: U| call_requires(result_selector, (a, b)),
        ensures
            exists|okeys: Seq<Key>, ikeys: Seq<Key>, rows: Seq<Seq<R>>|
                {
                    &&& keys_trace(outer_key_fn, self@, okeys)
                    &&& keys_trace(inner_key_fn, inner@, ikeys)
                    &&& rows.len() == self@.len()
                    &&& forall|i: int| 0 <= i < rows.len() ==> #[trigger] joined_row(
                        result_selector,
                        self@[i],
                        inner@,
                        matched_indices(ident_eqv(), ikeys, okeys[i]),
                        rows[i],
                    )
                    &&& r@ == rows.flatten()
                },
    ;

    /// Left outer join with the matching inner elements grouped (by
    /// `PartialEq`); one result per outer element.
    fn group_join_partial_eq<U: Clone, OK, IK: PartialEq<OK>, R, OKF: Fn(&T) -> OK, IKF: Fn(&U) -> IK, RF: Fn(T, Vec<U>) -> R>(
        self,
        inner: Vec<U>,
        outer_key_fn: OKF,
        inner_key_fn: IKF,
        result_selector: RF,
    ) -> (r: Vec<R>)
        requires
            <IK as PartialEqSpec<OK>>::obeys_eq_spec(),
            key_callable(outer_key_fn, self@),
            key_callable(inner_key_fn, inner@),
            forall|a: T, g: Vec<U>| call_requires(result_selector, (a, g)),
        ensures
            exists|okeys: Seq<OK>, ikeys: Seq<IK>, groups: Seq<Vec<U>>|
                {
                    &&& keys_trace(outer_key_fn, self@, okeys)
                    &&& keys_trace(inner_key_fn, inner@, ikeys)
                    &&& groups.len() == self@.len()
                    &&& r@.len() == self@.len()
                    &&& forall|i: int| 0 <= i < r@.len() ==> cloned_group(
                        inner@,
                        matched_indices(cross_eqv(), ikeys, okeys[i]),
                        (#[trigger] groups[i])@,
                    ) && call_ensures(result_selector, (self@[i], groups[i]), r@[i])
                },
    ;

    /// Left outer join with grouped matches, through a hash index.
    fn group_join<U: Clone, Key: Eq + Hash, R, OKF: Fn(&T) -> Key, IKF: Fn(&U) -> Key, RF: Fn(T, Vec<U>) -> R>(
        self,
        inner: Vec<U>,
        outer_key_fn: OKF,
        inner_key_fn: IKF,
        result_selector: RF,
    ) -> (r: Vec<R>)
        requires
            obeys_key_model::<Key>(),
            key_callable(outer_key_fn, self@),
            key_callable(inner_key_fn, inner@),
            forall|a: T, g: Vec<U>| call_requires(result_selector, (a, g)),
        ensures
            exists|okeys: Seq<Key>, ikeys: Seq<Key>, groups: Seq<Vec<U>>|
                {
                    &&& keys_trace(outer_key_fn, self@, okeys)
                    &&& keys_trace(inner_key_fn, inner@, ikeys)
                    &&& groups.len() == self@.len()
                    &&& r@.len() == self@.len()
                    &&& forall|i: int| 0 <= i < r@.len() ==> cloned_group(
                        inner@,
                        matched_indices(ident_eqv(), ikeys, okeys[i]),
                        (#[trigger] groups[i])@,
                    ) && call_ensures(result_selector, (self@[i], groups[i]), r@[i])
                },
    ;

    /// Collects into a `HashSet`. C# analogue: `ToHashSet`.
    fn to_hashset(self) -> (r: HashSet<T>)
        where
            T: Eq + Hash,
        requires
            obeys_key_model::<T>(),
        ensures
            r@ == self@.to_set(),
    ;

    /// Collects into a `HashMap` by key; a later element replaces an earlier
    /// one with the same key. C# analogue: `ToDictionary`.
    fn to_hashmap<K: Eq + Hash, F: Fn(&T) -> K>(self, key_fn: F) -> (r: HashMap<K, T>)
        requires
            obeys_key_model::<K>(),
            key_callable(key_fn, self@),
        ensures
            exists|keys: Seq<K>| keys_trace(key_fn, self@, keys) && r@ == last_by_key(keys, self@),
    ;

    // ── CONVERSION / UTILITY ──────────────────────────────────────────────

    /// Sorts stably by an ascending key. C# analogue: `OrderBy`.
    fn order_by<K: SortKey, F: Fn(&T) -> K>(self, key_fn: F) -> (r: OrderedQueryable<T>)
        requires
            key_callable(key_fn, self@),
        ensures
            r.well_formed(),
            r.spec_source() == self@,
            exists|keys: Seq<K>| keys_trace(key_fn, self@, keys) && r.spec_order() == key_order(keys, false),
    ;

    /// Sorts stably by a descending key. C# analogue: `OrderByDescending`.
    fn order_by_descending<K: SortKey, F: Fn(&T) -> K>(self, key_fn: F) -> (r: OrderedQueryable<T>)
        requires
            key_callable(key_fn, self@),
        ensures
            r.well_formed(),
            r.spec_source() == self@,
            exists|keys: Seq<K>| keys_trace(key_fn, self@, keys) && r.spec_order() == key_order(keys, true),
    ;

    /// Sorts stably with an explicit comparator, which must rank the
    /// elements by a total preorder; for keys with no [`SortKey`] order.
    fn order_by_with<F: Fn(&T, &T) -> Ordering>(self, comparer: F) -> (r: OrderedQueryable<T>)
        requires
            comparer_total_on(comparer, self@),
        ensures
            r.well_formed(),
            r.spec_source() == self@,
            r.spec_order() == comparer_order(comparer, self@),
    ;

    /// Sorts the elements themselves in ascending order. C# analogue: `Order`.
    fn order(self) -> (r: OrderedQueryable<T>)
        where
            T: SortKey + Copy,
        ensures
            r.well_formed(),
            r.spec_source() == self@,
            r.spec_order() == key_order(self@, false),
    ;

    /// Sorts the elements themselves in descending order. C# analogue:
    /// `OrderDescending`.
    fn order_descending(self) -> (r: OrderedQueryable<T>)
        where
            T: SortKey + Copy,
        ensures
            r.well_formed(),
            r.spec_source() == self@,
            r.spec_order() == key_order(self@, true),
    ;

    /// The element with the least key; the first of several. C# analogue:
    /// `MinBy`.
    fn min_by_key_<K: SortKey, F: Fn(&T) -> K>(self, key_fn: F) -> (r: Option<T>)
        requires
            key_callable(key_fn, self@),
        ensures
            self@.len() == 0 ==> r is None,
            self@.len() > 0 ==> exists|keys: Seq<K>, i: int|
                keys_trace(key_fn, self@, keys) && is_first_min(keys, i) && r == Some(self@[i]),
    ;

    /// The element with the greatest key; the last of several (C#'s `MaxBy`
    /// returns the first).
    fn max_by_key_<K: SortKey, F: Fn(&T) -> K>(self, key_fn: F) -> (r: Option<T>)
        requires
            key_callable(key_fn, self@),
        ensures
            self@.len() == 0 ==> r is None,
            self@.len() > 0 ==> exists|keys: Seq<K>, i: int|
                keys_trace(key_fn, self@, keys) && is_last_max(keys, i) && r == Some(self@[i]),
    ;

    /// The least element; the first of several equal ones. C# analogue: `Min`.
    fn min_(self) -> (r: Option<T>)
        where
            T: SortKey,
        ensures
            self@.len() == 0 ==> r is None,
            self@.len() > 0 ==> exists|i: int| is_first_min(self@, i) && r == Some(self@[i]),
    ;

    /// The greatest element; the last of several equal ones. C# analogue: `Max`.
    fn max_(self) -> (r: Option<T>)
        where
            T: SortKey,
        ensures
            self@.len() == 0 ==> r is None,
            self@.len() > 0 ==> exists|i: int| is_last_max(self@, i) && r == Some(self@[i]),
    ;

    /// Builds a [`Lookup`] (one-to-many dictionary) keyed by `key_fn`.
    /// C# analogue: `ToLookup`.
    fn to_lookup<K: Eq + Hash + Clone, F: Fn(&T) -> K>(self, key_fn: F) -> (r: Lookup<K, T>)
        requires
            obeys_key_model::<K>(),
            clone_is_identity::<K>(),
            key_callable(key_fn, self@),
        ensures
            exists|keys: Seq<K>|
                keys_trace(key_fn, self@, keys) && is_grouping(ident_eqv(), keys, self@, r.spec_keys(), r.spec_elems()),
    ;

    /// Keeps the elements that convert to `U` with `TryFrom`, converted.
    /// C# analogue: `OfType<U>`.
    fn of_type<U: TryFrom<T>>(self) -> (r: Vec<U>)
        ensures
            exists|outs: Seq<Result<U, U::Error>>| conversions_of(self@, outs) && r@ == oks(outs),
    ;

    /// Converts every element to `U` with `TryFrom`; every conversion must
    /// succeed. C# analogue: `Cast<U>`.
    fn cast<U: TryFrom<T>>(self) -> (r: Vec<U>)
        requires
            converts_all::<T, U>(self@),
        ensures
            r@.len() == self@.len(),
            forall|i: int| 0 <= i < self@.len() ==> call_ensures(U::try_from, (self@[i],), Ok::<U, U::Error>(#[trigger] r@[i])),
    ;

    /// Collects into a `Vec`. C# analogue: `ToList`.
    fn to_vec(self) -> (r: Vec<T>)
        ensures
            r@ == self@,
    ;

    /// Merges two sequences element by element; stops at the shorter.
    fn zip_<U, R, F: Fn(T, U) -> R>(self, other: Vec<U>, result_selector: F) -> (r: Vec<R>)
        requires
            forall|i: int|
                0 <= i < self@.len() && 0 <= i < other@.len() ==> call_requires(
                    result_selector,
                    (#[trigger] self@[i], other@[i]),
                ),
        ensures
            r@.len() == if self@.len() <= other@.len() { self@.len() } else { other@.len() },
            forall|i: int|
                0 <= i < r@.len() ==> call_ensures(
                    result_selector,
                    (self@[i], other@[i]),
                    #[trigger] r@[i],
                ),
    ;

    /// Merges three sequences element by element; stops at the shortest.
    fn zip3<U, V, R, F: Fn(T, U, V) -> R>(self, second: Vec<U>, third: Vec<V>, result_selector: F) -> (r: Vec<R>)
        requires
            forall|i: int|
                0 <= i < self@.len() && 0 <= i < second@.len() && 0 <= i < third@.len()
                    ==> call_requires(result_selector, (#[trigger] self@[i], second@[i], third@[i])),
        ensures
            r@.len() <= self@.len(),
            r@.len() <= second@.len(),
            r@.len() <= third@.len(),
            r@.len() == self@.len() || r@.len() == second@.len() || r@.len() == third@.len(),
            forall|i: int|
                0 <= i < r@.len() ==> call_ensures(
                    result_selector,
                    (self@[i], second@[i], third@[i]),
                    #[trigger] r@[i],
                ),
    ;

    /// Appends a single element. C# analogue: `Append`.
    fn append_item(self, item: T) -> (r: Vec<T>)
        ensures
            r@ == self@.push(item),
    ;

    /// Prepends a single element. C# analogue: `Prepend`.
    fn prepend_item(self, item: T) -> (r: Vec<T>)
        ensures
            r@ == seq![item] + self@,
    ;

    /// Whether the sequence is empty. C# analogue: `!Any()`.
    fn is_empty_(self) -> (r: bool)
        ensures
            r == (self@.len() == 0),
    ;

    /// `(index, item)` pairs. C# analogue: `Index()`.
    fn index_(self) -> (r: Vec<(usize, T)>)
        ensures
            r@.len() == self@.len(),
            forall|i: int| 0 <= i < r@.len() ==> #[trigger] r@[i] == (i as usize, self@[i]),
    ;

    /// Whether two sequences have equal elements in the same order.
    fn sequence_equal(self, other: Vec<T>) -> (r: bool)
        where
            T: PartialEq,
        requires
            T::obeys_eq_spec(),
        ensures
            r == (self@.len() == other@.len() && forall|i: int|
                0 <= i < other@.len() ==> (#[trigger] other@[i]).eq_spec(&self@[i])),
    ;
}

impl<T> LinqExt<T> for Vec<T> {
    fn where_<P: Fn(&T) -> bool>(self, predicate: P) -> (r: Vec<T>) {
        let ghost src = self@;
        let mut out: Vec<T> = Vec::new();
        let ghost mut picks: Seq<bool> = Seq::empty();
        for x in it: self.into_iter()
            invariant
                src == it.seq(),
                callable_on(predicate, src),
                picks.len() == it.index(),
                forall|i: int| 0 <= i < picks.len() ==> call_ensures(predicate, (&src[i],), #[trigger] picks[i]),
                out@ == filter_by(src.take(it.index() as int), picks),
        {
            let ghost i = it.index() as int;
            assert(x == src[i]);
            let b = predicate(&x);
            proof {
                let old_picks = picks;
                picks = picks.push(b);
                assert(picks.drop_last() == old_picks);
                lemma_filter_by_step(src, picks, i);
            }
            if b {
                out.push(x);
            }
        }
        proof {
            assert(src.take(src.len() as int) == src);
        }
        out
    }

    fn where_indexed<P: Fn(&T, usize) -> bool>(self, predicate: P) -> (r: Vec<T>) {
        let ghost src = self@;
        let _len: usize = self.len();
        let mut out: Vec<T> = Vec::new();
        let ghost mut picks: Seq<bool> = Seq::empty();
        let mut idx: usize = 0;
        for x in it: self.into_iter()
            invariant
                src == it.seq(),
                idx == it.index(),
                idx <= src.len(),
                src.len() <= usize::MAX,
                indexed_callable_on(predicate, src),
                picks.len() == it.index(),
                forall|i: int|
                    0 <= i < picks.len() ==> call_ensures(predicate, (&src[i], i as usize), #[trigger] picks[i]),
                out@ == filter_by(src.take(it.index() as int), picks),
        {
            let ghost i = it.index() as int;
            assert(x == src[i]);
            let b = predicate(&x, idx);
            proof {
                let old_picks = picks;
                picks = picks.push(b);
                assert(picks.drop_last() == old_picks);
                lemma_filter_by_step(src, picks, i);
            }
            if b {
                out.push(x);
            }
            idx = idx + 1;
        }
        proof {
            assert(src.take(src.len() as int) == src);
        }
        out
    }

    fn select<B, F: Fn(T) -> B>(self, f: F) -> (r: Vec<B>) {
        let ghost src = self@;
        let mut out: Vec<B> = Vec::new();
        for x in it: self.into_iter()
            invariant
                src == it.seq(),
                forall|i: int| 0 <= i < src.len() ==> call_requires(f, (#[trigger] src[i],)),
                out@.len() == it.index(),
                forall|i: int| 0 <= i < out@.len() ==> call_ensures(f, (src[i],), #[trigger] out@[i]),
        {
            out.push(f(x));
        }
        out
    }

    fn select_indexed<B, F: Fn(T, usize) -> B>(self, f: F) -> (r: Vec<B>) {
        let ghost src = self@;
        let _len: usize = self.len();
        let mut out: Vec<B> = Vec::new();
        let mut idx: usize = 0;
        for x in it: self.into_iter()
            invariant
                src == it.seq(),
                idx == it.index(),
                idx <= src.len(),
                src.len() <= usize::MAX,
                forall|i: int| 0 <= i < src.len() ==> call_requires(f, (#[trigger] src[i], i as usize)),
                out@.len() == it.index(),
                forall|i: int| 0 <= i < out@.len() ==> call_ensures(f, (src[i], i as usize), #[trigger] out@[i]),
        {
            assert(it.index() < it.seq().len());
            assert(x == src[idx as int]);
            out.push(f(x, idx));
            idx = idx + 1;
        }
        out
    }

    fn select_many<U, F: Fn(T) -> Vec<U>>(self, f: F) -> (r: Vec<U>) {
        let ghost src = self@;
        let mut out: Vec<U> = Vec::new();
        let ghost mut outs: Seq<Vec<U>> = Seq::empty();
        for x in it: self.into_iter()
            invariant
                src == it.seq(),
                forall|i: int| 0 <= i < src.len() ==> call_requires(f, (#[trigger] src[i],)),
                outs.len() == it.index(),
                forall|i: int| 0 <= i < outs.len() ==> call_ensures(f, (src[i],), #[trigger] outs[i]),
                out@ == flatten_views(outs),
        {
            let mut part = f(x);
            proof {
                lemma_flatten_views_push(outs, part);
                outs = outs.push(part);
            }
            out.append(&mut part);
        }
        out
    }

    fn select_many_indexed<U, F: Fn(T, usize) -> Vec<U>>(self, f: F) -> (r: Vec<U>) {
        let ghost src = self@;
        let _len: usize = self.len();
        let mut out: Vec<U> = Vec::new();
        let ghost mut outs: Seq<Vec<U>> = Seq::empty();
        let mut idx: usize = 0;
        for x in it: self.into_iter()
            invariant
                src == it.seq(),
                idx == it.index(),
                idx <= src.len(),
                src.len() <= usize::MAX,
                forall|i: int| 0 <= i < src.len() ==> call_requires(f, (#[trigger] src[i], i as usize)),
                outs.len() == it.index(),
                forall|i: int| 0 <= i < outs.len() ==> call_ensures(f, (src[i], i as usize), #[trigger] outs[i]),
                out@ == flatten_views(outs),
        {
            assert(it.index() < it.seq().len());
            assert(x == src[idx as int]);
            let mut part = f(x, idx);
            proof {
                lemma_flatten_views_push(outs, part);
                outs = outs.push(part);
            }
            out.append(&mut part);
            idx = idx + 1;
        }
        out
    }

    fn skip_(self, n: usize) -> (r: Vec<T>) {
        let mut v = self;
        if n <= v.len() {
            v.split_off(n)
        } else {
            Vec::new()
        }
    }

    fn take_(self, n: usize) -> (r: Vec<T>) {
        let mut v = self;
        if n <= v.len() {
            v.truncate(n);
        }
        v
    }

    fn skip_while_<P: Fn(&T) -> bool>(self, predicate: P) -> (r: Vec<T>) {
        let ghost src = self@;
        let mut v = self;
        let mut k: usize = 0;
        let mut stop = false;
        while !stop && k < v.len()
            invariant
                v@ == src,
                callable_on(predicate, src),
                0 <= k <= src.len(),
                forall|i: int| 0 <= i < k ==> call_ensures(predicate, (&#[trigger] src[i],), true),
                stop ==> k < src.len() && call_ensures(predicate, (&src[k as int],), false),
            decreases src.len() - k + if stop { 0int } else { 1int },
        {
            if predicate(&v[k]) {
                k = k + 1;
            } else {
                stop = true;
            }
        }
        proof {
            assert(while_stop(predicate, src, k as int));
        }
        v.split_off(k)
    }

    fn skip_while_indexed<P: Fn(&T, usize) -> bool>(self, predicate: P) -> (r: Vec<T>) {
        let ghost src = self@;
        let mut v = self;
        let mut k: usize = 0;
        let mut stop = false;
        while !stop && k < v.len()
            invariant
                v@ == src,
                indexed_callable_on(predicate, src),
                0 <= k <= src.len(),
                forall|i: int| 0 <= i < k ==> call_ensures(predicate, (&#[trigger] src[i], i as usize), true),
                stop ==> k < src.len() && call_ensures(predicate, (&src[k as int], k), false),
            decreases src.len() - k + if stop { 0int } else { 1int },
        {
            if predicate(&v[k], k) {
                k = k + 1;
            } else {
                stop = true;
            }
        }
        proof {
            assert(indexed_while_stop(predicate, src, k as int));
        }
        v.split_off(k)
    }

    fn take_while_<P: Fn(&T) -> bool>(self, predicate: P) -> (r: Vec<T>) {
        let ghost src = self@;
        let mut v = self;
        let mut k: usize = 0;
        let mut stop = false;
        while !stop && k < v.len()
            invariant
                v@ == src,
                callable_on(predicate, src),
                0 <= k <= src.len(),
                forall|i: int| 0 <= i < k ==> call_ensures(predicate, (&#[trigger] src[i],), true),
                stop ==> k < src.len() && call_ensures(predicate, (&src[k as int],), false),
            decreases src.len() - k + if stop { 0int } else { 1int },
        {
            if predicate(&v[k]) {
                k = k + 1;
            } else {
                stop = true;
            }
        }
        proof {
            assert(while_stop(predicate, src, k as int));
        }
        v.truncate(k);
        v
    }

    fn take_while_indexed<P: Fn(&T, usize) -> bool>(self, predicate: P) -> (r: Vec<T>) {
        let ghost src = self@;
        let mut v = self;
        let mut k: usize = 0;
        let mut stop = false;
        while !stop && k < v.len()
            invariant
                v@ == src,
                indexed_callable_on(predicate, src),
                0 <= k <= src.len(),
                forall|i: int| 0 <= i < k ==> call_ensures(predicate, (&#[trigger] src[i], i as usize), true),
                stop ==> k < src.len() && call_ensures(predicate, (&src[k as int], k), false),
            decreases src.len() - k + if stop { 0int } else { 1int },
        {
            if predicate(&v[k], k) {
                k = k + 1;
            } else {
                stop = true;
            }
        }
        proof {
            assert(indexed_while_stop(predicate, src, k as int));
        }
        v.truncate(k);
        v
    }

    fn skip_last(self, n: usize) -> (r: Vec<T>) {
        let mut v = self;
        if n <= v.len() {
            let keep = v.len() - n;
            v.truncate(keep);
            v
        } else {
            Vec::new()
        }
    }

    fn take_last(self, n: usize) -> (r: Vec<T>) {
        let mut v = self;
        if n <= v.len() {
            let start = v.len() - n;
            v.split_off(start)
        } else {
            v
        }
    }

    fn chunk(self, size: usize) -> (r: Vec<Vec<T>>) {
        let ghost src = self@;
        let mut out: Vec<Vec<T>> = Vec::new();
        let mut batch: Vec<T> = Vec::new();
        for x in it: self.into_iter()
            invariant
                src == it.seq(),
                size > 0,
                flatten_views(out@) + batch@ == src.take(it.index() as int),
                forall|i: int| 0 <= i < out@.len() ==> (#[trigger] out@[i])@.len() == size,
                batch@.len() < size,
        {
            let ghost i = it.index() as int;
            proof {
                assert(src.take(i + 1) == src.take(i).push(x));
            }
            batch.push(x);
            if batch.len() == size {
                let full = batch;
                batch = Vec::new();
                proof {
                    lemma_flatten_views_push(out@, full);
                }
                out.push(full);
            }
        }
        proof {
            assert(src.take(src.len() as int) == src);
        }
        if batch.len() > 0 {
            proof {
                lemma_flatten_views_push(out@, batch);
            }
            out.push(batch);
        }
        out
    }

    fn concat_(self, other: Vec<T>) -> (r: Vec<T>) {
        let mut v = self;
        let mut o = other;
        v.append(&mut o);
        v
    }

    fn reverse(self) -> (r: Vec<T>) {
        let ghost src = self@;
        let mut v = self;
        let mut out: Vec<T> = Vec::new();
        while v.len() > 0
            invariant
                v@ == src.take(src.len() - out@.len()),
                out@ == src.skip(src.len() - out@.len()).reverse(),
                out@.len() <= src.len(),
            decreases v@.len(),
        {
            let ghost k = src.len() - out@.len();
            let x = v.pop().unwrap();
            proof {
                assert(src.skip(k - 1) == seq![src[k - 1]] + src.skip(k));
                assert(src.skip(k - 1).reverse() == src.skip(k).reverse().push(src[k - 1]));
            }
            out.push(x);
        }
        proof {
            assert(src.skip(0) == src);
        }
        out
    }
    fn aggregate<Acc, F: Fn(Acc, T) -> Acc>(self, seed: Acc, f: F) -> (r: Acc) {
        let ghost src = self@;
        let mut acc = seed;
        let ghost mut accs: Seq<Acc> = seq![seed];
        for x in it: self.into_iter()
            invariant
                src == it.seq(),
                fold_callable(f, src),
                accs.len() == it.index() + 1,
                accs[0] == seed,
                forall|i: int| 0 <= i < it.index() ==> call_ensures(f, (#[trigger] accs[i], src[i]), accs[i + 1]),
                acc == accs.last(),
        {
            let ghost i = it.index() as int;
            let ghost before = acc;
            assert(call_requires(f, (before, src[i])));
            acc = f(acc, x);
            proof {
                accs = accs.push(acc);
                assert(accs[i] == before);
            }
        }
        acc
    }

    fn reduce_<F: Fn(T, T) -> T>(self, f: F) -> (r: Option<T>) {
        let ghost src = self@;
        let mut v = self;
        if v.len() == 0 {
            return None;
        }
        let seed = v.remove(0);
        proof {
            assert(v@ == src.drop_first());
            assert forall|acc: T, i: int| 0 <= i < v@.len() implies #[trigger] call_requires(f, (acc, v@[i])) by {
                assert(v@[i] == src[i + 1]);
            }
        }
        Some(v.aggregate(seed, f))
    }

    fn aggregate_with_selector<Acc, R, F: Fn(Acc, T) -> Acc, S: FnOnce(Acc) -> R>(
        self,
        seed: Acc,
        f: F,
        result_selector: S,
    ) -> (r: R) {
        let acc = self.aggregate(seed, f);
        result_selector(acc)
    }

    fn sum_(self) -> (r: T)
        where
            T: Summable,
    {
        total_of(self.as_slice())
    }

    fn sum_by<S: Summable, F: Fn(T) -> S>(self, selector: F) -> (r: S) {
        let vals = self.select(selector);
        total_of(vals.as_slice())
    }

    fn count_where<P: Fn(&T) -> bool>(self, predicate: P) -> (r: usize) {
        let ghost src = self@;
        let mut n: usize = 0;
        let mut i: usize = 0;
        let ghost mut picks: Seq<bool> = Seq::empty();
        while i < self.len()
            invariant
                self@ == src,
                callable_on(predicate, src),
                0 <= i <= src.len(),
                picks.len() == i,
                forall|j: int| 0 <= j < i ==> call_ensures(predicate, (&src[j],), #[trigger] picks[j]),
                n == count_true(picks),
                n <= i,
            decreases src.len() - i,
        {
            let b = predicate(&self[i]);
            proof {
                let old_picks = picks;
                picks = picks.push(b);
                assert(picks.drop_last() == old_picks);
            }
            if b {
                n = n + 1;
            }
            i = i + 1;
        }
        n
    }

    fn first(self) -> (r: T) {
        let mut v = self;
        v.swap_remove(0)
    }

    fn first_or_default(self) -> (r: Option<T>) {
        let mut v = self;
        if v.len() > 0 {
            Some(v.swap_remove(0))
        } else {
            None
        }
    }

    fn first_where<P: Fn(&T) -> bool>(self, predicate: P) -> (r: Option<T>) {
        let ghost src = self@;
        let mut v = self;
        let mut k: usize = 0;
        while k < v.len()
            invariant
                self@ == src,
                v@ == src,
                callable_on(predicate, src),
                0 <= k <= src.len(),
                forall|i: int| 0 <= i < k ==> call_ensures(predicate, (&#[trigger] src[i],), false),
            decreases src.len() - k,
        {
            if predicate(&v[k]) {
                let ghost kk = k as int;
                let found = v.swap_remove(k);
                assert(search_stop(predicate, src, kk));
                assert(found == src[kk]);
                return Some(found);
            }
            k = k + 1;
        }
        proof {
            let kk = src.len() as int;
            assert(search_stop(predicate, src, kk));
        }
        None
    }

    fn last_(self) -> (r: T) {
        let mut v = self;
        v.pop().unwrap()
    }

    fn last_or_default(self) -> (r: Option<T>) {
        let mut v = self;
        v.pop()
    }

    fn last_where<P: Fn(&T) -> bool>(self, predicate: P) -> (r: Option<T>) {
        let mut kept = self.where_(predicate);
        kept.pop()
    }

    fn element_at(self, index: usize) -> (r: Option<T>) {
        let mut v = self;
        if index < v.len() {
            Some(v.swap_remove(index))
        } else {
            None
        }
    }

    fn element_at_strict(self, index: usize) -> (r: T) {
        let mut v = self;
        v.swap_remove(index)
    }

    fn try_single(self) -> (r: Result<T, SingleError>) {
        let mut v = self;
        if v.len() == 0 {
            Err(SingleError::Empty)
        } else if v.len() >= 2 {
            Err(SingleError::MoreThanOne)
        } else {
            Ok(v.swap_remove(0))
        }
    }

    fn single(self) -> (r: T) {
        let mut v = self;
        v.swap_remove(0)
    }

    fn single_or_default(self) -> (r: Result<Option<T>, SingleError>) {
        match self.try_single() {
            Ok(value) => Ok(Some(value)),
            Err(SingleError::Empty) => Ok(None),
            Err(SingleError::MoreThanOne) => Err(SingleError::MoreThanOne),
        }
    }

    fn first_or(self, default: T) -> (r: T) {
        match self.first_or_default() {
            Some(x) => x,
            None => default,
        }
    }

    fn last_or(self, default: T) -> (r: T) {
        match self.last_or_default() {
            Some(x) => x,
            None => default,
        }
    }

    fn single_or(self, default: T) -> (r: T) {
        match self.try_single() {
            Ok(value) => value,
            Err(_) => default,
        }
    }

    fn element_at_or(self, index: usize, default: T) -> (r: T) {
        match self.element_at(index) {
            Some(x) => x,
            None => default,
        }
    }

    fn default_if_empty(self, default: T) -> (r: Vec<T>) {
        let mut v = self;
        if v.len() == 0 {
            v.push(default);
        }
        v
    }

    fn any_<P: Fn(T) -> bool>(self, predicate: P) -> (r: bool) {
        let ghost src = self@;
        let _len: usize = self.len();
        let mut seen: usize = 0;
        for x in it: self.into_iter()
            invariant
                src == it.seq(),
                seen == it.index(),
                src.len() <= usize::MAX,
                forall|i: int| 0 <= i < src.len() ==> call_requires(predicate, (#[trigger] src[i],)),
                forall|i: int| 0 <= i < seen ==> call_ensures(predicate, (#[trigger] src[i],), false),
        {
            assert(it.index() < it.seq().len());
            assert(x == src[seen as int]);
            if predicate(x) {
                let ghost kk = seen as int;
                assert(owned_scan_stop(predicate, src, kk, true));
                return true;
            }
            seen = seen + 1;
        }
        proof {
            let kk = src.len() as int;
            assert(owned_scan_stop(predicate, src, kk, true));
        }
        false
    }

    fn all_<P: Fn(T) -> bool>(self, predicate: P) -> (r: bool) {
        let ghost src = self@;
        let _len: usize = self.len();
        let mut seen: usize = 0;
        for x in it: self.into_iter()
            invariant
                src == it.seq(),
                seen == it.index(),
                src.len() <= usize::MAX,
                forall|i: int| 0 <= i < src.len() ==> call_requires(predicate, (#[trigger] src[i],)),
                forall|i: int| 0 <= i < seen ==> call_ensures(predicate, (#[trigger] src[i],), true),
        {
            assert(it.index() < it.seq().len());
            assert(x == src[seen as int]);
            if !predicate(x) {
                let ghost kk = seen as int;
                assert(owned_scan_stop(predicate, src, kk, false));
                return false;
            }
            seen = seen + 1;
        }
        proof {
            let kk = src.len() as int;
            assert(owned_scan_stop(predicate, src, kk, false));
        }
        true
    }

    fn contains_<U>(self, value: &U) -> (r: bool)
        where
            T: PartialEq<U>,
    {
        let mut i: usize = 0;
        while i < self.len()
            invariant
                <T as PartialEqSpec<U>>::obeys_eq_spec(),
                0 <= i <= self@.len(),
                forall|j: int| 0 <= j < i ==> !(#[trigger] self@[j]).eq_spec(value),
            decreases self@.len() - i,
        {
            if self[i].eq(value) {
                return true;
            }
            i = i + 1;
        }
        false
    }

    fn distinct_partial_eq(self) -> (r: Vec<T>)
        where
            T: PartialEq,
    {
        let flags = first_occurrence_flags(&self);
        filter_by_flags(self, &flags)
    }

    fn distinct_by_partial_eq<K: PartialEq, F: Fn(&T) -> K>(self, key_fn: F) -> (r: Vec<T>) {
        let keys = key_list(&self, &key_fn);
        let flags = first_occurrence_flags(&keys);
        let r = filter_by_flags(self, &flags);
        assert(keys_trace(key_fn, self@, keys@));
        r
    }

    fn distinct(self) -> (r: Vec<T>)
        where
            T: Eq + Hash + Clone,
    {
        let keys = clone_list(&self);
        proof {
            assert forall|j: int| 0 <= j < self@.len() implies keys@[j] == self@[j] by {
                assert(cloned(self@[j], keys@[j]));
            }
            assert(keys@ =~= self@);
        }
        let flags = first_occurrence_flags_hashed(keys);
        filter_by_flags(self, &flags)
    }

    fn distinct_by<K: Eq + Hash, F: Fn(&T) -> K>(self, key_fn: F) -> (r: Vec<T>) {
        let keys = key_list(&self, &key_fn);
        let ghost kv = keys@;
        let flags = first_occurrence_flags_hashed(keys);
        let r = filter_by_flags(self, &flags);
        assert(keys_trace(key_fn, self@, kv));
        r
    }

    fn except_partial_eq(self, other: Vec<T>) -> (r: Vec<T>)
        where
            T: PartialEq,
    {
        let flags = membership_flags(&self, &other, false);
        assert(flags@ =~= Seq::new(self@.len(), |i: int| !has_key(partial_eqv(), other@, self@[i])));
        filter_by_flags(self, &flags)
    }

    fn intersect_partial_eq(self, other: Vec<T>) -> (r: Vec<T>)
        where
            T: PartialEq,
    {
        let flags = membership_flags(&self, &other, true);
        assert(flags@ =~= Seq::new(self@.len(), |i: int| has_key(partial_eqv(), other@, self@[i])));
        filter_by_flags(self, &flags)
    }

    fn union_partial_eq(self, other: Vec<T>) -> (r: Vec<T>)
        where
            T: PartialEq,
    {
        let all = self.concat_(other);
        all.distinct_partial_eq()
    }

    fn except_by<K: PartialEq, F: Fn(&T) -> K>(self, other_keys: Vec<K>, key_fn: F) -> (r: Vec<T>) {
        let keys = key_list(&self, &key_fn);
        let flags = membership_flags(&keys, &other_keys, false);
        assert(flags@ =~= Seq::new(self@.len(), |i: int| !has_key(partial_eqv(), other_keys@, keys@[i])));
        let r = filter_by_flags(self, &flags);
        assert(keys_trace(key_fn, self@, keys@));
        r
    }

    fn intersect_by<K: PartialEq, F: Fn(&T) -> K>(self, other_keys: Vec<K>, key_fn: F) -> (r: Vec<T>) {
        let keys = key_list(&self, &key_fn);
        let flags = membership_flags(&keys, &other_keys, true);
        assert(flags@ =~= Seq::new(self@.len(), |i: int| has_key(partial_eqv(), other_keys@, keys@[i])));
        let r = filter_by_flags(self, &flags);
        assert(keys_trace(key_fn, self@, keys@));
        r
    }

    fn except(self, other: Vec<T>) -> (r: Vec<T>)
        where
            T: Eq + Hash + Clone,
    {
        let ghost ov = other@;
        let flags = membership_flags_hashed(&self, other, false);
        assert(flags@ =~= Seq::new(self@.len(), |i: int| !ov.contains(self@[i])));
        filter_by_flags(self, &flags)
    }

    fn intersect(self, other: Vec<T>) -> (r: Vec<T>)
        where
            T: Eq + Hash + Clone,
    {
        let ghost ov = other@;
        let flags = membership_flags_hashed(&self, other, true);
        assert(flags@ =~= Seq::new(self@.len(), |i: int| ov.contains(self@[i])));
        filter_by_flags(self, &flags)
    }

    fn union_(self, other: Vec<T>) -> (r: Vec<T>)
        where
            T: Eq + Hash + Clone,
    {
        let all = self.concat_(other);
        all.distinct()
    }

    fn union_by<K: PartialEq, F: Fn(&T) -> K>(self, other: Vec<T>, key_fn: F) -> (r: Vec<T>) {
        let all = self.concat_(other);
        all.distinct_by_partial_eq(key_fn)
    }

    fn group_by_key_partial_eq<K: PartialEq, F: Fn(&T) -> K>(self, key_fn: F) -> (r: Vec<Grouping<K, T>>) {
        let keys = key_list(&self, &key_fn);
        let ghost kv = keys@;
        let ghost sv = self@;
        let pairs = pair_up(keys, self);
        let r = group_pairs_partial_eq(pairs);
        assert(keys_trace(key_fn, sv, kv));
        r
    }

    fn group_by_with_element<K: PartialEq, E, KF: Fn(&T) -> K, EF: Fn(T) -> E>(
        self,
        key_fn: KF,
        element_fn: EF,
    ) -> (r: Vec<Grouping<K, E>>) {
        let keys = key_list(&self, &key_fn);
        let ghost kv = keys@;
        let ghost sv = self@;
        let es = self.select(element_fn);
        let ghost ev = es@;
        let pairs = pair_up(keys, es);
        let r = group_pairs_partial_eq(pairs);
        assert(keys_trace(key_fn, sv, kv));
        assert(forall|i: int| 0 <= i < ev.len() ==> call_ensures(element_fn, (sv[i],), #[trigger] ev[i]));
        r
    }

    fn group_by_with_result<K: PartialEq, R, KF: Fn(&T) -> K, RF: Fn(K, Vec<T>) -> R>(
        self,
        key_fn: KF,
        result_fn: RF,
    ) -> (r: Vec<R>) {
        let ghost sv = self@;
        let groups = self.group_by_key_partial_eq(key_fn);
        let ghost gs = groups@;
        let ghost keys = choose|keys: Seq<K>| keys_trace(key_fn, sv, keys) && is_grouping(partial_eqv(), keys, sv, keys_of(gs), elems_of(gs));
        let _len: usize = groups.len();
        let mut out: Vec<R> = Vec::new();
        let mut idx: usize = 0;
        for g in it: groups.into_iter()
            invariant
                gs == it.seq(),
                idx == it.index(),
                idx <= gs.len(),
                gs.len() <= usize::MAX,
                forall|k: K, v: Vec<T>| call_requires(result_fn, (k, v)),
                out@.len() == idx,
                forall|j: int| 0 <= j < out@.len() ==> #[trigger] group_result(result_fn, gs[j], out@[j]),
        {
            assert(it.index() < it.seq().len());
            assert(g == gs[idx as int]);
            let (k, v) = g.into_parts();
            let ghost vv = v;
            let res = result_fn(k, v);
            out.push(res);
            proof {
                assert(vv@ == gs[idx as int].spec_elements());
                assert(group_result(result_fn, gs[idx as int], res));
            }
            idx = idx + 1;
        }
        proof {
            assert(keys_trace(key_fn, sv, keys) && is_grouping(partial_eqv(), keys, sv, keys_of(gs), elems_of(gs)));
        }
        out
    }

    fn count_by_partial_eq<K: PartialEq, F: Fn(&T) -> K>(self, key_fn: F) -> (r: Vec<(K, usize)>) {
        let ghost sv = self@;
        let groups = self.group_by_key_partial_eq(key_fn);
        let ghost gs = groups@;
        let ghost keys = choose|keys: Seq<K>| keys_trace(key_fn, sv, keys) && is_grouping(partial_eqv(), keys, sv, keys_of(gs), elems_of(gs));
        let r = count_groups(groups);
        assert(keys_trace(key_fn, sv, keys) && is_grouping(partial_eqv(), keys, sv, keys_of(gs), elems_of(gs)));
        r
    }

    fn group_by_key<K: Eq + Hash + Clone, F: Fn(&T) -> K>(self, key_fn: F) -> (r: Vec<Grouping<K, T>>) {
        let keys = key_list(&self, &key_fn);
        let ghost kv = keys@;
        let ghost sv = self@;
        let pairs = pair_up(keys, self);
        let r = group_pairs_hashed(pairs);
        assert(keys_trace(key_fn, sv, kv));
        r
    }

    fn count_by<K: Eq + Hash + Clone, F: Fn(&T) -> K>(self, key_fn: F) -> (r: Vec<(K, usize)>) {
        let ghost sv = self@;
        let groups = self.group_by_key(key_fn);
        let ghost gs = groups@;
        let ghost keys = choose|keys: Seq<K>| keys_trace(key_fn, sv, keys) && is_grouping(ident_eqv(), keys, sv, keys_of(gs), elems_of(gs));
        let r = count_groups(groups);
        assert(keys_trace(key_fn, sv, keys) && is_grouping(ident_eqv(), keys, sv, keys_of(gs), elems_of(gs)));
        r
    }

    fn aggregate_by<K: Eq + Hash + Clone, Acc, KF: Fn(&T) -> K, SF: Fn(&K) -> Acc, AF: Fn(Acc, T) -> Acc>(
        self,
        key_fn: KF,
        seed_fn: SF,
        accum: AF,
    ) -> (r: Vec<(K, Acc)>) {
        let ghost sv = self@;
        let groups = self.group_by_key(key_fn);
        let ghost gs = groups@;
        let ghost keys = choose|keys: Seq<K>| keys_trace(key_fn, sv, keys) && is_grouping(ident_eqv(), keys, sv, keys_of(gs), elems_of(gs));
        let r = fold_groups(groups, &seed_fn, &accum);
        assert(keys_trace(key_fn, sv, keys) && is_grouping(ident_eqv(), keys, sv, keys_of(gs), elems_of(gs)));
        r
    }

    fn aggregate_by_partial_eq<K: PartialEq, Acc, KF: Fn(&T) -> K, SF: Fn(&K) -> Acc, AF: Fn(Acc, T) -> Acc>(
        self,
        key_fn: KF,
        seed_fn: SF,
        accum: AF,
    ) -> (r: Vec<(K, Acc)>) {
        let ghost sv = self@;
        let groups = self.group_by_key_partial_eq(key_fn);
        let ghost gs = groups@;
        let ghost keys = choose|keys: Seq<K>| keys_trace(key_fn, sv, keys) && is_grouping(partial_eqv(), keys, sv, keys_of(gs), elems_of(gs));
        let r = fold_groups(groups, &seed_fn, &accum);
        assert(keys_trace(key_fn, sv, keys) && is_grouping(partial_eqv(), keys, sv, keys_of(gs), elems_of(gs)));
        r
    }

    fn inner_join_partial_eq<U: Clone, OK, IK: PartialEq<OK>, R, OKF: Fn(&T) -> OK, IKF: Fn(&U) -> IK, RF: Fn(T, U) -> R>(
        self,
        inner: Vec<U>,
        outer_key_fn: OKF,
        inner_key_fn: IKF,
        result_selector: RF,
    ) -> (r: Vec<R>)
        where
            T: Clone,
    {
        let okeys = key_list(&self, &outer_key_fn);
        let ikeys = key_list(&inner, &inner_key_fn);
        let mut out: Vec<R> = Vec::new();
        let ghost mut rows: Seq<Seq<R>> = Seq::empty();
        let mut i: usize = 0;
        while i < self.len()
            invariant
                <IK as PartialEqSpec<OK>>::obeys_eq_spec(),
                okeys@.len() == self@.len(),
                ikeys@.len() == inner@.len(),
                forall|a: T, b: U| call_requires(result_selector, (a, b)),
                0 <= i <= self@.len(),
                rows.len() == i,
                forall|m: int| 0 <= m < i ==> #[trigger] joined_row(
                    result_selector,
                    self@[m],
                    inner@,
                    matched_indices(cross_eqv(), ikeys@, okeys@[m]),
                    rows[m],
                ),
                out@ == rows.flatten(),
            decreases self@.len() - i,
        {
            let idx = matching_indices(&ikeys, &okeys[i]);
            let mut row = join_row(&self[i], &inner, &idx, &result_selector);
            proof {
                rows.lemma_flatten_push(row@);
                rows = rows.push(row@);
            }
            out.append(&mut row);
            i = i + 1;
        }
        proof {
            assert(keys_trace(outer_key_fn, self@, okeys@));
            assert(keys_trace(inner_key_fn, inner@, ikeys@));
        }
        out
    }

    fn inner_join<U: Clone, Key: Eq + Hash, R, OKF: Fn(&T) -> Key, IKF: Fn(&U) -> Key, RF: Fn(T, U) -> R>(
        self,
        inner: Vec<U>,
        outer_key_fn: OKF,
        inner_key_fn: IKF,
        result_selector: RF,
    ) -> (r: Vec<R>)
        where
            T: Clone,
    {
        broadcast use vstd::std_specs::hash::group_hash_axioms;
        let okeys = key_list(&self, &outer_key_fn);
        let ikeys = key_list(&inner, &inner_key_fn);
        let ghost iks = ikeys@;
        let (index, buckets) = bucket_indices(ikeys);
        let empty: Vec<usize> = Vec::new();
        let mut out: Vec<R> = Vec::new();
        let ghost mut rows: Seq<Seq<R>> = Seq::empty();
        let mut i: usize = 0;
        while i < self.len()
            invariant
                obeys_key_model::<Key>(),
                okeys@.len() == self@.len(),
                iks.len() == inner@.len(),
                empty@.len() == 0,
                forall|k: Key| #[trigger] index@.contains_key(k) ==> index@[k] < buckets@.len() && as_ints(buckets@[index@[k] as int]@)
                    == matched_indices(ident_eqv(), iks, k),
                forall|k: Key| !#[trigger] index@.contains_key(k) ==> matched_indices(ident_eqv(), iks, k) == Seq::<int>::empty(),
                forall|b: int, t: int| 0 <= b < buckets@.len() && 0 <= t < buckets@[b]@.len() ==> #[trigger] buckets@[b]@[t] < iks.len(),
                forall|a: T, b: U| call_requires(result_selector, (a, b)),
                0 <= i <= self@.len(),
                rows.len() == i,
                forall|m: int| 0 <= m < i ==> #[trigger] joined_row(
                    result_selector,
                    self@[m],
                    inner@,
                    matched_indices(ident_eqv(), iks, okeys@[m]),
                    rows[m],
                ),
                out@ == rows.flatten(),
            decreases self@.len() - i,
        {
            let idx: &Vec<usize> = match index.get(&okeys[i]) {
                Some(pos) => &buckets[*pos],
                None => &empty,
            };
            proof {
                assert(as_ints(idx@) == matched_indices(ident_eqv(), iks, okeys@[i as int]));
            }
            let mut row = join_row(&self[i], &inner, idx, &result_selector);
            proof {
                rows.lemma_flatten_push(row@);
                rows = rows.push(row@);
            }
            out.append(&mut row);
            i = i + 1;
        }
        proof {
            assert(keys_trace(outer_key_fn, self@, okeys@));
            assert(keys_trace(inner_key_fn, inner@, iks));
        }
        out
    }

    fn group_join_partial_eq<U: Clone, OK, IK: PartialEq<OK>, R, OKF: Fn(&T) -> OK, IKF: Fn(&U) -> IK, RF: Fn(T, Vec<U>) -> R>(
        self,
        inner: Vec<U>,
        outer_key_fn: OKF,
        inner_key_fn: IKF,
        result_selector: RF,
    ) -> (r: Vec<R>) {
        let ghost src = self@;
        let okeys = key_list(&self, &outer_key_fn);
        let ikeys = key_list(&inner, &inner_key_fn);
        let _len: usize = self.len();
        let mut out: Vec<R> = Vec::new();
        let ghost mut groups: Seq<Vec<U>> = Seq::empty();
        let mut i: usize = 0;
        for x in it: self.into_iter()
            invariant
                src == it.seq(),
                i == it.index(),
                i <= src.len(),
                src.len() <= usize::MAX,
                <IK as PartialEqSpec<OK>>::obeys_eq_spec(),
                okeys@.len() == src.len(),
                ikeys@.len() == inner@.len(),
                forall|a: T, g: Vec<U>| call_requires(result_selector, (a, g)),
                groups.len() == i,
                out@.len() == i,
                forall|m: int| 0 <= m < i ==> cloned_group(
                    inner@,
                    matched_indices(cross_eqv(), ikeys@, okeys@[m]),
                    (#[trigger] groups[m])@,
                ) && call_ensures(result_selector, (src[m], groups[m]), out@[m]),
        {
            assert(it.index() < it.seq().len());
            assert(x == src[i as int]);
            let idx = matching_indices(&ikeys, &okeys[i]);
            let g = clone_at(&inner, &idx);
            let ghost gg = g;
            let res = result_selector(x, g);
            proof {
                groups = groups.push(gg);
            }
            out.push(res);
            i = i + 1;
        }
        proof {
            assert(keys_trace(outer_key_fn, src, okeys@));
            assert(keys_trace(inner_key_fn, inner@, ikeys@));
        }
        out
    }

    fn group_join<U: Clone, Key: Eq + Hash, R, OKF: Fn(&T) -> Key, IKF: Fn(&U) -> Key, RF: Fn(T, Vec<U>) -> R>(
        self,
        inner: Vec<U>,
        outer_key_fn: OKF,
        inner_key_fn: IKF,
        result_selector: RF,
    ) -> (r: Vec<R>) {
        broadcast use vstd::std_specs::hash::group_hash_axioms;
        let ghost src = self@;
        let okeys = key_list(&self, &outer_key_fn);
        let ikeys = key_list(&inner, &inner_key_fn);
        let ghost iks = ikeys@;
        let (index, buckets) = bucket_indices(ikeys);
        let empty: Vec<usize> = Vec::new();
        let _len: usize = self.len();
        let mut out: Vec<R> = Vec::new();
        let ghost mut groups: Seq<Vec<U>> = Seq::empty();
        let mut i: usize = 0;
        for x in it: self.into_iter()
            invariant
                src == it.seq(),
                i == it.index(),
                i <= src.len(),
                src.len() <= usize::MAX,
                obeys_key_model::<Key>(),
                okeys@.len() == src.len(),
                iks.len() == inner@.len(),
                empty@.len() == 0,
                forall|k: Key| #[trigger] index@.contains_key(k) ==> index@[k] < buckets@.len() && as_ints(buckets@[index@[k] as int]@)
                    == matched_indices(ident_eqv(), iks, k),
                forall|k: Key| !#[trigger] index@.contains_key(k) ==> matched_indices(ident_eqv(), iks, k) == Seq::<int>::empty(),
                forall|b: int, t: int| 0 <= b < buckets@.len() && 0 <= t < buckets@[b]@.len() ==> #[trigger] buckets@[b]@[t] < iks.len(),
                forall|a: T, g: Vec<U>| call_requires(result_selector, (a, g)),
                groups.len() == i,
                out@.len() == i,
                forall|m: int| 0 <= m < i ==> cloned_group(
                    inner@,
                    matched_indices(ident_eqv(), iks, okeys@[m]),
                    (#[trigger] groups[m])@,
                ) && call_ensures(result_selector, (src[m], groups[m]), out@[m]),
        {
            assert(it.index() < it.seq().len());
            assert(x == src[i as int]);
            let idx: &Vec<usize> = match index.get(&okeys[i]) {
                Some(pos) => &buckets[*pos],
                None => &empty,
            };
            proof {
                assert(as_ints(idx@) == matched_indices(ident_eqv(), iks, okeys@[i as int]));
            }
            let g = clone_at(&inner, idx);
            let ghost gg = g;
            let res = result_selector(x, g);
            proof {
                groups = groups.push(gg);
            }
            out.push(res);
            i = i + 1;
        }
        proof {
            assert(keys_trace(outer_key_fn, src, okeys@));
            assert(keys_trace(inner_key_fn, inner@, iks));
        }
        out
    }

    fn to_hashset(self) -> (r: HashSet<T>)
        where
            T: Eq + Hash,
    {
        broadcast use vstd::std_specs::hash::group_hash_axioms;
        let ghost src = self@;
        let _len: usize = self.len();
        let mut set: HashSet<T> = HashSet::new();
        let mut i: usize = 0;
        for x in it: self.into_iter()
            invariant
                src == it.seq(),
                i == it.index(),
                i <= src.len(),
                src.len() <= usize::MAX,
                obeys_key_model::<T>(),
                set@ == src.take(i as int).to_set(),
        {
            assert(it.index() < it.seq().len());
            assert(x == src[i as int]);
            proof {
                assert(src.take(i + 1) == src.take(i as int).push(x));
                src.take(i as int).lemma_push_to_set_commute(x);
            }
            set.insert(x);
            i = i + 1;
        }
        proof {
            assert(src.take(src.len() as int) == src);
        }
        set
    }

    fn to_hashmap<K: Eq + Hash, F: Fn(&T) -> K>(self, key_fn: F) -> (r: HashMap<K, T>) {
        broadcast use vstd::std_specs::hash::group_hash_axioms;
        let ghost src = self@;
        let keys = key_list(&self, &key_fn);
        let ghost kv = keys@;
        let pairs = pair_up(keys, self);
        let _len: usize = pairs.len();
        let ghost ps = pairs@;
        let mut map: HashMap<K, T> = HashMap::new();
        let mut i: usize = 0;
        for p in it: pairs.into_iter()
            invariant
                ps == it.seq(),
                i == it.index(),
                i <= ps.len(),
                ps.len() <= usize::MAX,
                ps.len() == src.len(),
                kv.len() == src.len(),
                forall|j: int| 0 <= j < ps.len() ==> #[trigger] ps[j] == (kv[j], src[j]),
                obeys_key_model::<K>(),
                map@ == last_by_key(kv.take(i as int), src.take(i as int)),
        {
            assert(it.index() < it.seq().len());
            assert(p == ps[i as int]);
            let (k, v) = p;
            proof {
                assert(ps[i as int] == (kv[i as int], src[i as int]));
                assert(kv.take(i + 1).drop_last() == kv.take(i as int));
                assert(src.take(i + 1).drop_last() == src.take(i as int));
            }
            map.insert(k, v);
            i = i + 1;
        }
        proof {
            assert(kv.take(src.len() as int) == kv);
            assert(src.take(src.len() as int) == src);
            assert(keys_trace(key_fn, src, kv));
        }
        map
    }

    fn order_by<K: SortKey, F: Fn(&T) -> K>(self, key_fn: F) -> (r: OrderedQueryable<T>) {
        let r = OrderedQueryable::new(self).then_by(key_fn);
        proof {
            let keys = choose|keys: Seq<K>| keys_trace(key_fn, self@, keys) && r.spec_order() == then_order(all_equal_order(), key_order(keys, false));
            assert(then_order(all_equal_order(), key_order(keys, false)) =~= key_order(keys, false));
        }
        r
    }

    fn order_by_descending<K: SortKey, F: Fn(&T) -> K>(self, key_fn: F) -> (r: OrderedQueryable<T>) {
        let r = OrderedQueryable::new(self).then_by_descending(key_fn);
        proof {
            let keys = choose|keys: Seq<K>| keys_trace(key_fn, self@, keys) && r.spec_order() == then_order(all_equal_order(), key_order(keys, true));
            assert(then_order(all_equal_order(), key_order(keys, true)) =~= key_order(keys, true));
        }
        r
    }

    fn order_by_with<F: Fn(&T, &T) -> Ordering>(self, comparer: F) -> (r: OrderedQueryable<T>) {
        let ghost sv = self@;
        let ghost cg = comparer;
        let r = OrderedQueryable::new(self).then_by_with(comparer);
        proof {
            assert(then_order(all_equal_order(), comparer_order(cg, sv)) =~= comparer_order(cg, sv));
        }
        r
    }

    fn order(self) -> (r: OrderedQueryable<T>)
        where
            T: SortKey + Copy,
    {
        let ghost sv = self@;
        let identity = |x: &T| -> (k: T)
            ensures
                k == *x,
            { *x };
        let ghost kf = identity;
        let r = self.order_by(identity);
        proof {
            let keys = choose|keys: Seq<T>| keys_trace(kf, sv, keys) && r.spec_order() == key_order(keys, false);
            assert(keys =~= sv);
        }
        r
    }

    fn order_descending(self) -> (r: OrderedQueryable<T>)
        where
            T: SortKey + Copy,
    {
        let ghost sv = self@;
        let identity = |x: &T| -> (k: T)
            ensures
                k == *x,
            { *x };
        let ghost kf = identity;
        let r = self.order_by_descending(identity);
        proof {
            let keys = choose|keys: Seq<T>| keys_trace(kf, sv, keys) && r.spec_order() == key_order(keys, true);
            assert(keys =~= sv);
        }
        r
    }

    fn min_by_key_<K: SortKey, F: Fn(&T) -> K>(self, key_fn: F) -> (r: Option<T>) {
        let keys = key_list(&self, &key_fn);
        if keys.len() == 0 {
            return None;
        }
        let i = extreme_position(&keys, false);
        let ghost sv = self@;
        let mut v = self;
        let x = v.remove(i);
        assert(keys_trace(key_fn, sv, keys@) && is_first_min(keys@, i as int));
        Some(x)
    }

    fn max_by_key_<K: SortKey, F: Fn(&T) -> K>(self, key_fn: F) -> (r: Option<T>) {
        let keys = key_list(&self, &key_fn);
        if keys.len() == 0 {
            return None;
        }
        let i = extreme_position(&keys, true);
        let ghost sv = self@;
        let mut v = self;
        let x = v.remove(i);
        assert(keys_trace(key_fn, sv, keys@) && is_last_max(keys@, i as int));
        Some(x)
    }

    fn min_(self) -> (r: Option<T>)
        where
            T: SortKey,
    {
        if self.len() == 0 {
            return None;
        }
        let i = extreme_position(&self, false);
        let ghost sv = self@;
        let mut v = self;
        let x = v.remove(i);
        assert(is_first_min(sv, i as int));
        Some(x)
    }

    fn max_(self) -> (r: Option<T>)
        where
            T: SortKey,
    {
        if self.len() == 0 {
            return None;
        }
        let i = extreme_position(&self, true);
        let ghost sv = self@;
        let mut v = self;
        let x = v.remove(i);
        assert(is_last_max(sv, i as int));
        Some(x)
    }

    fn to_lookup<K: Eq + Hash + Clone, F: Fn(&T) -> K>(self, key_fn: F) -> (r: Lookup<K, T>) {
        let keys = key_list(&self, &key_fn);
        let ghost kv = keys@;
        let ghost sv = self@;
        let pairs = pair_up(keys, self);
        let r = Lookup::from_pairs(pairs);
        assert(keys_trace(key_fn, sv, kv));
        r
    }

    fn of_type<U: TryFrom<T>>(self) -> (r: Vec<U>) {
        convert_all(self)
    }

    fn cast<U: TryFrom<T>>(self) -> (r: Vec<U>) {
        let ghost src = self@;
        let r = convert_all::<T, U>(self);
        proof {
            let outs = choose|outs: Seq<Result<U, U::Error>>| conversions_of(src, outs) && r@ == oks(outs);
            lemma_oks_all_ok::<T, U>(src, outs);
            assert forall|i: int| 0 <= i < src.len() implies call_ensures(U::try_from, (src[i],), Ok::<U, U::Error>(#[trigger] r@[i])) by {
                assert(call_ensures(U::try_from, (src[i],), outs[i]));
            }
        }
        r
    }

    fn to_vec(self) -> (r: Vec<T>) {
        self
    }

    fn zip_<U, R, F: Fn(T, U) -> R>(self, other: Vec<U>, result_selector: F) -> (r: Vec<R>) {
        let ghost a = self@;
        let ghost b = other@;
        let mut firsts = self;
        let mut seconds = other;
        let n = if firsts.len() <= seconds.len() { firsts.len() } else { seconds.len() };
        firsts.truncate(n);
        seconds.truncate(n);
        let mut out: Vec<R> = Vec::new();
        // Consume both from the back, then restore order.
        let mut rev: Vec<R> = Vec::new();
        while firsts.len() > 0
            invariant
                firsts@ == a.take(n - rev@.len()),
                seconds@ == b.take(n - rev@.len()),
                n <= a.len(),
                n <= b.len(),
                rev@.len() <= n,
                forall|i: int| 0 <= i < a.len() && 0 <= i < b.len() ==> call_requires(result_selector, (#[trigger] a[i], b[i])),
                forall|j: int| 0 <= j < rev@.len() ==> call_ensures(result_selector, (a[n - 1 - j], b[n - 1 - j]), #[trigger] rev@[j]),
            decreases firsts@.len(),
        {
            let x = firsts.pop().unwrap();
            let y = seconds.pop().unwrap();
            rev.push(result_selector(x, y));
        }
        while rev.len() > 0
            invariant
                rev@.len() + out@.len() == n,
                forall|j: int| 0 <= j < rev@.len() ==> call_ensures(result_selector, (a[n - 1 - j], b[n - 1 - j]), #[trigger] rev@[j]),
                forall|i: int| 0 <= i < out@.len() ==> call_ensures(result_selector, (a[i], b[i]), #[trigger] out@[i]),
            decreases rev@.len(),
        {
            let ghost k = out@.len();
            let y = rev.pop().unwrap();
            proof {
                assert(n - 1 - rev@.len() == k);
            }
            out.push(y);
        }
        out
    }

    fn zip3<U, V, R, F: Fn(T, U, V) -> R>(self, second: Vec<U>, third: Vec<V>, result_selector: F) -> (r: Vec<R>) {
        let ghost a = self@;
        let ghost b = second@;
        let ghost c = third@;
        let mut xs = self;
        let mut ys = second;
        let mut zs = third;
        let mut n = xs.len();
        if ys.len() < n {
            n = ys.len();
        }
        if zs.len() < n {
            n = zs.len();
        }
        xs.truncate(n);
        ys.truncate(n);
        zs.truncate(n);
        let mut rev: Vec<R> = Vec::new();
        while xs.len() > 0
            invariant
                xs@ == a.take(n - rev@.len()),
                ys@ == b.take(n - rev@.len()),
                zs@ == c.take(n - rev@.len()),
                n <= a.len(),
                n <= b.len(),
                n <= c.len(),
                n == a.len() || n == b.len() || n == c.len(),
                rev@.len() <= n,
                forall|i: int| 0 <= i < a.len() && 0 <= i < b.len() && 0 <= i < c.len() ==> call_requires(result_selector, (#[trigger] a[i], b[i], c[i])),
                forall|j: int| 0 <= j < rev@.len() ==> call_ensures(result_selector, (a[n - 1 - j], b[n - 1 - j], c[n - 1 - j]), #[trigger] rev@[j]),
            decreases xs@.len(),
        {
            let x = xs.pop().unwrap();
            let y = ys.pop().unwrap();
            let z = zs.pop().unwrap();
            rev.push(result_selector(x, y, z));
        }
        let mut out: Vec<R> = Vec::new();
        while rev.len() > 0
            invariant
                rev@.len() + out@.len() == n,
                forall|j: int| 0 <= j < rev@.len() ==> call_ensures(result_selector, (a[n - 1 - j], b[n - 1 - j], c[n - 1 - j]), #[trigger] rev@[j]),
                forall|i: int| 0 <= i < out@.len() ==> call_ensures(result_selector, (a[i], b[i], c[i]), #[trigger] out@[i]),
            decreases rev@.len(),
        {
            let y = rev.pop().unwrap();
            out.push(y);
        }
        out
    }

    fn append_item(self, item: T) -> (r: Vec<T>) {
        let mut v = self;
        v.push(item);
        v
    }

    fn prepend_item(self, item: T) -> (r: Vec<T>) {
        let mut v = self;
        v.insert(0, item);
        proof {
            assert(v@ == seq![item] + self@);
        }
        v
    }

    fn is_empty_(self) -> (r: bool) {
        self.len() == 0
    }

    fn index_(self) -> (r: Vec<(usize, T)>) {
        let ghost src = self@;
        let _len: usize = self.len();
        let mut out: Vec<(usize, T)> = Vec::new();
        let mut idx: usize = 0;
        for x in it: self.into_iter()
            invariant
                src == it.seq(),
                idx == it.index(),
                idx <= src.len(),
                src.len() <= usize::MAX,
                out@.len() == idx,
                forall|i: int| 0 <= i < out@.len() ==> #[trigger] out@[i] == (i as usize, src[i]),
        {
            assert(it.index() < it.seq().len());
            assert(x == src[idx as int]);
            out.push((idx, x));
            idx = idx + 1;
        }
        out
    }

    fn sequence_equal(self, other: Vec<T>) -> (r: bool)
        where
            T: PartialEq,
    {
        if self.len() != other.len() {
            return false;
        }
        let mut i: usize = 0;
        while i < self.len()
            invariant
                T::obeys_eq_spec(),
                self@.len() == other@.len(),
                0 <= i <= self@.len(),
                forall|j: int| 0 <= j < i ==> (#[trigger] other@[j]).eq_spec(&self@[j]),
            decreases self@.len() - i,
        {
            if !other[i].eq(&self[i]) {
                return false;
            }
            i = i + 1;
        }
        true
    }
}

/// Concatenates the sequences of `source`. C# analogue: `SelectMany(x => x)`.
pub fn flatten_<U>(source: Vec<Vec<U>>) -> (r: Vec<U>)
    ensures
        r@ == flatten_views(source@),
{
    let ghost src = source@;
    let mut out: Vec<U> = Vec::new();
    let ghost mut done: Seq<Vec<U>> = Seq::empty();
    proof {
        assert(flatten_views(done) =~= Seq::<U>::empty());
    }
    for v in it: source.into_iter()
        invariant
            src == it.seq(),
            done == src.take(it.index() as int),
            out@ == flatten_views(done),
    {
        let mut w = v;
        proof {
            lemma_flatten_views_push(done, w);
            assert(src.take(it.index() + 1) == done.push(w));
            done = done.push(w);
        }
        out.append(&mut w);
    }
    proof {
        assert(src.take(src.len() as int) == src);
    }
    out
}
} // verus!
