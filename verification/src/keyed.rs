//! The specification of keyed operations (distinct, grouping, counting):
//! which keys are kept, in which order, and which group each element joins.
//!
//! Keys are compared by an equivalence `eqv` given as a spec closure: the
//! `PartialEq` operators use `eq_spec`, the hash-backed ones use identity.
use vstd::prelude::*;

use crate::grouping::Grouping;
use crate::queryable::filter_by;
use std::collections::{HashMap, HashSet};
use std::hash::Hash;
use vstd::std_specs::hash::obeys_key_model;
use vstd::std_specs::cmp::PartialEqSpec;

verus! {

/// Key equality as `PartialEq` defines it.
pub open spec fn partial_eqv<K: PartialEq>() -> spec_fn(K, K) -> bool {
    |a: K, b: K| a.eq_spec(&b)
}

/// Key equality as identity.
pub open spec fn ident_eqv<K>() -> spec_fn(K, K) -> bool {
    |a: K, b: K| a == b
}

/// Whether some key of `s` is equivalent to `x` (compared as `eqv(s[j], x)`).
pub open spec fn has_key<K>(eqv: spec_fn(K, K) -> bool, s: Seq<K>, x: K) -> bool {
    exists|j: int| 0 <= j < s.len() && #[trigger] eqv(s[j], x)
}

/// `j` is the first position of `s` whose key is equivalent to `x`.
pub open spec fn is_first_match<K>(eqv: spec_fn(K, K) -> bool, s: Seq<K>, x: K, j: int) -> bool {
    &&& 0 <= j < s.len()
    &&& eqv(s[j], x)
    &&& forall|i: int| 0 <= i < j ==> !#[trigger] eqv(s[i], x)
}

/// The keys that open a new group, in first-appearance order: a key is kept
/// unless it is equivalent to one kept before it.
pub open spec fn kept_keys<K>(eqv: spec_fn(K, K) -> bool, keys: Seq<K>) -> Seq<K>
    decreases keys.len(),
{
    if keys.len() == 0 {
        Seq::empty()
    } else {
        let kk = kept_keys(eqv, keys.drop_last());
        if has_key(eqv, kk, keys.last()) {
            kk
        } else {
            kk.push(keys.last())
        }
    }
}

/// Which entries of `keys` open a new group (first occurrences).
pub open spec fn first_occurrences<K>(eqv: spec_fn(K, K) -> bool, keys: Seq<K>) -> Seq<bool> {
    Seq::new(keys.len(), |i: int| !has_key(eqv, kept_keys(eqv, keys.take(i)), keys[i]))
}

/// The group that element `i` joins: the first earlier group whose key is
/// equivalent to its key, or a new group at the end.
pub open spec fn group_of<K>(eqv: spec_fn(K, K) -> bool, keys: Seq<K>, i: int) -> int {
    let kk = kept_keys(eqv, keys.take(i));
    if has_key(eqv, kk, keys[i]) {
        choose|j: int| is_first_match(eqv, kk, keys[i], j)
    } else {
        kk.len() as int
    }
}

/// Which elements join group `j`.
pub open spec fn members<K>(eqv: spec_fn(K, K) -> bool, keys: Seq<K>, j: int) -> Seq<bool> {
    Seq::new(keys.len(), |i: int| group_of(eqv, keys, i) == j)
}

/// `groups` is the grouping of `items` under `keys`: one group per kept key,
/// in first-appearance order, each holding its members in source order.
pub open spec fn is_grouping<K, V>(
    eqv: spec_fn(K, K) -> bool,
    keys: Seq<K>,
    items: Seq<V>,
    group_keys: Seq<K>,
    group_elems: Seq<Seq<V>>,
) -> bool {
    &&& group_keys == kept_keys(eqv, keys)
    &&& group_elems.len() == group_keys.len()
    &&& forall|j: int|
        0 <= j < group_elems.len() ==> #[trigger] group_elems[j] == filter_by(items, members(eqv, keys, j))
}

/// Two positions that are both the first match of `x` are the same position.
pub proof fn lemma_first_match_unique<K>(eqv: spec_fn(K, K) -> bool, s: Seq<K>, x: K, j1: int, j2: int)
    requires
        is_first_match(eqv, s, x, j1),
        is_first_match(eqv, s, x, j2),
    ensures
        j1 == j2,
{
    if j1 < j2 {
        assert(!eqv(s[j1], x));
    } else if j2 < j1 {
        assert(!eqv(s[j2], x));
    }
}

/// A key that occurs has a first occurrence.
pub proof fn lemma_first_match_exists<K>(eqv: spec_fn(K, K) -> bool, s: Seq<K>, x: K)
    requires
        has_key(eqv, s, x),
    ensures
        exists|j: int| is_first_match(eqv, s, x, j),
{
    let j0 = choose|j: int| 0 <= j < s.len() && #[trigger] eqv(s[j], x);
    lemma_first_match_below(eqv, s, x, j0);
}

proof fn lemma_first_match_below<K>(eqv: spec_fn(K, K) -> bool, s: Seq<K>, x: K, j0: int)
    requires
        0 <= j0 < s.len(),
        eqv(s[j0], x),
    ensures
        exists|j: int| is_first_match(eqv, s, x, j),
    decreases j0,
{
    if exists|i: int| 0 <= i < j0 && #[trigger] eqv(s[i], x) {
        let i = choose|i: int| 0 <= i < j0 && #[trigger] eqv(s[i], x);
        lemma_first_match_below(eqv, s, x, i);
    } else {
        assert(is_first_match(eqv, s, x, j0));
    }
}

/// The group an element joins does not depend on later keys.
pub proof fn lemma_group_of_push<K>(eqv: spec_fn(K, K) -> bool, keys: Seq<K>, k: K, i: int)
    requires
        0 <= i < keys.len(),
    ensures
        group_of(eqv, keys.push(k), i) == group_of(eqv, keys, i),
{
    assert(keys.push(k).take(i) == keys.take(i));
    assert(keys.push(k)[i] == keys[i]);
}

/// The group the newest element joins.
pub proof fn lemma_group_of_last<K>(eqv: spec_fn(K, K) -> bool, keys: Seq<K>, k: K)
    ensures
        group_of(eqv, keys.push(k), keys.len() as int) == if has_key(eqv, kept_keys(eqv, keys), k) {
            choose|j: int| is_first_match(eqv, kept_keys(eqv, keys), k, j)
        } else {
            kept_keys(eqv, keys).len() as int
        },
        kept_keys(eqv, keys.push(k)) == if has_key(eqv, kept_keys(eqv, keys), k) {
            kept_keys(eqv, keys)
        } else {
            kept_keys(eqv, keys).push(k)
        },
{
    assert(keys.push(k).take(keys.len() as int) == keys);
    assert(keys.push(k).drop_last() == keys);
}

/// Membership of group `j` grows by one entry per element.
pub proof fn lemma_members_push<K>(eqv: spec_fn(K, K) -> bool, keys: Seq<K>, k: K, j: int)
    ensures
        members(eqv, keys.push(k), j) == members(eqv, keys, j).push(
            group_of(eqv, keys.push(k), keys.len() as int) == j,
        ),
{
    assert forall|i: int| 0 <= i < keys.len() implies #[trigger] members(eqv, keys.push(k), j)[i]
        == members(eqv, keys, j)[i] by {
        lemma_group_of_push(eqv, keys, k, i);
    }
    assert(members(eqv, keys.push(k), j) =~= members(eqv, keys, j).push(
        group_of(eqv, keys.push(k), keys.len() as int) == j,
    ));
}

/// First occurrences grow by one entry per element.
pub proof fn lemma_first_occurrences_push<K>(eqv: spec_fn(K, K) -> bool, keys: Seq<K>, k: K)
    ensures
        first_occurrences(eqv, keys.push(k)) == first_occurrences(eqv, keys).push(
            !has_key(eqv, kept_keys(eqv, keys), k),
        ),
{
    assert forall|i: int| 0 <= i < keys.len() implies #[trigger] first_occurrences(eqv, keys.push(k))[i]
        == first_occurrences(eqv, keys)[i] by {
        assert(keys.push(k).take(i) == keys.take(i));
    }
    assert(keys.push(k).take(keys.len() as int) == keys);
    assert(first_occurrences(eqv, keys.push(k)) =~= first_occurrences(eqv, keys).push(
        !has_key(eqv, kept_keys(eqv, keys), k),
    ));
}

/// The kept keys are exactly the first occurrences.
pub proof fn lemma_kept_keys_are_first_occurrences<K>(eqv: spec_fn(K, K) -> bool, keys: Seq<K>)
    ensures
        kept_keys(eqv, keys) == filter_by(keys, first_occurrences(eqv, keys)),
    decreases keys.len(),
{
    if keys.len() > 0 {
        let prev = keys.drop_last();
        lemma_kept_keys_are_first_occurrences(eqv, prev);
        assert(prev.push(keys.last()) == keys);
        lemma_first_occurrences_push(eqv, prev, keys.last());
        assert(first_occurrences(eqv, keys).drop_last() == first_occurrences(eqv, prev));
    }
}

/// Extending a grouping by one element keeps it a grouping.
pub proof fn lemma_grouping_push_existing<K, V>(
    eqv: spec_fn(K, K) -> bool,
    keys: Seq<K>,
    items: Seq<V>,
    group_keys: Seq<K>,
    group_elems: Seq<Seq<V>>,
    k: K,
    v: V,
    j: int,
)
    requires
        keys.len() == items.len(),
        is_grouping(eqv, keys, items, group_keys, group_elems),
        is_first_match(eqv, group_keys, k, j),
    ensures
        is_grouping(
            eqv,
            keys.push(k),
            items.push(v),
            group_keys,
            group_elems.update(j, group_elems[j].push(v)),
        ),
{
    let keys2 = keys.push(k);
    let items2 = items.push(v);
    let ge2 = group_elems.update(j, group_elems[j].push(v));
    lemma_group_of_last(eqv, keys, k);
    let g = group_of(eqv, keys2, keys.len() as int);
    assert(has_key(eqv, group_keys, k));
    lemma_first_match_exists(eqv, group_keys, k);
    let c = choose|jj: int| is_first_match(eqv, kept_keys(eqv, keys), k, jj);
    lemma_first_match_unique(eqv, group_keys, k, j, c);
    assert(g == j);
    assert forall|jj: int| 0 <= jj < ge2.len() implies #[trigger] ge2[jj] == filter_by(
        items2,
        members(eqv, keys2, jj),
    ) by {
        lemma_members_push(eqv, keys, k, jj);
        lemma_filter_by_push(items, members(eqv, keys, jj), v, g == jj);
    }
}

/// Extending a grouping by an element with a new key opens a group.
pub proof fn lemma_grouping_push_new<K, V>(
    eqv: spec_fn(K, K) -> bool,
    keys: Seq<K>,
    items: Seq<V>,
    group_keys: Seq<K>,
    group_elems: Seq<Seq<V>>,
    k: K,
    v: V,
)
    requires
        keys.len() == items.len(),
        is_grouping(eqv, keys, items, group_keys, group_elems),
        !has_key(eqv, group_keys, k),
    ensures
        is_grouping(
            eqv,
            keys.push(k),
            items.push(v),
            group_keys.push(k),
            group_elems.push(seq![v]),
        ),
{
    let keys2 = keys.push(k);
    let items2 = items.push(v);
    let ge2 = group_elems.push(seq![v]);
    lemma_group_of_last(eqv, keys, k);
    let g = group_of(eqv, keys2, keys.len() as int);
    assert(g == group_keys.len());
    assert forall|jj: int| 0 <= jj < ge2.len() implies #[trigger] ge2[jj] == filter_by(
        items2,
        members(eqv, keys2, jj),
    ) by {
        lemma_members_push(eqv, keys, k, jj);
        lemma_filter_by_push(items, members(eqv, keys, jj), v, g == jj);
        if jj == group_keys.len() {
            lemma_no_members_beyond(eqv, keys, items, group_keys, jj);
        }
    }
}

/// No element of a prefix joins a group that does not exist yet.
pub proof fn lemma_no_members_beyond<K, V>(
    eqv: spec_fn(K, K) -> bool,
    keys: Seq<K>,
    items: Seq<V>,
    group_keys: Seq<K>,
    jj: int,
)
    requires
        keys.len() == items.len(),
        group_keys == kept_keys(eqv, keys),
        jj >= group_keys.len(),
    ensures
        filter_by(items, members(eqv, keys, jj)) == Seq::<V>::empty(),
    decreases keys.len(),
{
    if keys.len() > 0 {
        let prev = keys.drop_last();
        assert(prev.push(keys.last()) == keys);
        lemma_group_of_last(eqv, prev, keys.last());
        lemma_members_push(eqv, prev, keys.last(), jj);
        lemma_kept_keys_monotone(eqv, prev, keys.last());
        lemma_no_members_beyond(eqv, prev, items.drop_last(), kept_keys(eqv, prev), jj);
        let g = group_of(eqv, keys, prev.len() as int);
        if has_key(eqv, kept_keys(eqv, prev), keys.last()) {
            lemma_first_match_exists(eqv, kept_keys(eqv, prev), keys.last());
            let c = choose|j: int| is_first_match(eqv, kept_keys(eqv, prev), keys.last(), j);
            assert(is_first_match(eqv, kept_keys(eqv, prev), keys.last(), c));
        }
        assert(g != jj);
        assert(members(eqv, keys, jj).drop_last() == members(eqv, prev, jj));
    }
}

/// One more key never removes a group.
pub proof fn lemma_kept_keys_monotone<K>(eqv: spec_fn(K, K) -> bool, keys: Seq<K>, k: K)
    ensures
        kept_keys(eqv, keys).len() <= kept_keys(eqv, keys.push(k)).len(),
{
    lemma_group_of_last(eqv, keys, k);
}

/// Picking from a sequence with one more element and one more pick.
pub proof fn lemma_filter_by_push<V>(items: Seq<V>, picks: Seq<bool>, v: V, b: bool)
    requires
        picks.len() == items.len(),
    ensures
        filter_by(items.push(v), picks.push(b)) == if b {
            filter_by(items, picks).push(v)
        } else {
            filter_by(items, picks)
        },
{
    assert(items.push(v).drop_last() == items);
    assert(picks.push(b).drop_last() == picks);
}

/// Cloning a `K` yields an identical value.
pub open spec fn clone_is_identity<K: Clone>() -> bool {
    forall|a: K, b: K| #[trigger] cloned(a, b) ==> a == b
}

/// The keys of a sequence of groups.
pub open spec fn keys_of<K, V>(gs: Seq<Grouping<K, V>>) -> Seq<K> {
    gs.map_values(|g: Grouping<K, V>| g.spec_key())
}

/// The element sequences of a sequence of groups.
pub open spec fn elems_of<K, V>(gs: Seq<Grouping<K, V>>) -> Seq<Seq<V>> {
    gs.map_values(|g: Grouping<K, V>| g.spec_elements())
}

/// The first components of a sequence of pairs.
pub open spec fn firsts<A, B>(s: Seq<(A, B)>) -> Seq<A> {
    s.map_values(|p: (A, B)| p.0)
}

/// The second components of a sequence of pairs.
pub open spec fn seconds<A, B>(s: Seq<(A, B)>) -> Seq<B> {
    s.map_values(|p: (A, B)| p.1)
}

/// The components of a sequence of pairs with one more pair.
pub proof fn lemma_pairs_push<A, B>(s: Seq<(A, B)>, p: (A, B))
    ensures
        firsts(s.push(p)) == firsts(s).push(p.0),
        seconds(s.push(p)) == seconds(s).push(p.1),
{
    assert(firsts(s.push(p)) =~= firsts(s).push(p.0));
    assert(seconds(s.push(p)) =~= seconds(s).push(p.1));
}

/// Groups `(key, value)` pairs by key, comparing keys with `PartialEq` by a
/// linear scan over the groups found so far.
pub fn group_pairs_partial_eq<K: PartialEq, V>(pairs: Vec<(K, V)>) -> (r: Vec<Grouping<K, V>>)
    requires
        K::obeys_eq_spec(),
    ensures
        is_grouping(partial_eqv(), firsts(pairs@), seconds(pairs@), keys_of(r@), elems_of(r@)),
{
    let ghost src = pairs@;
    let mut groups: Vec<Grouping<K, V>> = Vec::new();
    let ghost mut done: Seq<(K, V)> = Seq::empty();
    proof {
        assert(keys_of(groups@) =~= Seq::<K>::empty());
        assert(elems_of(groups@) =~= Seq::<Seq<V>>::empty());
    }
    for pair in it: pairs.into_iter()
        invariant
            src == it.seq(),
            K::obeys_eq_spec(),
            done == src.take(it.index() as int),
            is_grouping(partial_eqv(), firsts(done), seconds(done), keys_of(groups@), elems_of(groups@)),
    {
        let ghost i = it.index() as int;
        assert(pair == src[i]);
        let (key, value) = pair;
        let ghost gk = keys_of(groups@);
        let ghost ge = elems_of(groups@);
        let mut j: usize = 0;
        let mut found = false;
        while !found && j < groups.len()
            invariant
                K::obeys_eq_spec(),
                gk == keys_of(groups@),
                0 <= j <= groups@.len(),
                forall|m: int| 0 <= m < j ==> !(#[trigger] partial_eqv::<K>()(gk[m], key)),
                found ==> j < groups@.len() && partial_eqv::<K>()(gk[j as int], key),
            decreases groups@.len() - j + if found { 0int } else { 1int },
        {
            if groups[j].key().eq(&key) {
                found = true;
            } else {
                j = j + 1;
            }
        }
        proof {
            lemma_pairs_push(done, (key, value));
            assert(src.take(i + 1) == done.push((key, value)));
        }
        if found {
            proof {
                assert(is_first_match(partial_eqv(), gk, key, j as int));
                lemma_grouping_push_existing(partial_eqv(), firsts(done), seconds(done), gk, ge, key, value, j as int);
            }
            groups[j].push(value);
            proof {
                assert(keys_of(groups@) =~= gk);
                assert(elems_of(groups@) =~= ge.update(j as int, ge[j as int].push(value)));
            }
        } else {
            proof {
                assert(!has_key(partial_eqv(), gk, key));
                lemma_grouping_push_new(partial_eqv(), firsts(done), seconds(done), gk, ge, key, value);
            }
            let mut g = Grouping::new(key);
            g.push(value);
            groups.push(g);
            proof {
                assert(keys_of(groups@) =~= gk.push(key));
                assert(elems_of(groups@) =~= ge.push(seq![value]));
            }
        }
        proof {
            done = done.push((key, value));
        }
    }
    proof {
        assert(src.take(src.len() as int) == src);
    }
    groups
}

/// Groups `(key, value)` pairs by key through a hash index from key to group
/// position. Groups keep first-appearance order.
pub fn group_pairs_hashed<K: Eq + Hash + Clone, V>(pairs: Vec<(K, V)>) -> (r: Vec<Grouping<K, V>>)
    requires
        obeys_key_model::<K>(),
        clone_is_identity::<K>(),
    ensures
        is_grouping(ident_eqv(), firsts(pairs@), seconds(pairs@), keys_of(r@), elems_of(r@)),
{
    broadcast use vstd::std_specs::hash::group_hash_axioms;
    let ghost src = pairs@;
    let mut groups: Vec<Grouping<K, V>> = Vec::new();
    let mut index: HashMap<K, usize> = HashMap::new();
    let ghost mut done: Seq<(K, V)> = Seq::empty();
    proof {
        assert(keys_of(groups@) =~= Seq::<K>::empty());
        assert(elems_of(groups@) =~= Seq::<Seq<V>>::empty());
    }
    for pair in it: pairs.into_iter()
        invariant
            src == it.seq(),
            obeys_key_model::<K>(),
            clone_is_identity::<K>(),
            done == src.take(it.index() as int),
            is_grouping(ident_eqv(), firsts(done), seconds(done), keys_of(groups@), elems_of(groups@)),
            forall|k: K| #[trigger] index@.contains_key(k) <==> has_key(ident_eqv(), keys_of(groups@), k),
            forall|k: K| #[trigger] index@.contains_key(k) ==> index@[k] < groups@.len() && keys_of(groups@)[index@[k] as int] == k,
            forall|a: int, b: int| 0 <= a < b < groups@.len() ==> keys_of(groups@)[a] != keys_of(groups@)[b],
    {
        let ghost i = it.index() as int;
        assert(pair == src[i]);
        let (key, value) = pair;
        let ghost gk = keys_of(groups@);
        let ghost ge = elems_of(groups@);
        proof {
            lemma_pairs_push(done, (key, value));
            assert(src.take(i + 1) == done.push((key, value)));
        }
        match index.get(&key) {
            Some(pos_ref) => {
                let pos = *pos_ref;
                proof {
                    assert(index@.contains_key(key));
                    assert forall|m: int| 0 <= m < pos implies !(#[trigger] ident_eqv::<K>()(gk[m], key)) by {
                        assert(gk[m] != gk[pos as int]);
                    }
                    assert(is_first_match(ident_eqv(), gk, key, pos as int));
                    lemma_grouping_push_existing(ident_eqv(), firsts(done), seconds(done), gk, ge, key, value, pos as int);
                }
                groups[pos].push(value);
                proof {
                    assert(keys_of(groups@) =~= gk);
                    assert(elems_of(groups@) =~= ge.update(pos as int, ge[pos as int].push(value)));
                }
            },
            None => {
                proof {
                    assert(!has_key(ident_eqv(), gk, key));
                    lemma_grouping_push_new(ident_eqv(), firsts(done), seconds(done), gk, ge, key, value);
                }
                let pos = groups.len();
                let k2 = key.clone();
                assert(vstd::pervasive::strictly_cloned(key, k2));
                assert(cloned(key, k2));
                assert(k2 == key);
                index.insert(k2, pos);
                let mut g = Grouping::new(key);
                g.push(value);
                groups.push(g);
                proof {
                    assert(keys_of(groups@) =~= gk.push(key));
                    assert(elems_of(groups@) =~= ge.push(seq![value]));
                    assert forall|k: K| #[trigger] index@.contains_key(k) <==> has_key(ident_eqv(), keys_of(groups@), k) by {
                        if has_key(ident_eqv(), keys_of(groups@), k) {
                            let w = choose|j: int| 0 <= j < keys_of(groups@).len() && #[trigger] ident_eqv::<K>()(keys_of(groups@)[j], k);
                            if w < gk.len() {
                                assert(ident_eqv::<K>()(gk[w], k));
                            }
                        }
                        if index@.contains_key(k) && k != key {
                            let w = choose|j: int| 0 <= j < gk.len() && #[trigger] ident_eqv::<K>()(gk[j], k);
                            assert(ident_eqv::<K>()(keys_of(groups@)[w], k));
                        }
                        if k == key {
                            assert(ident_eqv::<K>()(keys_of(groups@)[gk.len() as int], k));
                        }
                    }
                    assert forall|a: int, b: int| 0 <= a < b < groups@.len() implies keys_of(groups@)[a] != keys_of(groups@)[b] by {
                        if b == gk.len() {
                            if gk[a] == key {
                                assert(ident_eqv::<K>()(gk[a], key));
                            }
                        }
                    }
                }
            },
        }
        proof {
            done = done.push((key, value));
        }
    }
    proof {
        assert(src.take(src.len() as int) == src);
    }
    groups
}

/// `keys` records one possible outcome of `key_fn` on each element of `s`.
pub open spec fn keys_trace<T, K, F: Fn(&T) -> K>(key_fn: F, s: Seq<T>, keys: Seq<K>) -> bool {
    &&& keys.len() == s.len()
    &&& forall|i: int| 0 <= i < s.len() ==> call_ensures(key_fn, (&s[i],), #[trigger] keys[i])
}

/// `key_fn` may be called on every element of `s`.
pub open spec fn key_callable<T, K, F: Fn(&T) -> K>(key_fn: F, s: Seq<T>) -> bool {
    forall|i: int| 0 <= i < s.len() ==> call_requires(key_fn, (&#[trigger] s[i],))
}

/// Computes `key_fn` on every element, in order.
pub fn key_list<T, K, F: Fn(&T) -> K>(items: &Vec<T>, key_fn: &F) -> (r: Vec<K>)
    requires
        key_callable(*key_fn, items@),
    ensures
        keys_trace(*key_fn, items@, r@),
{
    let mut keys: Vec<K> = Vec::new();
    let mut i: usize = 0;
    while i < items.len()
        invariant
            key_callable(*key_fn, items@),
            0 <= i <= items@.len(),
            keys@.len() == i,
            forall|j: int| 0 <= j < i ==> call_ensures(*key_fn, (&items@[j],), #[trigger] keys@[j]),
        decreases items@.len() - i,
    {
        keys.push(key_fn(&items[i]));
        i = i + 1;
    }
    keys
}

/// Clones every element, in order.
pub fn clone_list<T: Clone>(items: &Vec<T>) -> (r: Vec<T>)
    ensures
        r@.len() == items@.len(),
        forall|j: int| 0 <= j < items@.len() ==> cloned(items@[j], #[trigger] r@[j]),
{
    let mut out: Vec<T> = Vec::new();
    let mut i: usize = 0;
    while i < items.len()
        invariant
            0 <= i <= items@.len(),
            out@.len() == i,
            forall|j: int| 0 <= j < i ==> cloned(items@[j], #[trigger] out@[j]),
        decreases items@.len() - i,
    {
        let c = items[i].clone();
        proof {
            assert(vstd::pervasive::strictly_cloned(items@[i as int], c));
        }
        out.push(c);
        i = i + 1;
    }
    out
}

/// Keeps the elements whose flag is set, in order.
pub fn filter_by_flags<T>(items: Vec<T>, flags: &Vec<bool>) -> (r: Vec<T>)
    requires
        flags@.len() == items@.len(),
    ensures
        r@ == filter_by(items@, flags@),
{
    let ghost src = items@;
    let _len: usize = items.len();
    let mut out: Vec<T> = Vec::new();
    let mut idx: usize = 0;
    for x in it: items.into_iter()
        invariant
            src == it.seq(),
            idx == it.index(),
            idx <= src.len(),
            src.len() <= usize::MAX,
            flags@.len() == src.len(),
            out@ == filter_by(src.take(idx as int), flags@.take(idx as int)),
    {
        assert(it.index() < it.seq().len());
        assert(x == src[idx as int]);
        proof {
            assert(src.take(idx + 1) == src.take(idx as int).push(x));
            assert(flags@.take(idx + 1) == flags@.take(idx as int).push(flags@[idx as int]));
            lemma_filter_by_push(src.take(idx as int), flags@.take(idx as int), x, flags@[idx as int]);
        }
        if flags[idx] {
            out.push(x);
        }
        idx = idx + 1;
    }
    proof {
        assert(src.take(src.len() as int) == src);
        assert(flags@.take(src.len() as int) == flags@);
    }
    out
}

/// Marks the first occurrence of each key, comparing with `PartialEq`
/// against the keys kept so far.
pub fn first_occurrence_flags<K: PartialEq>(keys: &Vec<K>) -> (r: Vec<bool>)
    requires
        K::obeys_eq_spec(),
    ensures
        r@ == first_occurrences(partial_eqv(), keys@),
{
    let ghost eqv = partial_eqv::<K>();
    let mut kept: Vec<usize> = Vec::new();
    let mut flags: Vec<bool> = Vec::new();
    let mut i: usize = 0;
    while i < keys.len()
        invariant
            K::obeys_eq_spec(),
            eqv == partial_eqv::<K>(),
            0 <= i <= keys@.len(),
            forall|m: int| 0 <= m < kept@.len() ==> #[trigger] kept@[m] < i,
            kept@.map_values(|p: usize| keys@[p as int]) == kept_keys(eqv, keys@.take(i as int)),
            flags@ == first_occurrences(eqv, keys@.take(i as int)),
        decreases keys@.len() - i,
    {
        let ghost kk = kept_keys(eqv, keys@.take(i as int));
        let mut j: usize = 0;
        let mut found = false;
        while !found && j < kept.len()
            invariant
                K::obeys_eq_spec(),
                eqv == partial_eqv::<K>(),
                i < keys@.len(),
                forall|m: int| 0 <= m < kept@.len() ==> #[trigger] kept@[m] < i,
                kept@.map_values(|p: usize| keys@[p as int]) == kk,
                0 <= j <= kept@.len(),
                forall|m: int| 0 <= m < j ==> !#[trigger] eqv(kk[m], keys@[i as int]),
                found ==> j < kept@.len() && eqv(kk[j as int], keys@[i as int]),
            decreases kept@.len() - j + if found { 0int } else { 1int },
        {
            if keys[kept[j]].eq(&keys[i]) {
                found = true;
            } else {
                j = j + 1;
            }
        }
        proof {
            assert(keys@.take(i + 1) == keys@.take(i as int).push(keys@[i as int]));
            lemma_first_occurrences_push(eqv, keys@.take(i as int), keys@[i as int]);
            lemma_group_of_last(eqv, keys@.take(i as int), keys@[i as int]);
            if found {
                assert(has_key(eqv, kk, keys@[i as int]));
            } else {
                assert(!has_key(eqv, kk, keys@[i as int]));
            }
        }
        flags.push(!found);
        if !found {
            kept.push(i);
            proof {
                assert(kept@.map_values(|p: usize| keys@[p as int]) =~= kk.push(keys@[i as int]));
            }
        }
        i = i + 1;
    }
    proof {
        assert(keys@.take(keys@.len() as int) == keys@);
    }
    flags
}

/// Marks the first occurrence of each key, through a hash set of the keys seen.
pub fn first_occurrence_flags_hashed<K: Eq + Hash>(keys: Vec<K>) -> (r: Vec<bool>)
    requires
        obeys_key_model::<K>(),
    ensures
        r@ == first_occurrences(ident_eqv(), keys@),
{
    broadcast use vstd::std_specs::hash::group_hash_axioms;
    let ghost src = keys@;
    let _len: usize = keys.len();
    let ghost eqv = ident_eqv::<K>();
    let mut seen: HashSet<K> = HashSet::new();
    let mut flags: Vec<bool> = Vec::new();
    let mut idx: usize = 0;
    for k in it: keys.into_iter()
        invariant
            src == it.seq(),
            idx == it.index(),
            idx <= src.len(),
            src.len() <= usize::MAX,
            obeys_key_model::<K>(),
            eqv == ident_eqv::<K>(),
            forall|x: K| #[trigger] seen@.contains(x) <==> has_key(eqv, kept_keys(eqv, src.take(idx as int)), x),
            flags@ == first_occurrences(eqv, src.take(idx as int)),
    {
        assert(it.index() < it.seq().len());
        assert(k == src[idx as int]);
        let ghost kk = kept_keys(eqv, src.take(idx as int));
        proof {
            assert(src.take(idx + 1) == src.take(idx as int).push(k));
            lemma_first_occurrences_push(eqv, src.take(idx as int), k);
            lemma_group_of_last(eqv, src.take(idx as int), k);
        }
        let fresh = seen.insert(k);
        proof {
            assert(fresh == !has_key(eqv, kk, k));
            assert forall|x: K| #[trigger] seen@.contains(x) <==> has_key(eqv, kept_keys(eqv, src.take(idx + 1)), x) by {
                if fresh {
                    if has_key(eqv, kk.push(k), x) && x != k {
                        let w = choose|j: int| 0 <= j < kk.push(k).len() && #[trigger] eqv(kk.push(k)[j], x);
                        assert(eqv(kk[w], x));
                    }
                    if has_key(eqv, kk, x) {
                        let w = choose|j: int| 0 <= j < kk.len() && #[trigger] eqv(kk[j], x);
                        assert(eqv(kk.push(k)[w], x));
                    }
                    if x == k {
                        assert(eqv(kk.push(k)[kk.len() as int], x));
                    }
                }
            }
        }
        flags.push(fresh);
        idx = idx + 1;
    }
    proof {
        assert(src.take(src.len() as int) == src);
    }
    flags
}

/// For each key, whether it is (`present`) or is not (`!present`) equal by
/// `PartialEq` to some key of `pool` (compared as `pool[j] == key`).
pub fn membership_flags<K: PartialEq>(keys: &Vec<K>, pool: &Vec<K>, present: bool) -> (r: Vec<bool>)
    requires
        K::obeys_eq_spec(),
    ensures
        r@ == Seq::new(keys@.len(), |i: int| has_key(partial_eqv(), pool@, keys@[i]) == present),
{
    let ghost eqv = partial_eqv::<K>();
    let mut flags: Vec<bool> = Vec::new();
    let mut i: usize = 0;
    while i < keys.len()
        invariant
            K::obeys_eq_spec(),
            eqv == partial_eqv::<K>(),
            0 <= i <= keys@.len(),
            flags@ == Seq::new(i as nat, |m: int| has_key(eqv, pool@, keys@[m]) == present),
        decreases keys@.len() - i,
    {
        let mut j: usize = 0;
        let mut found = false;
        while !found && j < pool.len()
            invariant
                K::obeys_eq_spec(),
                eqv == partial_eqv::<K>(),
                i < keys@.len(),
                0 <= j <= pool@.len(),
                forall|m: int| 0 <= m < j ==> !#[trigger] eqv(pool@[m], keys@[i as int]),
                found ==> j < pool@.len() && eqv(pool@[j as int], keys@[i as int]),
            decreases pool@.len() - j + if found { 0int } else { 1int },
        {
            if pool[j].eq(&keys[i]) {
                found = true;
            } else {
                j = j + 1;
            }
        }
        proof {
            if !found {
                assert(!has_key(eqv, pool@, keys@[i as int]));
            }
        }
        flags.push(found == present);
        proof {
            assert(flags@ =~= Seq::new((i + 1) as nat, |m: int| has_key(eqv, pool@, keys@[m]) == present));
        }
        i = i + 1;
    }
    flags
}

/// For each key, whether it is (`present`) or is not (`!present`) in the
/// hash set built from `pool`.
pub fn membership_flags_hashed<K: Eq + Hash>(keys: &Vec<K>, pool: Vec<K>, present: bool) -> (r: Vec<bool>)
    requires
        obeys_key_model::<K>(),
    ensures
        r@ == Seq::new(keys@.len(), |i: int| pool@.contains(keys@[i]) == present),
{
    broadcast use vstd::std_specs::hash::group_hash_axioms;
    let ghost src = pool@;
    let _len: usize = pool.len();
    let mut set: HashSet<K> = HashSet::new();
    let mut idx: usize = 0;
    for k in it: pool.into_iter()
        invariant
            src == it.seq(),
            idx == it.index(),
            idx <= src.len(),
            src.len() <= usize::MAX,
            obeys_key_model::<K>(),
            forall|x: K| #[trigger] set@.contains(x) <==> src.take(idx as int).contains(x),
    {
        assert(it.index() < it.seq().len());
        assert(k == src[idx as int]);
        proof {
            assert(src.take(idx + 1) == src.take(idx as int).push(k));
            assert forall|x: K| src.take(idx + 1).contains(x) <==> (src.take(idx as int).contains(x) || x == k) by {
                if src.take(idx + 1).contains(x) {
                    let w = choose|j: int| 0 <= j < src.take(idx + 1).len() && #[trigger] src.take(idx + 1)[j] == x;
                    if w < idx {
                        assert(src.take(idx as int)[w] == x);
                    }
                }
                if src.take(idx as int).contains(x) {
                    let w = choose|j: int| 0 <= j < src.take(idx as int).len() && #[trigger] src.take(idx as int)[j] == x;
                    assert(src.take(idx + 1)[w] == x);
                }
                if x == k {
                    assert(src.take(idx + 1)[idx as int] == x);
                }
            }
        }
        set.insert(k);
        idx = idx + 1;
    }
    proof {
        assert(src.take(src.len() as int) == src);
    }
    let mut flags: Vec<bool> = Vec::new();
    let mut i: usize = 0;
    while i < keys.len()
        invariant
            obeys_key_model::<K>(),
            forall|x: K| #[trigger] set@.contains(x) <==> src.contains(x),
            0 <= i <= keys@.len(),
            flags@ == Seq::new(i as nat, |m: int| src.contains(keys@[m]) == present),
        decreases keys@.len() - i,
    {
        let b = set.contains(&keys[i]);
        flags.push(b == present);
        proof {
            assert(flags@ =~= Seq::new((i + 1) as nat, |m: int| src.contains(keys@[m]) == present));
        }
        i = i + 1;
    }
    flags
}

/// Pairs keys with values position by position.
pub fn pair_up<K, V>(keys: Vec<K>, values: Vec<V>) -> (r: Vec<(K, V)>)
    requires
        keys@.len() == values@.len(),
    ensures
        firsts(r@) == keys@,
        seconds(r@) == values@,
{
    let ghost ks = keys@;
    let ghost vs = values@;
    let mut keys = keys;
    let mut values = values;
    let mut rev: Vec<(K, V)> = Vec::new();
    while keys.len() > 0
        invariant
            ks.len() == vs.len(),
            keys@ == ks.take(ks.len() - rev@.len()),
            values@ == vs.take(vs.len() - rev@.len()),
            rev@.len() <= ks.len(),
            forall|j: int| 0 <= j < rev@.len() ==> #[trigger] rev@[j] == (ks[ks.len() - 1 - j], vs[vs.len() - 1 - j]),
        decreases keys@.len(),
    {
        let k = keys.pop().unwrap();
        let v = values.pop().unwrap();
        rev.push((k, v));
    }
    let mut out: Vec<(K, V)> = Vec::new();
    while rev.len() > 0
        invariant
            ks.len() == vs.len(),
            rev@.len() + out@.len() == ks.len(),
            forall|j: int| 0 <= j < rev@.len() ==> #[trigger] rev@[j] == (ks[ks.len() - 1 - j], vs[vs.len() - 1 - j]),
            forall|j: int| 0 <= j < out@.len() ==> #[trigger] out@[j] == (ks[j], vs[j]),
        decreases rev@.len(),
    {
        let p = rev.pop().unwrap();
        out.push(p);
    }
    proof {
        assert(firsts(out@) =~= ks);
        assert(seconds(out@) =~= vs);
    }
    out
}

/// Key equality across the two sides of a join, as `PartialEq` defines it
/// (`inner_key == outer_key`).
pub open spec fn cross_eqv<IK: PartialEq<OK>, OK>() -> spec_fn(IK, OK) -> bool {
    |a: IK, b: OK| a.eq_spec(&b)
}

/// `0, 1, ..., n - 1`.
pub open spec fn index_seq(n: nat) -> Seq<int> {
    Seq::new(n, |j: int| j)
}

/// Which inner keys match `ok`.
pub open spec fn key_flags<IK, OK>(eqv: spec_fn(IK, OK) -> bool, ikeys: Seq<IK>, ok: OK) -> Seq<bool> {
    Seq::new(ikeys.len(), |j: int| eqv(ikeys[j], ok))
}

/// The positions of the inner keys that match `ok`, in order.
pub open spec fn matched_indices<IK, OK>(eqv: spec_fn(IK, OK) -> bool, ikeys: Seq<IK>, ok: OK) -> Seq<int> {
    filter_by(index_seq(ikeys.len()), key_flags(eqv, ikeys, ok))
}

/// A vector of positions, as integers.
pub open spec fn as_ints(v: Seq<usize>) -> Seq<int> {
    v.map_values(|j: usize| j as int)
}

/// `row` is one possible outcome of pairing (clones of) `x` with (clones of)
/// the inner elements at `idx`, through `f`.
pub open spec fn joined_row<T: Clone, U: Clone, R, F: Fn(T, U) -> R>(
    f: F,
    x: T,
    inner: Seq<U>,
    idx: Seq<int>,
    row: Seq<R>,
) -> bool {
    &&& row.len() == idx.len()
    &&& forall|t: int| 0 <= t < idx.len() ==> #[trigger] joined_cell(f, x, inner[idx[t]], row[t])
}

/// `out` is one possible outcome of `f` on clones of `x` and `u`.
pub open spec fn joined_cell<T: Clone, U: Clone, R, F: Fn(T, U) -> R>(f: F, x: T, u: U, out: R) -> bool {
    exists|a: T, b: U| cloned(x, a) && cloned(u, b) && #[trigger] call_ensures(f, (a, b), out)
}

/// `g` holds clones of the inner elements at `idx`, in order.
pub open spec fn cloned_group<U: Clone>(inner: Seq<U>, idx: Seq<int>, g: Seq<U>) -> bool {
    &&& g.len() == idx.len()
    &&& forall|t: int| 0 <= t < idx.len() ==> cloned(inner[idx[t]], #[trigger] g[t])
}

proof fn lemma_index_filter_step(n: int, flags: Seq<bool>, j: int)
    requires
        0 <= j < n,
        flags.len() == n,
    ensures
        filter_by(index_seq(n as nat).take(j + 1), flags.take(j + 1)) == if flags[j] {
            filter_by(index_seq(n as nat).take(j), flags.take(j)).push(j)
        } else {
            filter_by(index_seq(n as nat).take(j), flags.take(j))
        },
{
    assert(index_seq(n as nat).take(j + 1) == index_seq(n as nat).take(j).push(j));
    assert(flags.take(j + 1) == flags.take(j).push(flags[j]));
    lemma_filter_by_push(index_seq(n as nat).take(j), flags.take(j), j, flags[j]);
}

/// The positions of the inner keys equal (by `PartialEq`) to `ok`.
pub fn matching_indices<IK: PartialEq<OK>, OK>(ikeys: &Vec<IK>, ok: &OK) -> (r: Vec<usize>)
    requires
        <IK as PartialEqSpec<OK>>::obeys_eq_spec(),
    ensures
        as_ints(r@) == matched_indices(cross_eqv(), ikeys@, *ok),
        forall|t: int| 0 <= t < r@.len() ==> #[trigger] r@[t] < ikeys@.len(),
{
    let ghost n = ikeys@.len() as int;
    let ghost flags = key_flags(cross_eqv::<IK, OK>(), ikeys@, *ok);
    let mut out: Vec<usize> = Vec::new();
    let mut j: usize = 0;
    while j < ikeys.len()
        invariant
            <IK as PartialEqSpec<OK>>::obeys_eq_spec(),
            n == ikeys@.len(),
            flags == key_flags(cross_eqv::<IK, OK>(), ikeys@, *ok),
            0 <= j <= n,
            as_ints(out@) == filter_by(index_seq(n as nat).take(j as int), flags.take(j as int)),
            forall|t: int| 0 <= t < out@.len() ==> #[trigger] out@[t] < j,
        decreases n - j,
    {
        proof {
            lemma_index_filter_step(n, flags, j as int);
        }
        let ghost before = out@;
        if ikeys[j].eq(ok) {
            out.push(j);
            proof {
                assert(as_ints(out@) =~= as_ints(before).push(j as int));
            }
        }
        j = j + 1;
    }
    proof {
        assert(index_seq(n as nat).take(n) == index_seq(n as nat));
        assert(flags.take(n) == flags);
    }
    out
}

/// Buckets the positions of `ikeys` by key through a hash index: for every
/// key in the index, its bucket holds the matching positions in order; a key
/// not in the index matches no position.
pub fn bucket_indices<K: Eq + Hash>(ikeys: Vec<K>) -> (r: (HashMap<K, usize>, Vec<Vec<usize>>))
    requires
        obeys_key_model::<K>(),
    ensures
        forall|k: K| #[trigger] r.0@.contains_key(k) ==> r.0@[k] < r.1@.len() && as_ints(r.1@[r.0@[k] as int]@)
            == matched_indices(ident_eqv(), ikeys@, k),
        forall|k: K| !#[trigger] r.0@.contains_key(k) ==> matched_indices(ident_eqv(), ikeys@, k) == Seq::<int>::empty(),
        forall|b: int, t: int| 0 <= b < r.1@.len() && 0 <= t < r.1@[b]@.len() ==> #[trigger] r.1@[b]@[t] < ikeys@.len(),
{
    broadcast use vstd::std_specs::hash::group_hash_axioms;
    let ghost src = ikeys@;
    let ghost n = src.len() as int;
    let _len: usize = ikeys.len();
    let mut index: HashMap<K, usize> = HashMap::new();
    let mut buckets: Vec<Vec<usize>> = Vec::new();
    let mut j: usize = 0;
    for k in it: ikeys.into_iter()
        invariant
            src == it.seq(),
            j == it.index(),
            j <= src.len(),
            src.len() <= usize::MAX,
            n == src.len(),
            obeys_key_model::<K>(),
            forall|x: K| #[trigger] index@.contains_key(x) ==> index@[x] < buckets@.len() && as_ints(buckets@[index@[x] as int]@)
                == filter_by(index_seq(n as nat).take(j as int), key_flags(ident_eqv::<K>(), src, x).take(j as int)),
            forall|x: K| !#[trigger] index@.contains_key(x) ==> filter_by(index_seq(n as nat).take(j as int), key_flags(ident_eqv::<K>(), src, x).take(j as int)) == Seq::<int>::empty(),
            forall|a: K, b: K| index@.contains_key(a) && index@.contains_key(b) && a != b ==> #[trigger] index@[a] != #[trigger] index@[b],
            forall|b: int, t: int| 0 <= b < buckets@.len() && 0 <= t < buckets@[b]@.len() ==> #[trigger] buckets@[b]@[t] < j,
    {
        assert(it.index() < it.seq().len());
        assert(k == src[j as int]);
        let ghost old_index = index@;
        let ghost old_buckets = buckets@;
        proof {
            assert forall|x: K| true implies filter_by(index_seq(n as nat).take(j + 1), key_flags(ident_eqv::<K>(), src, x).take(j + 1))
                == if x == k {
                    filter_by(index_seq(n as nat).take(j as int), key_flags(ident_eqv::<K>(), src, x).take(j as int)).push(j as int)
                } else {
                    filter_by(index_seq(n as nat).take(j as int), key_flags(ident_eqv::<K>(), src, x).take(j as int))
                } by {
                lemma_index_filter_step(n, key_flags(ident_eqv::<K>(), src, x), j as int);
            }
        }
        match index.get(&k) {
            Some(pos_ref) => {
                let pos = *pos_ref;
                buckets[pos].push(j);
                proof {
                    assert(as_ints(buckets@[pos as int]@) =~= as_ints(old_buckets[pos as int]@).push(j as int));
                    assert forall|x: K| #[trigger] index@.contains_key(x) implies index@[x] < buckets@.len() && as_ints(buckets@[index@[x] as int]@)
                        == filter_by(index_seq(n as nat).take(j + 1), key_flags(ident_eqv::<K>(), src, x).take(j + 1)) by {
                        if x != k {
                            assert(index@[x] != index@[k]);
                        }
                    }
                }
            },
            None => {
                let pos = buckets.len();
                let mut b: Vec<usize> = Vec::new();
                b.push(j);
                buckets.push(b);
                index.insert(k, pos);
                proof {
                    assert(as_ints(buckets@[pos as int]@) =~= seq![j as int]);
                    assert(filter_by(index_seq(n as nat).take(j as int), key_flags(ident_eqv::<K>(), src, k).take(j as int)) == Seq::<int>::empty());
                    assert(seq![j as int] =~= Seq::<int>::empty().push(j as int));
                    assert forall|a: K, bb: K| index@.contains_key(a) && index@.contains_key(bb) && a != bb implies #[trigger] index@[a] != #[trigger] index@[bb] by {
                        if a != k && bb != k {
                            assert(old_index.contains_key(a) && old_index.contains_key(bb));
                        }
                    }
                }
            },
        }
        j = j + 1;
    }
    proof {
        assert(index_seq(n as nat).take(n) == index_seq(n as nat));
        assert forall|x: K| #[trigger] key_flags(ident_eqv::<K>(), src, x).take(n) == key_flags(ident_eqv::<K>(), src, x) by {
            assert(key_flags(ident_eqv::<K>(), src, x).take(n) =~= key_flags(ident_eqv::<K>(), src, x));
        }
    }
    (index, buckets)
}

/// Clones the inner elements at the given positions.
pub fn clone_at<U: Clone>(inner: &Vec<U>, idx: &Vec<usize>) -> (g: Vec<U>)
    requires
        forall|t: int| 0 <= t < idx@.len() ==> #[trigger] idx@[t] < inner@.len(),
    ensures
        cloned_group(inner@, as_ints(idx@), g@),
{
    let mut out: Vec<U> = Vec::new();
    let mut t: usize = 0;
    while t < idx.len()
        invariant
            forall|t: int| 0 <= t < idx@.len() ==> #[trigger] idx@[t] < inner@.len(),
            0 <= t <= idx@.len(),
            out@.len() == t,
            forall|m: int| 0 <= m < t ==> cloned(inner@[idx@[m] as int], #[trigger] out@[m]),
        decreases idx@.len() - t,
    {
        let c = inner[idx[t]].clone();
        proof {
            assert(vstd::pervasive::strictly_cloned(inner@[idx@[t as int] as int], c));
        }
        out.push(c);
        t = t + 1;
    }
    out
}

/// Pairs clones of `x` with clones of the inner elements at `idx`.
pub fn join_row<T: Clone, U: Clone, R, F: Fn(T, U) -> R>(x: &T, inner: &Vec<U>, idx: &Vec<usize>, f: &F) -> (row: Vec<R>)
    requires
        forall|t: int| 0 <= t < idx@.len() ==> #[trigger] idx@[t] < inner@.len(),
        forall|a: T, b: U| call_requires(*f, (a, b)),
    ensures
        joined_row(*f, *x, inner@, as_ints(idx@), row@),
{
    let mut out: Vec<R> = Vec::new();
    let mut t: usize = 0;
    while t < idx.len()
        invariant
            forall|t: int| 0 <= t < idx@.len() ==> #[trigger] idx@[t] < inner@.len(),
            forall|a: T, b: U| call_requires(*f, (a, b)),
            0 <= t <= idx@.len(),
            out@.len() == t,
            forall|m: int| 0 <= m < t ==> #[trigger] joined_cell(*f, *x, inner@[idx@[m] as int], out@[m]),
        decreases idx@.len() - t,
    {
        let a = x.clone();
        let b = inner[idx[t]].clone();
        proof {
            assert(vstd::pervasive::strictly_cloned(*x, a));
            assert(vstd::pervasive::strictly_cloned(inner@[idx@[t as int] as int], b));
        }
        let res = f(a, b);
        proof {
            assert(joined_cell(*f, *x, inner@[idx@[t as int] as int], res));
        }
        out.push(res);
        t = t + 1;
    }
    out
}

} // verus!
