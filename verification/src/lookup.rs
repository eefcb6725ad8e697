//! [`Lookup`]: a one-to-many keyed collection, the analogue of C#'s
//! `ILookup<TKey, TElement>`.
//!
//! Groups are held in a `Vec` in first-appearance order, and a
//! `HashMap<K, usize>` maps each key to its group's position, so a lookup by
//! key does not scan the groups.
use vstd::prelude::*;

use crate::grouping::Grouping;
use crate::keyed::{
    clone_is_identity, elems_of, firsts, has_key, ident_eqv, is_first_match, is_grouping, keys_of,
    lemma_grouping_push_existing, lemma_grouping_push_new, lemma_pairs_push, seconds,
};
use std::collections::HashMap;
use std::hash::Hash;
use vstd::std_specs::hash::obeys_key_model;

verus! {

/// A keyed collection that maps each key to one or more values.
///
/// Groups are kept in first-appearance order, and the values within each
/// group in insertion order.
pub struct Lookup<K, V> {
    /// Groups in first-appearance order.
    groups: Vec<Grouping<K, V>>,
    /// Key to position in `groups`.
    index: HashMap<K, usize>,
}

impl<K, V> Lookup<K, V> {
    /// The groups, in first-appearance order.
    pub closed spec fn spec_groups(&self) -> Seq<Grouping<K, V>> {
        self.groups@
    }

    /// The distinct keys, in first-appearance order.
    pub open spec fn spec_keys(&self) -> Seq<K> {
        keys_of(self.spec_groups())
    }

    /// The values of each group, position by position with [`Self::spec_keys`].
    pub open spec fn spec_elems(&self) -> Seq<Seq<V>> {
        elems_of(self.spec_groups())
    }

    /// The values stored under `k`, in insertion order; empty when `k` is absent.
    pub open spec fn spec_values(&self, k: K) -> Seq<V> {
        if self.spec_keys().contains(k) {
            self.spec_elems()[self.spec_keys().index_of(k)]
        } else {
            Seq::empty()
        }
    }

    /// The index points every key at its group, and no key occurs twice.
    #[verifier::type_invariant]
    pub closed spec fn well_formed(&self) -> bool {
        &&& forall|k: K| #[trigger] self.index@.contains_key(k) <==> self.spec_keys().contains(k)
        &&& forall|k: K| #[trigger]
            self.index@.contains_key(k) ==> self.index@[k] < self.groups@.len() && self.spec_keys()[self.index@[k] as int] == k
        &&& self.spec_keys().no_duplicates()
    }

    /// In a well-formed lookup, the values of the group at position `j` are
    /// the values stored under its key.
    pub proof fn lemma_values_at(&self, j: int)
        requires
            self.well_formed(),
            0 <= j < self.spec_keys().len(),
        ensures
            self.spec_values(self.spec_keys()[j]) == self.spec_elems()[j],
    {
        let ks = self.spec_keys();
        assert(ks.contains(ks[j]));
        let p = ks.index_of(ks[j]);
        assert(ks[p] == ks[j]);
    }

    /// No key of a well-formed lookup occurs twice.
    pub proof fn lemma_keys_distinct(&self)
        requires
            self.well_formed(),
        ensures
            self.spec_keys().no_duplicates(),
    {
    }

    /// Creates an empty lookup.
    pub fn new() -> (r: Self)
        ensures
            r.spec_groups() == Seq::<Grouping<K, V>>::empty(),
    {
        let r = Lookup { groups: Vec::new(), index: HashMap::new() };
        proof {
            assert(r.spec_keys() =~= Seq::<K>::empty());
        }
        r
    }

    /// Number of distinct keys.
    pub fn len(&self) -> (r: usize)
        ensures
            r == self.spec_keys().len(),
    {
        self.groups.len()
    }

    /// Whether there are no keys.
    pub fn is_empty(&self) -> (r: bool)
        ensures
            r == (self.spec_keys().len() == 0),
    {
        self.groups.len() == 0
    }

    /// All groups, in first-appearance order.
    pub fn groups(&self) -> (r: &[Grouping<K, V>])
        ensures
            r@ == self.spec_groups(),
    {
        self.groups.as_slice()
    }

    /// Consumes the lookup and returns its groups, in first-appearance order.
    pub fn into_groups(self) -> (r: Vec<Grouping<K, V>>)
        ensures
            r@ == self.spec_groups(),
    {
        self.groups
    }
}

impl<K: Eq + Hash + Clone, V> Lookup<K, V> {
    /// Appends `value` to the group for `key`, creating the group at the end
    /// if the key is new.
    pub fn insert(&mut self, key: K, value: V)
        requires
            obeys_key_model::<K>(),
            clone_is_identity::<K>(),
        ensures
            old(self).spec_keys().contains(key) ==> {
                let p = old(self).spec_keys().index_of(key);
                &&& final(self).spec_keys() == old(self).spec_keys()
                &&& final(self).spec_elems() == old(self).spec_elems().update(p, old(self).spec_elems()[p].push(value))
            },
            !old(self).spec_keys().contains(key) ==> {
                &&& final(self).spec_keys() == old(self).spec_keys().push(key)
                &&& final(self).spec_elems() == old(self).spec_elems().push(seq![value])
            },
            forall|k: K| #[trigger] final(self).spec_values(k) == if k == key {
                old(self).spec_values(k).push(value)
            } else {
                old(self).spec_values(k)
            },
    {
        broadcast use vstd::std_specs::hash::group_hash_axioms;
        proof {
            use_type_invariant(&*self);
        }
        let ghost gk = self.spec_keys();
        let ghost ge = self.spec_elems();
        let ghost old_index = self.index@;
        let mut this: Self = Lookup::new();
        core::mem::swap(&mut this, self);
        let Lookup { mut groups, mut index } = this;
        match index.get(&key) {
            Some(pos_ref) => {
                let pos = *pos_ref;
                proof {
                    assert(gk.contains(key));
                    let p = gk.index_of(key);
                    assert(gk[p] == key);
                    assert(p == pos);
                }
                groups[pos].push(value);
                proof {
                    assert(keys_of(groups@) =~= gk);
                    assert(elems_of(groups@) =~= ge.update(pos as int, ge[pos as int].push(value)));
                }
            },
            None => {
                let pos = groups.len();
                let k2 = key.clone();
                assert(vstd::pervasive::strictly_cloned(key, k2));
                assert(cloned(key, k2));
                assert(k2 == key);
                index.insert(k2, pos);
                let mut g = Grouping::new(key);
                g.push(value);
                groups.push(g);
                proof {
                    assert(keys_of(groups@) =~= gk.push(key));
                    assert(elems_of(groups@) =~= ge.push(seq![value]));
                    assert forall|k: K| #[trigger] index@.contains_key(k) <==> keys_of(groups@).contains(k) by {
                        if keys_of(groups@).contains(k) && k != key {
                            let w = choose|j: int| 0 <= j < keys_of(groups@).len() && keys_of(groups@)[j] == k;
                            assert(gk[w] == k);
                        }
                        if k != key && old_index.contains_key(k) {
                            assert(gk.contains(k));
                            let w = choose|j: int| 0 <= j < gk.len() && gk[j] == k;
                            assert(keys_of(groups@)[w] == k);
                        }
                        if k == key {
                            assert(keys_of(groups@)[gk.len() as int] == k);
                        }
                    }
                }
            },
        }
        *self = Lookup { groups, index };
        proof {
            let fk = self.spec_keys();
            let fe = self.spec_elems();
            assert forall|k: K| #[trigger] self.spec_values(k) == if k == key {
                old(self).spec_values(k).push(value)
            } else {
                old(self).spec_values(k)
            } by {
                if gk.contains(k) {
                    let p = gk.index_of(k);
                    assert(gk[p] == k);
                    assert(fk[p] == k);
                    assert(fk.contains(k));
                    let q = fk.index_of(k);
                    assert(fk[q] == k);
                    assert(p == q);
                } else if k == key {
                    assert(fk[gk.len() as int] == k);
                    assert(fk.contains(k));
                    let q = fk.index_of(k);
                    assert(fk[q] == k);
                    assert(q == gk.len());
                } else {
                    if fk.contains(k) {
                        let q = fk.index_of(k);
                        assert(fk[q] == k);
                        if q < gk.len() {
                            assert(gk[q] == k);
                        }
                    }
                }
            }
        }
    }

    /// Builds a lookup by inserting `(key, value)` pairs in order: the groups
    /// are the grouping of the values by their keys, in first-appearance order.
    pub fn from_pairs(pairs: Vec<(K, V)>) -> (r: Self)
        requires
            obeys_key_model::<K>(),
            clone_is_identity::<K>(),
        ensures
            is_grouping(ident_eqv(), firsts(pairs@), seconds(pairs@), r.spec_keys(), r.spec_elems()),
    {
        let ghost src = pairs@;
        let mut lookup: Self = Lookup::new();
        let ghost mut done: Seq<(K, V)> = Seq::empty();
        proof {
            assert(lookup.spec_keys() =~= Seq::<K>::empty());
            assert(lookup.spec_elems() =~= Seq::<Seq<V>>::empty());
            assert(firsts(done) =~= Seq::<K>::empty());
        }
        for pair in it: pairs.into_iter()
            invariant
                src == it.seq(),
                obeys_key_model::<K>(),
                clone_is_identity::<K>(),
                done == src.take(it.index() as int),
                is_grouping(ident_eqv(), firsts(done), seconds(done), lookup.spec_keys(), lookup.spec_elems()),
        {
            let ghost i = it.index() as int;
            assert(pair == src[i]);
            let (key, value) = pair;
            let ghost gk = lookup.spec_keys();
            let ghost ge = lookup.spec_elems();
            proof {
                use_type_invariant(&lookup);
                lemma_pairs_push(done, (key, value));
                assert(src.take(i + 1) == done.push((key, value)));
                lookup.lemma_keys_distinct();
                if gk.contains(key) {
                    let p = gk.index_of(key);
                    assert(gk[p] == key);
                    assert forall|m: int| 0 <= m < p implies !(#[trigger] ident_eqv::<K>()(gk[m], key)) by {
                        assert(gk[m] != gk[p]);
                    }
                    assert(is_first_match(ident_eqv(), gk, key, p));
                    lemma_grouping_push_existing(ident_eqv(), firsts(done), seconds(done), gk, ge, key, value, p);
                } else {
                    assert(!has_key(ident_eqv(), gk, key)) by {
                        if has_key(ident_eqv(), gk, key) {
                            let w = choose|j: int| 0 <= j < gk.len() && #[trigger] ident_eqv::<K>()(gk[j], key);
                            assert(gk[w] == key);
                        }
                    }
                    lemma_grouping_push_new(ident_eqv(), firsts(done), seconds(done), gk, ge, key, value);
                }
            }
            lookup.insert(key, value);
            proof {
                done = done.push((key, value));
            }
        }
        proof {
            assert(src.take(src.len() as int) == src);
        }
        lookup
    }

    /// All values stored under `key`, or an empty slice if it is absent.
    pub fn get(&self, key: &K) -> (r: &[V])
        requires
            obeys_key_model::<K>(),
        ensures
            r@ == self.spec_values(*key),
    {
        broadcast use vstd::std_specs::hash::group_hash_axioms;
        proof {
            use_type_invariant(self);
        }
        match self.index.get(key) {
            Some(pos_ref) => {
                let pos = *pos_ref;
                proof {
                    let gk = self.spec_keys();
                    assert(gk.contains(*key));
                    let p = gk.index_of(*key);
                    assert(gk[p] == *key);
                    assert(p == pos);
                }
                self.groups[pos].elements()
            },
            None => {
                let empty: &[V] = &[];
                proof {
                    assert(empty@ =~= Seq::<V>::empty());
                }
                empty
            },
        }
    }

    /// Whether `key` is present.
    pub fn contains_key(&self, key: &K) -> (r: bool)
        requires
            obeys_key_model::<K>(),
        ensures
            r == self.spec_keys().contains(*key),
    {
        broadcast use vstd::std_specs::hash::group_hash_axioms;
        proof {
            use_type_invariant(self);
        }
        self.index.contains_key(key)
    }
}

impl<K, V> Default for Lookup<K, V> {
    /// An empty lookup.
    fn default() -> (r: Self)
        ensures
            r.spec_groups() == Seq::<Grouping<K, V>>::empty(),
    {
        Self::new()
    }
}

} // verus!
