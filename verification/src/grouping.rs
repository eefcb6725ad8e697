//! [`Grouping`] — the result of a grouping operation: a key and the
//! elements that share it.
use vstd::prelude::*;

verus! {

/// A group of elements that share a common key.
#[derive(Debug, Clone)]
pub struct Grouping<K, V> {
    key: K,
    elements: Vec<V>,
}

impl<K, V> Grouping<K, V> {
    /// The key of this group (specification view).
    pub closed spec fn spec_key(&self) -> K {
        self.key
    }

    /// The elements of this group, in order (specification view).
    pub closed spec fn spec_elements(&self) -> Seq<V> {
        self.elements@
    }

    /// An empty group for `key`.
    pub fn new(key: K) -> (g: Self)
        ensures
            g.spec_key() == key,
            g.spec_elements() == Seq::<V>::empty(),
    {
        Grouping { key, elements: Vec::new() }
    }

    /// The shared key for this group.
    pub fn key(&self) -> (k: &K)
        ensures
            *k == self.spec_key(),
    {
        &self.key
    }

    /// All elements that belong to this group.
    pub fn elements(&self) -> (e: &[V])
        ensures
            e@ == self.spec_elements(),
    {
        self.elements.as_slice()
    }

    /// Consumes the group and returns its key and elements.
    pub fn into_parts(self) -> (parts: (K, Vec<V>))
        ensures
            parts.0 == self.spec_key(),
            parts.1@ == self.spec_elements(),
    {
        (self.key, self.elements)
    }

    /// Appends an element.
    pub fn push(&mut self, value: V)
        ensures
            final(self).spec_key() == old(self).spec_key(),
            final(self).spec_elements() == old(self).spec_elements().push(value),
    {
        self.elements.push(value);
    }

    /// Consumes the group and returns its elements.
    pub fn into_elements(self) -> (e: Vec<V>)
        ensures
            e@ == self.spec_elements(),
    {
        self.elements
    }
}

} // verus!
