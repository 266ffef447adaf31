//! Maps from handles to what is known of them.

use std::collections::hash_map::Entry;
use std::collections::HashMap;
use vstd::prelude::*;
use vstd::std_specs::iter::IteratorSpec;

verus! {

/// A map from handles. A handle is a number that stands for an object of the engine.
pub struct HandleMap<V> {
    entries: HashMap<usize, V>,
}

impl<V> View for HandleMap<V> {
    type V = Map<usize, V>;

    closed spec fn view(&self) -> Map<usize, V> {
        self.entries@
    }
}

impl<V> HandleMap<V> {
    /// An empty map.
    pub fn new() -> (r: HandleMap<V>)
        ensures
            r@ == Map::<usize, V>::empty(),
    {
        HandleMap { entries: HashMap::new() }
    }

    /// The handle has an entry.
    pub fn contains(&self, key: usize) -> (r: bool)
        ensures
            r == self@.dom().contains(key),
    {
        self.entries.contains_key(&key)
    }

    /// What is known of the handle.
    pub fn get(&self, key: usize) -> (r: Option<&V>)
        ensures
            match r {
                Some(v) => self@.dom().contains(key) && *v == self@[key],
                None => !self@.dom().contains(key),
            },
    {
        self.entries.get(&key)
    }

    /// What is known of the handle, to be changed.
    pub fn get_mut(&mut self, key: usize) -> (r: Option<&mut V>)
        ensures
            match r {
                Some(v) => old(self)@.dom().contains(key) && *v == old(self)@[key] && final(self)@
                    == old(self)@.insert(key, *final(v)),
                None => !old(self)@.dom().contains(key) && *final(self) == *old(self),
            },
    {
        if !self.entries.contains_key(&key) {
            return None;
        }
        match self.entries.entry(key) {
            Entry::Occupied(e) => Some(e.into_mut()),
            Entry::Vacant(_) => None,
        }
    }

    /// The handles that have an entry, in no order.
    pub(crate) fn keys(&self) -> (r: Vec<usize>)
        ensures
            forall|k: usize| r@.contains(k) <==> self@.dom().contains(k),
    {
        let mut r: Vec<usize> = Vec::new();
        let keys = self.entries.keys();
        let ghost all = keys.remaining().unref();
        for k in it: keys
            invariant
                it.seq().unref() == all,
                r@ == all.take(it.index()),
        {
            r.push(*k);
        }
        assert(r@ =~= all);
        assert forall|k: usize| r@.contains(k) <==> self@.dom().contains(k) by {
            assert(all.contains(k) <==> all.to_set().contains(k));
        }
        r
    }

    /// Lets the handle have this entry.
    pub fn insert(&mut self, key: usize, value: V)
        ensures
            final(self)@ == old(self)@.insert(key, value),
    {
        self.entries.insert(key, value);
    }

    /// Takes the handle's entry out.
    pub fn remove(&mut self, key: usize)
        ensures
            final(self)@ == old(self)@.remove(key),
    {
        self.entries.remove(&key);
    }
}

} // verus!
