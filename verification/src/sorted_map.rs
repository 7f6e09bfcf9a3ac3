//! A map that keeps its keys in a strictly sorted vector.

use crate::sorted::{
    lemma_contains_at_lower_bound, lemma_insert_keeps_sorted, lemma_lower_bound_splits,
    lemma_remove_keeps_sorted, lower_bound, search, strictly_sorted, SortKey,
};
use vstd::prelude::*;

verus! {

/// The map that sends each key of the strictly sorted `keys` to the value at
/// the same index of `values`.
pub open spec fn paired<K: SortKey, V>(keys: Seq<K>, values: Seq<V>) -> Map<K, V> {
    Map::new(|key: K| keys.contains(key), |key: K| values[lower_bound(keys, key)])
}

/// Inserting a key that is absent, and a value at the same index, adds one
/// entry to the map.
pub proof fn lemma_paired_insert<K: SortKey, V>(keys: Seq<K>, values: Seq<V>, key: K, value: V)
    requires
        strictly_sorted(keys),
        keys.len() == values.len(),
        !keys.contains(key),
    ensures
        paired(
            keys.insert(lower_bound(keys, key), key),
            values.insert(lower_bound(keys, key), value),
        ) == paired(keys, values).insert(key, value),
{
    let at = lower_bound(keys, key);
    let new_keys = keys.insert(at, key);
    let new_values = values.insert(at, value);
    lemma_lower_bound_splits(keys, key);
    lemma_insert_keeps_sorted(keys, key);
    assert forall|k: K| new_keys.contains(k) <==> (k == key || keys.contains(k)) by {
        if keys.contains(k) {
            let i = choose|i: int| 0 <= i < keys.len() && keys[i] == k;
            if i < at {
                assert(new_keys[i] == k);
            } else {
                assert(new_keys[i + 1] == k);
            }
        }
        assert(new_keys[at] == key);
    }
    assert forall|k: K| new_keys.contains(k) implies new_values[lower_bound(new_keys, k)] == (if k
        == key {
        value
    } else {
        values[lower_bound(keys, k)]
    }) by {
        lemma_contains_at_lower_bound(new_keys, k);
        lemma_contains_at_lower_bound(keys, k);
        K::lemma_strict_total_order(&k, &k, &k);
    }
}

/// Removing a key, and the value at the same index, removes its entry from
/// the map.
pub proof fn lemma_paired_remove<K: SortKey, V>(keys: Seq<K>, values: Seq<V>, at: int)
    requires
        strictly_sorted(keys),
        keys.len() == values.len(),
        0 <= at < keys.len(),
    ensures
        paired(keys.remove(at), values.remove(at)) == paired(keys, values).remove(keys[at]),
{
    let key = keys[at];
    let new_keys = keys.remove(at);
    let new_values = values.remove(at);
    lemma_remove_keeps_sorted(keys, at);
    K::lemma_strict_total_order(&key, &key, &key);
    assert forall|k: K| new_keys.contains(k) <==> (k != key && keys.contains(k)) by {
        if k != key && keys.contains(k) {
            let j = choose|j: int| 0 <= j < keys.len() && keys[j] == k;
            let i = if j < at { j } else { j - 1 };
            assert(new_keys[i] == k);
        }
    }
    assert forall|k: K| new_keys.contains(k) implies new_values[lower_bound(new_keys, k)]
        == values[lower_bound(keys, k)] by {
        lemma_contains_at_lower_bound(new_keys, k);
        lemma_contains_at_lower_bound(keys, k);
        K::lemma_strict_total_order(&k, &k, &k);
    }
}

/// A map from keys to values, held as two vectors of one length: the keys,
/// strictly sorted, and at the same indices their values.
pub struct SortedMap<K: SortKey, V> {
    keys: Vec<K>,
    values: Vec<V>,
}

impl<K: SortKey, V> SortedMap<K, V> {
    /// The keys, in order.
    pub closed spec fn keys(&self) -> Seq<K> {
        self.keys@
    }

    /// The values, in the order of their keys.
    pub closed spec fn values(&self) -> Seq<V> {
        self.values@
    }

    /// The keys are strictly sorted and each has its value.
    pub open spec fn wf(&self) -> bool {
        strictly_sorted(self.keys()) && self.keys().len() == self.values().len()
    }

    /// The entries as a map.
    pub open spec fn entries(&self) -> Map<K, V> {
        paired(self.keys(), self.values())
    }

    /// A map without entries.
    pub fn new() -> (map: Self)
        ensures
            map.wf(),
            map.keys() == Seq::<K>::empty(),
            map.values() == Seq::<V>::empty(),
    {
        SortedMap { keys: Vec::new(), values: Vec::new() }
    }

    /// The number of entries.
    pub fn len(&self) -> (n: usize)
        requires
            self.wf(),
        ensures
            n == self.keys().len(),
    {
        self.keys.len()
    }

    /// Finds `key`: `Ok` with the index of its entry, or `Err` with the index
    /// at which an entry for it has to be inserted.
    pub fn find(&self, key: &K) -> (r: Result<usize, usize>)
        requires
            self.wf(),
        ensures
            match r {
                Ok(at) => at < self.keys().len() && self.keys()[at as int] == *key && at
                    == lower_bound(self.keys(), *key) && self.entries().contains_key(*key)
                    && self.entries()[*key] == self.values()[at as int],
                Err(at) => at <= self.keys().len() && !self.keys().contains(*key) && at
                    == lower_bound(self.keys(), *key) && !self.entries().contains_key(*key),
            },
    {
        search(&self.keys, key)
    }

    /// The key of the entry at `at`.
    pub fn key_at(&self, at: usize) -> (key: &K)
        requires
            self.wf(),
            at < self.keys().len(),
        ensures
            *key == self.keys()[at as int],
    {
        &self.keys[at]
    }

    /// The value of the entry at `at`.
    pub fn value_at(&self, at: usize) -> (value: &V)
        requires
            self.wf(),
            at < self.keys().len(),
        ensures
            *value == self.values()[at as int],
    {
        &self.values[at]
    }

    /// Adds an entry for a key that has none, at the index that `find` gave.
    pub fn insert_at(&mut self, at: usize, key: K, value: V)
        requires
            old(self).wf(),
            !old(self).keys().contains(key),
            at == lower_bound(old(self).keys(), key),
        ensures
            final(self).wf(),
            final(self).keys() == old(self).keys().insert(at as int, key),
            final(self).values() == old(self).values().insert(at as int, value),
            final(self).entries() == old(self).entries().insert(key, value),
    {
        proof {
            lemma_lower_bound_splits(self.keys(), key);
            lemma_insert_keeps_sorted(self.keys(), key);
            lemma_paired_insert(self.keys(), self.values(), key, value);
        }
        self.keys.insert(at, key);
        self.values.insert(at, value);
    }

    /// Removes the entry at `at` and returns its value.
    pub fn remove_at(&mut self, at: usize) -> (value: V)
        requires
            old(self).wf(),
            at < old(self).keys().len(),
        ensures
            final(self).wf(),
            value == old(self).values()[at as int],
            final(self).keys() == old(self).keys().remove(at as int),
            final(self).values() == old(self).values().remove(at as int),
            final(self).entries() == old(self).entries().remove(old(self).keys()[at as int]),
    {
        proof {
            lemma_remove_keeps_sorted(self.keys(), at as int);
            lemma_paired_remove(self.keys(), self.values(), at as int);
        }
        self.keys.remove(at);
        self.values.remove(at)
    }
}

} // verus!
