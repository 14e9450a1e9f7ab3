//! A grow-only map: keys are never removed, and a value only ever advances
//! by merging.

use crate::btree::map_get_mut;
use crate::btree::map_pop_first;
use crate::merge::Merge;
use crate::merge::MergeLaws;
use crate::values::ascending_keys;
use crate::values::compatible_values;
use crate::values::entries;
use crate::values::insert_or_merge;
use crate::values::insert_value;
use crate::values::join_values;
use crate::values::lemma_store;
use crate::values::value_views;
use crate::values::values_wf;
use std::collections::BTreeMap;
use std::hash::Hash;
use vstd::laws_cmp::obeys_cmp;
use vstd::prelude::*;

verus! {

/// A map from keys to mergeable values that only grows.
#[derive(Debug, Clone, PartialEq, Eq)]
pub struct GMap<K: Hash + Ord, V: Merge>(BTreeMap<K, V>);

impl<K: Hash + Ord, V: Merge> View for GMap<K, V> {
    type V = Map<K, V::V>;

    closed spec fn view(&self) -> Map<K, V::V> {
        value_views(self.0@)
    }
}

impl<K: Hash + Ord, V: Merge> GMap<K, V> {
    /// The entries in ascending order of their keys.
    pub fn iter(&self) -> (listed: Vec<(&K, &V)>)
        requires
            self.wf(),
        ensures
            listed@.len() == self@.dom().len(),
            forall|i: int|
                0 <= i < listed@.len() ==> {
                    &&& self@.contains_key(*(#[trigger] listed@[i]).0)
                    &&& self@[*listed@[i].0] == listed@[i].1@
                    &&& listed@[i].1.wf()
                },
            forall|k: K|
                self@.contains_key(k) ==> exists|i: int|
                    0 <= i < listed@.len() && *(#[trigger] listed@[i]).0 == k,
            ascending_keys(listed@),
    {
        assert(self@.dom() =~= self.0@.dom());
        entries(&self.0)
    }

    /// Stores `value` under `key`. A key that the map already holds keeps
    /// what it had: the new value is merged into the stored one.
    pub fn insert(&mut self, key: K, value: V)
        requires
            old(self).wf(),
            value.wf(),
        ensures
            final(self).wf(),
            final(self)@ == insert_value::<K, V>(old(self)@, key, value@),
    {
        insert_or_merge(&mut self.0, key, value);
    }

    /// A handle on the value stored under `key`, for updating it in place.
    /// The map follows whatever the caller leaves in the value.
    pub fn get_mut(&mut self, key: &K) -> (slot: Option<&mut V>)
        requires
            old(self).wf(),
        ensures
            match slot {
                Some(value) => {
                    &&& old(self)@.contains_key(*key)
                    &&& value@ == old(self)@[*key]
                    &&& value.wf()
                    &&& final(self)@ == old(self)@.insert(*key, final(value)@)
                    &&& final(value).wf() ==> final(self).wf()
                },
                None => {
                    &&& !old(self)@.contains_key(*key)
                    &&& final(self)@ == old(self)@
                    &&& final(self).wf()
                },
            },
    {
        proof {
            let stored = self.0@;
            assert forall|value: V|
                #![trigger stored.insert(*key, value)]
                value_views(stored.insert(*key, value)) == value_views(stored).insert(
                    *key,
                    value@,
                ) && (value.wf() ==> values_wf(stored.insert(*key, value))) by {
                lemma_store(stored, *key, value);
            }
        }
        map_get_mut(&mut self.0, key)
    }
}

impl<K: Hash + Ord, V: Merge> Merge for GMap<K, V> {
    closed spec fn wf(&self) -> bool {
        obeys_cmp::<K>() && values_wf(self.0@)
    }

    open spec fn join(a: Map<K, V::V>, b: Map<K, V::V>) -> Map<K, V::V> {
        join_values::<K, V>(a, b)
    }

    fn merge_mut(&mut self, other: Self) {
        let mut rest = other.0;
        loop
            invariant
                self.wf(),
                values_wf(rest@),
                rest@.dom().finite(),
                join_values::<K, V>(self@, value_views(rest@)) == join_values::<K, V>(
                    old(self)@,
                    other@,
                ),
            ensures
                self.wf(),
                self@ == join_values::<K, V>(old(self)@, other@),
            decreases rest@.dom().len(),
        {
            match map_pop_first(&mut rest) {
                Some((key, value)) => {
                    self.insert(key, value);
                },
                None => {
                    assert(join_values::<K, V>(self@, value_views(rest@)) =~= self@);
                    break ;
                },
            }
        }
    }
}

impl<K: Hash + Ord, V: Merge> Default for GMap<K, V> {
    fn default() -> (map: Self)
        ensures
            map@ == Map::<K, V::V>::empty(),
            obeys_cmp::<K>() ==> map.wf(),
    {
        let map = GMap(BTreeMap::new());
        assert(map@ =~= Map::<K, V::V>::empty());
        map
    }
}

impl<K: Hash + Ord, V: MergeLaws> MergeLaws for GMap<K, V> {
    open spec fn compatible(a: Map<K, V::V>, b: Map<K, V::V>) -> bool {
        compatible_values::<K, V>(a, b)
    }

    proof fn join_idempotent(a: Self) {
        assert forall|k: K| #[trigger] a@.contains_key(k) implies V::join(a@[k], a@[k]) == a@[k] by {
            V::join_idempotent(a.0@[k]);
        }
        assert(Self::join(a@, a@) =~= a@);
    }

    proof fn join_commutative(a: Self, b: Self) {
        assert forall|k: K| a@.contains_key(k) && b@.contains_key(k) implies V::join(a@[k], b@[k])
            == V::join(b@[k], a@[k]) by {
            V::join_commutative(a.0@[k], b.0@[k]);
        }
        assert(Self::join(a@, b@) =~= Self::join(b@, a@));
    }

    proof fn join_associative(a: Self, b: Self, c: Self) {
        assert forall|k: K|
            a@.contains_key(k) && b@.contains_key(k) && c@.contains_key(k) implies V::join(
            V::join(a@[k], b@[k]),
            c@[k],
        ) == V::join(a@[k], V::join(b@[k], c@[k])) by {
            V::join_associative(a.0@[k], b.0@[k], c.0@[k]);
        }
        assert(Self::join(Self::join(a@, b@), c@) =~= Self::join(a@, Self::join(b@, c@)));
    }
}

impl<K: Hash + Ord, V: Merge> GMap<K, V> {
    /// Merging two maps that share a key leaves under that key the join of
    /// the two values: neither value overwrites the other.
    pub proof fn lemma_join_merges_shared(a: Self, b: Self, key: K)
        requires
            a@.contains_key(key),
            b@.contains_key(key),
        ensures
            Self::join(a@, b@).contains_key(key),
            Self::join(a@, b@)[key] == V::join(a@[key], b@[key]),
    {
    }

    /// Merging never loses a key, nor invents one.
    pub proof fn lemma_join_keys(a: Self, b: Self)
        ensures
            Self::join(a@, b@).dom() == a@.dom().union(b@.dom()),
    {
        assert(Self::join(a@, b@).dom() =~= a@.dom().union(b@.dom()));
    }
}

} // verus!
