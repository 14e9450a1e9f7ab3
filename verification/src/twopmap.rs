//! A two-phase map: keys can be inserted and removed, and a removed key
//! stays removed for good, whatever is inserted or merged afterwards.

use crate::btree::map_get_mut;
use crate::btree::map_pop_first;
use crate::btree::set_append;
use crate::merge::Merge;
use crate::merge::MergeLaws;
use crate::values::ascending;
use crate::values::ascending_keys;
use crate::values::compatible_values;
use crate::values::entries;
use crate::values::insert_or_merge;
use crate::values::insert_value;
use crate::values::join_values;
use crate::values::lemma_listed_members;
use crate::values::lemma_store;
use crate::values::members;
use crate::values::value_views;
use crate::values::values_wf;
use std::collections::BTreeMap;
use std::collections::BTreeSet;
use std::fmt::Debug;
use vstd::laws_cmp::obeys_cmp;
use vstd::prelude::*;
use vstd::std_specs::iter::IteratorSpec;

verus! {

/// The abstract state of a two-phase map: the values of the live keys, and
/// the keys that were removed.
#[verifier::ext_equal]
#[verifier::reject_recursive_types(K)]
#[verifier::reject_recursive_types(V)]
pub struct TwoPMapView<K, V: Merge> {
    pub adds: Map<K, V::V>,
    pub removes: Set<K>,
}

impl<K, V: Merge> TwoPMapView<K, V> {
    /// The state of a map that was never touched.
    pub open spec fn empty() -> Self {
        TwoPMapView { adds: Map::empty(), removes: Set::empty() }
    }

    /// No live key is a removed key.
    pub open spec fn disjoint(self) -> bool {
        forall|k: K| #[trigger] self.adds.contains_key(k) ==> !self.removes.contains(k)
    }

    /// The state after `value` is inserted under `key`: unchanged where the
    /// key was removed before.
    pub open spec fn insert(self, key: K, value: V::V) -> Self {
        if self.removes.contains(key) {
            self
        } else {
            TwoPMapView { adds: insert_value::<K, V>(self.adds, key, value), removes: self.removes }
        }
    }

    /// The state after `key` is removed.
    pub open spec fn remove(self, key: K) -> Self {
        TwoPMapView { adds: self.adds.remove(key), removes: self.removes.insert(key) }
    }

    /// The join of two states: a key removed in either is removed, and the
    /// values of the keys that stay live are joined.
    pub open spec fn join(self, other: Self) -> Self {
        TwoPMapView {
            adds: join_values::<K, V>(self.adds, other.adds).remove_keys(
                self.removes.union(other.removes),
            ),
            removes: self.removes.union(other.removes),
        }
    }
}

/// A map in which removing a key is final.
#[derive(Debug, PartialEq, Eq, Clone)]
pub struct TwoPMap<K, V> where K: Ord + Debug + Clone, V: Merge {
    adds: BTreeMap<K, V>,
    removes: BTreeSet<K>,
}

impl<K, V> View for TwoPMap<K, V> where K: Ord + Debug + Clone, V: Merge {
    type V = TwoPMapView<K, V>;

    closed spec fn view(&self) -> TwoPMapView<K, V> {
        TwoPMapView { adds: value_views(self.adds@), removes: self.removes@ }
    }
}

impl<K, V> TwoPMap<K, V> where K: Ord + Debug + Clone, V: Merge {
    /// The values as they are stored, by key.
    pub closed spec fn stored(&self) -> Map<K, V> {
        self.adds@
    }

    /// The abstract state holds the abstract states of the stored values,
    /// and a well-formed map holds well-formed values and no removed key.
    pub proof fn lemma_stored(&self)
        ensures
            self@.adds == value_views(self.stored()),
            self@.adds.dom() == self.stored().dom(),
            self.wf() ==> values_wf(self.stored()) && self@.disjoint(),
    {
        assert(self@.adds.dom() =~= self.stored().dom());
    }

    /// The live entries in ascending order of their keys.
    pub fn iter(&self) -> (listed: Vec<(&K, &V)>)
        requires
            self.wf(),
        ensures
            listed@.len() == self@.adds.dom().len(),
            forall|i: int|
                0 <= i < listed@.len() ==> {
                    &&& self.stored().contains_key(*(#[trigger] listed@[i]).0)
                    &&& self.stored()[*listed@[i].0] == *listed@[i].1
                    &&& !self@.removes.contains(*listed@[i].0)
                },
            forall|k: K|
                self@.adds.contains_key(k) ==> exists|i: int|
                    0 <= i < listed@.len() && *(#[trigger] listed@[i]).0 == k,
            ascending_keys(listed@),
    {
        assert(self@.adds.dom() =~= self.adds@.dom());
        entries(&self.adds)
    }

    /// The removed keys in ascending order.
    pub fn removed(&self) -> (listed: Vec<&K>)
        requires
            self.wf(),
        ensures
            listed@.len() == self@.removes.len(),
            forall|i: int| 0 <= i < listed@.len() ==> self@.removes.contains(*#[trigger] listed@[i]),
            forall|k: K| #[trigger]
                self@.removes.contains(k) ==> exists|i: int|
                    0 <= i < listed@.len() && *#[trigger] listed@[i] == k,
            ascending(listed@),
    {
        members(&self.removes)
    }

    /// Stores `value` under `key`, merging it into a value that is already
    /// there. Does nothing where the key was removed before.
    pub fn insert(&mut self, key: K, value: V)
        requires
            old(self).wf(),
            value.wf(),
        ensures
            final(self).wf(),
            final(self)@ == old(self)@.insert(key, value@),
    {
        if self.removes.contains(&key) {
            return ;
        }
        insert_or_merge(&mut self.adds, key, value);
    }

    /// Removes `key` for good: its value goes, and no later insert or merge
    /// brings the key back.
    pub fn remove(&mut self, key: K)
        requires
            old(self).wf(),
        ensures
            final(self).wf(),
            final(self)@ == old(self)@.remove(key),
    {
        self.adds.remove(&key);
        self.removes.insert(key);
        assert(self@ =~= old(self)@.remove(key));
    }

    /// A handle on the value of a live key, for updating it in place. The
    /// map follows whatever the caller leaves in the value.
    pub fn get_mut(&mut self, key: &K) -> (slot: Option<&mut V>)
        requires
            old(self).wf(),
        ensures
            match slot {
                Some(value) => {
                    &&& old(self)@.adds.contains_key(*key)
                    &&& *value == old(self).stored()[*key]
                    &&& value@ == old(self)@.adds[*key]
                    &&& value.wf()
                    &&& final(self)@.adds == old(self)@.adds.insert(*key, final(value)@)
                    &&& final(self)@.removes == old(self)@.removes
                    &&& final(self).stored() == old(self).stored().insert(*key, *final(value))
                    &&& final(value).wf() ==> final(self).wf()
                },
                None => {
                    &&& !old(self)@.adds.contains_key(*key)
                    &&& final(self)@ == old(self)@
                    &&& final(self).stored() == old(self).stored()
                    &&& final(self).wf()
                },
            },
    {
        if self.removes.contains(key) {
            return None;
        }
        proof {
            let stored = self.adds@;
            assert forall|value: V|
                #![trigger stored.insert(*key, value)]
                value_views(stored.insert(*key, value)) == value_views(stored).insert(
                    *key,
                    value@,
                ) && (value.wf() ==> values_wf(stored.insert(*key, value))) by {
                lemma_store(stored, *key, value);
            }
        }
        map_get_mut(&mut self.adds, key)
    }

    /// Removes for good every live key whose entry `decider` turns down, and
    /// keeps the entries that it accepts as they are.
    pub fn retain(&mut self, decider: impl Fn(&K, &V) -> bool)
        requires
            old(self).wf(),
            forall|k: K| #[trigger]
                old(self).stored().contains_key(k) ==> call_requires(
                    decider,
                    (&k, &old(self).stored()[k]),
                ),
        ensures
            final(self).wf(),
            forall|k: K| #[trigger]
                final(self).stored().contains_key(k) ==> old(self).stored().contains_key(k)
                    && final(self).stored()[k] == old(self).stored()[k],
            forall|k: K| old(self)@.removes.contains(k) ==> #[trigger] final(self)@.removes.contains(k),
            forall|k: K| #[trigger]
                old(self).stored().contains_key(k) ==> {
                    let kept = final(self).stored().contains_key(k);
                    &&& call_ensures(decider, (&k, &old(self).stored()[k]), kept)
                    &&& final(self)@.removes.contains(k) == !kept
                },
            final(self)@.adds == old(self)@.adds.restrict(final(self)@.adds.dom()),
            final(self)@.removes == old(self)@.removes.union(
                old(self)@.adds.dom().difference(final(self)@.adds.dom()),
            ),
    {
        let mut rest = BTreeMap::new();
        std::mem::swap(&mut rest, &mut self.adds);
        let ghost before = rest@;
        let ghost removed = self.removes@;
        assert(before == old(self).stored());
        loop
            invariant
                obeys_cmp::<K>(),
                before == old(self).stored(),
                removed == old(self)@.removes,
                values_wf(before),
                forall|k: K| #[trigger] before.contains_key(k) ==> !removed.contains(k),
                forall|k: K| #[trigger]
                    before.contains_key(k) ==> call_requires(decider, (&k, &before[k])),
                rest@.dom().finite(),
                forall|k: K| #[trigger]
                    rest@.contains_key(k) ==> before.contains_key(k) && rest@[k] == before[k],
                forall|k: K| #[trigger]
                    self.adds@.contains_key(k) ==> before.contains_key(k) && self.adds@[k] == before[k],
                forall|k: K| removed.contains(k) ==> #[trigger] self.removes@.contains(k),
                forall|k: K| #[trigger]
                    self.removes@.contains(k) ==> removed.contains(k) || (before.contains_key(k)
                        && !rest@.contains_key(k) && !self.adds@.contains_key(k)),
                forall|k: K| #[trigger]
                    before.contains_key(k) ==> rest@.contains_key(k) || {
                        let kept = self.adds@.contains_key(k);
                        &&& call_ensures(decider, (&k, &before[k]), kept)
                        &&& self.removes@.contains(k) == !kept
                    },
                forall|k: K| #[trigger] rest@.contains_key(k) ==> !self.adds@.contains_key(k),
                forall|k: K| #[trigger] rest@.contains_key(k) ==> !self.removes@.contains(k),
            ensures
                rest@.dom() == Set::<K>::empty(),
            decreases rest@.dom().len(),
        {
            match map_pop_first(&mut rest) {
                Some((key, value)) => {
                    if decider(&key, &value) {
                        self.adds.insert(key, value);
                    } else {
                        self.removes.insert(key);
                    }
                },
                None => {
                    break ;
                },
            }
        }
        assert(self@.adds =~= old(self)@.adds.restrict(self@.adds.dom()));
        assert(self@.removes =~= old(self)@.removes.union(
            old(self)@.adds.dom().difference(self@.adds.dom()),
        ));
    }

    /// A removed key is not live, and stays so whatever is inserted.
    pub proof fn lemma_removed_stays_removed(map: Self, key: K, value: V::V)
        requires
            map.wf(),
            map@.removes.contains(key),
        ensures
            !map@.adds.contains_key(key),
            map@.insert(key, value) == map@,
    {
    }

    /// Once a key is removed, inserting under it again brings nothing back.
    pub proof fn lemma_remove_is_final(map: Self, key: K, value: V::V)
        requires
            map.wf(),
        ensures
            !map@.remove(key).adds.contains_key(key),
            map@.remove(key).insert(key, value) == map@.remove(key),
            !map@.remove(key).insert(key, value).adds.contains_key(key),
    {
    }

    /// A key removed on either side of a merge is not live after it.
    pub proof fn lemma_join_keeps_removed(a: Self, b: Self, key: K)
        requires
            a@.removes.contains(key) || b@.removes.contains(key),
        ensures
            a@.join(b@).removes.contains(key),
            !a@.join(b@).adds.contains_key(key),
    {
    }
}

impl<K, V> Merge for TwoPMap<K, V> where K: Ord + Debug + Clone, V: Merge {
    closed spec fn wf(&self) -> bool {
        &&& obeys_cmp::<K>()
        &&& values_wf(self.adds@)
        &&& forall|k: K| #[trigger] self.adds@.contains_key(k) ==> !self.removes@.contains(k)
    }

    open spec fn join(a: TwoPMapView<K, V>, b: TwoPMapView<K, V>) -> TwoPMapView<K, V> {
        a.join(b)
    }

    fn merge_mut(&mut self, other: Self) {
        let ghost ours = self@;
        let ghost theirs = other@;
        let ghost removed = ours.removes.union(theirs.removes);
        let mut other = other;
        set_append(&mut self.removes, &mut other.removes);
        let mut rest = other.adds;
        loop
            invariant
                obeys_cmp::<K>(),
                self.removes@ == removed,
                values_wf(self.adds@),
                values_wf(rest@),
                rest@.dom().finite(),
                join_values::<K, V>(
                    value_views(self.adds@),
                    value_views(rest@).remove_keys(removed),
                ) == join_values::<K, V>(ours.adds, theirs.adds.remove_keys(removed)),
            ensures
                self.removes@ == removed,
                values_wf(self.adds@),
                value_views(self.adds@) == join_values::<K, V>(
                    ours.adds,
                    theirs.adds.remove_keys(removed),
                ),
            decreases rest@.dom().len(),
        {
            match map_pop_first(&mut rest) {
                Some((key, value)) => {
                    if !self.removes.contains(&key) {
                        insert_or_merge(&mut self.adds, key, value);
                    }
                },
                None => {
                    assert(join_values::<K, V>(
                        value_views(self.adds@),
                        value_views(rest@).remove_keys(removed),
                    ) =~= value_views(self.adds@));
                    break ;
                },
            }
        }
        let ghost merged = self.adds@;
        proof {
            lemma_listed_members(self.removes.iter().remaining(), self.removes@);
        }
        for key in it: self.removes.iter()
            invariant
                obeys_cmp::<K>(),
                self.removes@ == removed,
                forall|k: K| #[trigger]
                    self.adds@.contains_key(k) ==> merged.contains_key(k) && self.adds@[k] == merged[k],
                forall|k: K| #[trigger]
                    merged.contains_key(k) ==> self.adds@.contains_key(k) || removed.contains(k),
                forall|i: int| 0 <= i < it.index() ==> !self.adds@.contains_key(*#[trigger] it.seq()[i]),
                forall|k: K| #[trigger]
                    removed.contains(k) ==> exists|i: int|
                        0 <= i < it.seq().len() && *#[trigger] it.seq()[i] == k,
                forall|i: int| 0 <= i < it.seq().len() ==> removed.contains(*#[trigger] it.seq()[i]),
        {
            self.adds.remove(key);
        }
        assert(self.adds@ =~= merged.remove_keys(removed));
        assert(value_views(self.adds@) =~= value_views(merged).remove_keys(removed));
        assert(self@ =~= ours.join(theirs));
    }
}

impl<K, V> Default for TwoPMap<K, V> where K: Ord + Debug + Clone, V: Merge {
    fn default() -> (map: Self)
        ensures
            map@ == TwoPMapView::<K, V>::empty(),
            obeys_cmp::<K>() ==> map.wf(),
    {
        let map = TwoPMap { adds: BTreeMap::new(), removes: BTreeSet::new() };
        assert(map@ =~= TwoPMapView::<K, V>::empty());
        map
    }
}

impl<K, V> MergeLaws for TwoPMap<K, V> where K: Ord + Debug + Clone, V: MergeLaws {
    open spec fn compatible(a: TwoPMapView<K, V>, b: TwoPMapView<K, V>) -> bool {
        compatible_values::<K, V>(a.adds, b.adds)
    }

    proof fn join_idempotent(a: Self) {
        assert forall|k: K| #[trigger] a@.adds.contains_key(k) implies V::join(
            a@.adds[k],
            a@.adds[k],
        ) == a@.adds[k] by {
            V::join_idempotent(a.adds@[k]);
        }
        assert(Self::join(a@, a@) =~= a@);
    }

    proof fn join_commutative(a: Self, b: Self) {
        assert forall|k: K| a@.adds.contains_key(k) && b@.adds.contains_key(k) implies V::join(
            a@.adds[k],
            b@.adds[k],
        ) == V::join(b@.adds[k], a@.adds[k]) by {
            V::join_commutative(a.adds@[k], b.adds@[k]);
        }
        assert(Self::join(a@, b@) =~= Self::join(b@, a@));
    }

    proof fn join_associative(a: Self, b: Self, c: Self) {
        assert forall|k: K|
            a@.adds.contains_key(k) && b@.adds.contains_key(k) && c@.adds.contains_key(
                k,
            ) implies V::join(V::join(a@.adds[k], b@.adds[k]), c@.adds[k]) == V::join(
            a@.adds[k],
            V::join(b@.adds[k], c@.adds[k]),
        ) by {
            V::join_associative(a.adds@[k], b.adds@[k], c.adds@[k]);
        }
        assert(Self::join(Self::join(a@, b@), c@) =~= Self::join(a@, Self::join(b@, c@)));
    }
}

} // verus!
