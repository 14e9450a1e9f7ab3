//! A last-writer-wins map: a last-writer-wins set decides which keys are
//! members, and a map of mergeable values holds what the keys stand for.

use crate::btree::map_pop_first;
use crate::hlc::HybridLogicalClock;
use crate::lwwset::LWWSet;
use crate::lwwset::LWWSetView;
use crate::merge::Merge;
use crate::merge::MergeLaws;
use crate::values::ascending_keys;
use crate::values::compatible_values;
use crate::values::entries;
use crate::values::insert_or_merge;
use crate::values::insert_value;
use crate::values::join_values;
use crate::values::value_views;
use crate::values::values_wf;
use std::collections::BTreeMap;
use vstd::laws_cmp::obeys_cmp;
use vstd::prelude::*;

verus! {

/// Whether a clone of a `K` is always equal to the `K` it was made from.
pub open spec fn clones_equal<K: Clone>() -> bool {
    forall|value: K, copy: K| #[trigger] cloned::<K>(value, copy) ==> value == copy
}

/// The abstract state of a last-writer-wins map: the add and remove clocks
/// of its keys, and the values that it stores.
#[verifier::ext_equal]
#[verifier::reject_recursive_types(K)]
#[verifier::reject_recursive_types(V)]
pub struct LWWMapView<K, V: Merge> {
    pub keys: LWWSetView<K>,
    pub values: Map<K, V::V>,
}

impl<K, V: Merge> LWWMapView<K, V> {
    /// The state of a map that was never touched.
    pub open spec fn empty() -> Self {
        LWWMapView { keys: LWWSetView::empty(), values: Map::empty() }
    }

    /// Whether `key` is a member.
    pub open spec fn contains(self, key: K) -> bool {
        self.keys.contains(key)
    }

    /// Whether values are stored for members only.
    pub open spec fn pruned(self) -> bool {
        forall|k: K| #[trigger] self.values.contains_key(k) ==> self.keys.contains(k)
    }

    /// The state after `value` is inserted under `key` at `clock`: the add
    /// is recorded, and the value is stored or merged into the stored one,
    /// whatever the clock.
    pub open spec fn insert(self, key: K, value: V::V, clock: HybridLogicalClock) -> Self {
        LWWMapView {
            keys: self.keys.insert(key, clock),
            values: insert_value::<K, V>(self.values, key, value),
        }
    }

    /// The state after `key` is removed at `clock`: the remove is recorded,
    /// and the stored value goes, whatever the clock.
    pub open spec fn remove(self, key: K, clock: HybridLogicalClock) -> Self {
        LWWMapView { keys: self.keys.remove(key, clock), values: self.values.remove(key) }
    }

    /// The join of two states: the clocks are joined first; of the values
    /// only those of the members after that are kept, and joined.
    pub open spec fn join(self, other: Self) -> Self {
        let keys = self.keys.join(other.keys);
        LWWMapView {
            keys,
            values: join_values::<K, V>(
                self.values.restrict(keys.members()),
                other.values.restrict(keys.members()),
            ),
        }
    }

    /// Whether no value for a member of the join of all three states is
    /// dropped when only two of them are joined first.
    pub open spec fn lossless(self, second: Self, third: Self) -> bool {
        let first_two = self.keys.join(second.keys);
        let last_two = second.keys.join(third.keys);
        let all = first_two.join(third.keys);
        forall|k: K| #[trigger]
            all.contains(k) ==> {
                &&& self.values.contains_key(k) || second.values.contains_key(k)
                    ==> first_two.contains(k)
                &&& second.values.contains_key(k) || third.values.contains_key(k)
                    ==> last_two.contains(k)
            }
    }
}

/// A map whose keys are added and removed by their clocks.
#[derive(Debug, PartialEq, Eq, Clone)]
pub struct LWWMap<K, V> where K: Ord, V: Merge {
    keys: LWWSet<K>,
    values: BTreeMap<K, V>,
}

impl<K, V> View for LWWMap<K, V> where K: Ord, V: Merge {
    type V = LWWMapView<K, V>;

    closed spec fn view(&self) -> LWWMapView<K, V> {
        LWWMapView { keys: self.keys@, values: value_views(self.values@) }
    }
}

impl<K, V> LWWMap<K, V> where K: Ord, V: Merge {
    /// The values as they are stored, by key.
    pub closed spec fn stored(&self) -> Map<K, V> {
        self.values@
    }

    /// The abstract state holds the abstract states of the stored values,
    /// and a well-formed map holds well-formed values.
    pub proof fn lemma_stored(&self)
        ensures
            self@.values == value_views(self.stored()),
            self.wf() ==> values_wf(self.stored()),
    {
    }

    /// The stored entries in ascending order of their keys.
    pub fn iter(&self) -> (listed: Vec<(&K, &V)>)
        requires
            self.wf(),
        ensures
            listed@.len() == self@.values.dom().len(),
            forall|i: int|
                0 <= i < listed@.len() ==> {
                    &&& self.stored().contains_key(*(#[trigger] listed@[i]).0)
                    &&& self.stored()[*listed@[i].0] == *listed@[i].1
                },
            forall|k: K|
                self@.values.contains_key(k) ==> exists|i: int|
                    0 <= i < listed@.len() && *(#[trigger] listed@[i]).0 == k,
            ascending_keys(listed@),
    {
        assert(self@.values.dom() =~= self.values@.dom());
        entries(&self.values)
    }

    /// Whether `key` is a member.
    pub fn contains(&self, key: &K) -> (member: bool)
        requires
            self.wf(),
        ensures
            member == self@.contains(*key),
    {
        self.keys.contains(key)
    }

    /// The clocks of the keys.
    pub fn keys(&self) -> (keys: &LWWSet<K>)
        requires
            self.wf(),
        ensures
            keys@ == self@.keys,
            keys.wf(),
    {
        &self.keys
    }

    /// A map with the given clocks of its keys, and no values yet.
    pub fn from_keys(keys: LWWSet<K>) -> (map: Self)
        requires
            keys.wf(),
        ensures
            map.wf(),
            map@.keys == keys@,
            map@.values == Map::<K, V::V>::empty(),
    {
        proof {
            keys.lemma_wf();
        }
        let map = LWWMap { keys, values: BTreeMap::new() };
        assert(map@.values =~= Map::<K, V::V>::empty());
        map
    }

    /// Stores `value` under `key`, merging it into a value that is already
    /// there, and leaves the clocks of the key alone.
    pub fn insert_value(&mut self, key: K, value: V)
        requires
            old(self).wf(),
            value.wf(),
        ensures
            final(self).wf(),
            final(self)@.keys == old(self)@.keys,
            final(self)@.values == insert_value::<K, V>(old(self)@.values, key, value@),
    {
        insert_or_merge(&mut self.values, key, value);
    }

    /// Records a remove of `key` at `clock`, and drops the value stored
    /// under the key.
    pub fn remove(&mut self, key: K, clock: HybridLogicalClock)
        requires
            old(self).wf(),
        ensures
            final(self).wf(),
            final(self)@ == old(self)@.remove(key, clock),
    {
        self.values.remove(&key);
        self.keys.remove(key, clock);
        assert(self@ =~= old(self)@.remove(key, clock));
    }

    /// Drops the stored values of the keys that are not members.
    fn prune(&mut self)
        requires
            old(self).wf(),
        ensures
            final(self).wf(),
            final(self)@.keys == old(self)@.keys,
            final(self)@.values == old(self)@.values.restrict(old(self)@.keys.members()),
    {
        let mut rest = BTreeMap::new();
        std::mem::swap(&mut rest, &mut self.values);
        let ghost before = rest@;
        let ghost members = self@.keys.members();
        loop
            invariant
                self.keys.wf(),
                obeys_cmp::<K>(),
                self@.keys == old(self)@.keys,
                members == self@.keys.members(),
                values_wf(before),
                rest@.dom().finite(),
                forall|k: K| #[trigger]
                    rest@.contains_key(k) ==> before.contains_key(k) && rest@[k] == before[k],
                forall|k: K| #[trigger]
                    self.values@.contains_key(k) ==> before.contains_key(k) && self.values@[k]
                        == before[k] && members.contains(k),
                forall|k: K| #[trigger]
                    before.contains_key(k) ==> rest@.contains_key(k) || self.values@.contains_key(k)
                        == members.contains(k),
            ensures
                self.keys.wf(),
                self@.keys == old(self)@.keys,
                self.values@ == before.restrict(members),
            decreases rest@.dom().len(),
        {
            match map_pop_first(&mut rest) {
                Some((key, value)) => {
                    if self.keys.contains(&key) {
                        self.values.insert(key, value);
                    }
                },
                None => {
                    assert(self.values@ =~= before.restrict(members));
                    break ;
                },
            }
        }
        assert(value_views(before.restrict(members)) =~= value_views(before).restrict(members));
    }
}

impl<K, V> Default for LWWMap<K, V> where K: Ord, V: Merge {
    fn default() -> (map: Self)
        ensures
            map@ == LWWMapView::<K, V>::empty(),
            obeys_cmp::<K>() ==> map.wf(),
    {
        let map = LWWMap { keys: LWWSet::default(), values: BTreeMap::new() };
        assert(map@ =~= LWWMapView::<K, V>::empty());
        map
    }
}

impl<K, V> LWWMap<K, V> where K: Ord + Clone, V: Merge {
    /// Records an add of `key` at `clock`, and stores `value` under the key,
    /// merging it into a value that is already there.
    pub fn insert(&mut self, key: K, value: V, clock: HybridLogicalClock)
        requires
            old(self).wf(),
            value.wf(),
            clones_equal::<K>(),
        ensures
            final(self).wf(),
            final(self)@ == old(self)@.insert(key, value@, clock),
    {
        let recorded = key.clone();
        assert(cloned::<K>(key, recorded));
        self.keys.insert(recorded, clock);
        self.insert_value(key, value);
    }
}

impl<K, V> Merge for LWWMap<K, V> where K: Ord, V: Merge {
    closed spec fn wf(&self) -> bool {
        obeys_cmp::<K>() && self.keys.wf() && values_wf(self.values@)
    }

    open spec fn join(a: LWWMapView<K, V>, b: LWWMapView<K, V>) -> LWWMapView<K, V> {
        a.join(b)
    }

    fn merge_mut(&mut self, other: Self) {
        let ghost ours = self@;
        let ghost theirs = other@;
        self.keys.merge_mut(other.keys);
        self.prune();
        let ghost members = self@.keys.members();
        let mut rest = other.values;
        loop
            invariant
                self.wf(),
                self@.keys == ours.keys.join(theirs.keys),
                members == self@.keys.members(),
                values_wf(rest@),
                rest@.dom().finite(),
                join_values::<K, V>(self@.values, value_views(rest@).restrict(members))
                    == join_values::<K, V>(
                    ours.values.restrict(members),
                    theirs.values.restrict(members),
                ),
            ensures
                self.wf(),
                self@.keys == ours.keys.join(theirs.keys),
                self@.values == join_values::<K, V>(
                    ours.values.restrict(members),
                    theirs.values.restrict(members),
                ),
            decreases rest@.dom().len(),
        {
            match map_pop_first(&mut rest) {
                Some((key, value)) => {
                    if self.keys.contains(&key) {
                        self.insert_value(key, value);
                    }
                },
                None => {
                    assert(join_values::<K, V>(
                        self@.values,
                        value_views(rest@).restrict(members),
                    ) =~= self@.values);
                    break ;
                },
            }
        }
    }
}

impl<K, V> LWWMap<K, V> where K: Ord, V: MergeLaws {
    /// Merging a map into itself changes nothing, where the map stores
    /// values for members only.
    pub proof fn lemma_join_idempotent(a: Self)
        requires
            a.wf(),
            a@.pruned(),
        ensures
            a@.join(a@) == a@,
    {
        LWWSet::<K>::join_idempotent(a.keys);
        assert forall|k: K| #[trigger] a@.values.contains_key(k) implies V::join(
            a@.values[k],
            a@.values[k],
        ) == a@.values[k] by {
            V::join_idempotent(a.values@[k]);
        }
        assert(a@.join(a@) =~= a@);
    }

    /// Merging `b` into `a` gives what merging `a` into `b` gives, where
    /// the values under shared keys are compatible.
    pub proof fn lemma_join_commutative(a: Self, b: Self)
        requires
            a.wf(),
            b.wf(),
            compatible_values::<K, V>(a@.values, b@.values),
        ensures
            a@.join(b@) == b@.join(a@),
    {
        LWWSet::<K>::join_commutative(a.keys, b.keys);
        assert forall|k: K|
            a@.values.contains_key(k) && b@.values.contains_key(k) implies V::join(
            a@.values[k],
            b@.values[k],
        ) == V::join(b@.values[k], a@.values[k]) by {
            V::join_commutative(a.values@[k], b.values@[k]);
        }
        assert(a@.join(b@) =~= b@.join(a@));
    }

    /// Merging three maps gives the same map however they are grouped,
    /// where neither grouping drops a value on the way that the other keeps.
    pub proof fn lemma_join_associative(a: Self, b: Self, c: Self)
        requires
            a.wf(),
            b.wf(),
            c.wf(),
            a@.lossless(b@, c@),
        ensures
            a@.join(b@).join(c@) == a@.join(b@.join(c@)),
    {
        LWWSet::<K>::join_associative(a.keys, b.keys, c.keys);
        let all = a@.keys.join(b@.keys).join(c@.keys);
        assert forall|k: K|
            a@.values.contains_key(k) && b@.values.contains_key(k) && c@.values.contains_key(
                k,
            ) implies V::join(V::join(a@.values[k], b@.values[k]), c@.values[k]) == V::join(
            a@.values[k],
            V::join(b@.values[k], c@.values[k]),
        ) by {
            V::join_associative(a.values@[k], b.values@[k], c.values@[k]);
        }
        let left = a@.join(b@).join(c@);
        let right = a@.join(b@.join(c@));
        assert forall|k: K| left.values.contains_key(k) == right.values.contains_key(k) by {
            if all.contains(k) {
            }
        }
        assert forall|k: K| #[trigger] left.values.contains_key(k) implies left.values[k]
            == right.values[k] by {
            assert(all.contains(k));
        }
        assert(left.values =~= right.values);
        assert(left =~= right);
    }
}

impl<K, V> LWWMap<K, V> where K: Ord, V: Merge {
    /// After a merge no value is stored for a key that is not a member.
    pub proof fn lemma_join_pruned(a: LWWMapView<K, V>, b: LWWMapView<K, V>)
        ensures
            a.join(b).pruned(),
    {
    }

    /// A remove drops the value whatever its clock; a remove that is later
    /// than the key's adds also ends its membership.
    pub proof fn lemma_remove_drops_value(
        map: LWWMapView<K, V>,
        key: K,
        clock: HybridLogicalClock,
    )
        ensures
            !map.remove(key, clock).values.contains_key(key),
            map.keys.adds.contains_key(key) && map.keys.adds[key].before(clock) ==> !map.remove(
                key,
                clock,
            ).contains(key),
    {
        if map.keys.adds.contains_key(key) && map.keys.adds[key].before(clock) {
            let added = map.keys.adds[key];
            HybridLogicalClock::lemma_before_total(added, clock);
            if map.keys.removes.contains_key(key) && !map.keys.removes[key].before(clock) {
                let removed = map.keys.removes[key];
                HybridLogicalClock::lemma_before_total(removed, clock);
                HybridLogicalClock::lemma_before_total(added, removed);
                if clock.before(removed) {
                    HybridLogicalClock::lemma_before_transitive(added, clock, removed);
                }
            }
        }
    }
}

} // verus!
