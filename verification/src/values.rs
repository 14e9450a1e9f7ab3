//! Maps of mergeable values, as the map-shaped containers store them: how
//! such maps join, and how a value enters one.

use crate::btree::map_get_mut;
use crate::merge::Merge;
use crate::merge::MergeLaws;
use std::cmp::Ordering;
use std::collections::BTreeMap;
use std::collections::BTreeSet;
use vstd::laws_cmp::obeys_cmp;
use vstd::prelude::*;
use vstd::std_specs::btree::increasing_seq;
use vstd::std_specs::cmp::OrdSpec;
use vstd::std_specs::iter::IteratorSpec;

verus! {

/// The pointwise join of two maps: a key of either map is a key of the
/// join; where both maps hold it, its values are joined.
pub open spec fn join_values<K, V: Merge>(a: Map<K, V::V>, b: Map<K, V::V>) -> Map<K, V::V> {
    Map::new(
        |k: K| a.contains_key(k) || b.contains_key(k),
        |k: K|
            if a.contains_key(k) && b.contains_key(k) {
                V::join(a[k], b[k])
            } else if a.contains_key(k) {
                a[k]
            } else {
                b[k]
            },
    )
}

/// What a map holds after `value` is inserted under `key`: the value itself
/// under a new key, its join with the stored value under a known one.
pub open spec fn insert_value<K, V: Merge>(map: Map<K, V::V>, key: K, value: V::V) -> Map<
    K,
    V::V,
> {
    if map.contains_key(key) {
        map.insert(key, V::join(map[key], value))
    } else {
        map.insert(key, value)
    }
}

/// Whether the values that two maps hold under a shared key are compatible.
pub open spec fn compatible_values<K, V: MergeLaws>(a: Map<K, V::V>, b: Map<K, V::V>) -> bool {
    forall|k: K| a.contains_key(k) && b.contains_key(k) ==> V::compatible(a[k], b[k])
}

/// The abstract states of the values of a stored map.
pub open spec fn value_views<K, V: View>(stored: Map<K, V>) -> Map<K, V::V> {
    stored.map_values(|v: V| v@)
}

/// Whether every value of a stored map is well formed.
pub open spec fn values_wf<K, V: Merge>(stored: Map<K, V>) -> bool {
    forall|k: K| #[trigger] stored.contains_key(k) ==> stored[k].wf()
}

/// Whether a listing is in strictly ascending order.
pub open spec fn ascending<K: Ord>(listed: Seq<&K>) -> bool {
    forall|i: int, j: int|
        0 <= i < j < listed.len() ==> (#[trigger] listed[i]).cmp_spec(#[trigger] listed[j])
            == Ordering::Less
}

/// Whether a listing of entries is in strictly ascending order of its keys.
pub open spec fn ascending_keys<K: Ord, V>(listed: Seq<(&K, &V)>) -> bool {
    forall|i: int, j: int|
        0 <= i < j < listed.len() ==> (#[trigger] listed[i]).0.cmp_spec((#[trigger] listed[j]).0)
            == Ordering::Less
}

/// Replacing or adding one stored value replaces or adds its abstract state,
/// and keeps the values well formed where the new one is.
pub proof fn lemma_store<K, V: Merge>(stored: Map<K, V>, key: K, value: V)
    ensures
        value_views(stored.insert(key, value)) == value_views(stored).insert(key, value@),
        values_wf(stored) && value.wf() ==> values_wf(stored.insert(key, value)),
{
    assert(value_views(stored.insert(key, value)) =~= value_views(stored).insert(key, value@));
}

/// A listing whose elements make up a set names members only, and names
/// every member.
pub proof fn lemma_listed_members<K>(listed: Seq<&K>, members: Set<K>)
    requires
        listed.unref().to_set() == members,
    ensures
        forall|i: int| 0 <= i < listed.len() ==> members.contains(*#[trigger] listed[i]),
        forall|k: K| #[trigger]
            members.contains(k) ==> exists|i: int| 0 <= i < listed.len() && *#[trigger] listed[i] == k,
{
    let plain = listed.unref();
    assert forall|i: int| 0 <= i < listed.len() implies members.contains(*#[trigger] listed[i]) by {
        assert(plain[i] == *listed[i]);
        assert(plain.contains(*listed[i]));
    }
    assert forall|k: K| #[trigger] members.contains(k) implies exists|i: int|
        0 <= i < listed.len() && *#[trigger] listed[i] == k by {
        assert(plain.contains(k));
        let i = choose|i: int| 0 <= i < plain.len() && plain[i] == k;
        assert(*listed[i] == k);
    }
}

/// Lists the elements of a set in ascending order.
pub(crate) fn members<K: Ord>(set: &BTreeSet<K>) -> (listed: Vec<&K>)
    requires
        obeys_cmp::<K>(),
    ensures
        listed@.len() == set@.len(),
        forall|i: int| 0 <= i < listed@.len() ==> set@.contains(*#[trigger] listed@[i]),
        forall|k: K| #[trigger]
            set@.contains(k) ==> exists|i: int| 0 <= i < listed@.len() && *#[trigger] listed@[i] == k,
        ascending(listed@),
{
    let mut listed: Vec<&K> = Vec::new();
    proof {
        lemma_listed_members(set.iter().remaining(), set@);
    }
    for item in it: set.iter()
        invariant
            obeys_cmp::<K>(),
            listed@.len() == it.index(),
            forall|i: int|
                #![trigger listed@[i]]
                #![trigger it.seq()[i]]
                0 <= i < listed@.len() ==> listed@[i] == it.seq()[i],
            forall|i: int| 0 <= i < it.seq().len() ==> set@.contains(*#[trigger] it.seq()[i]),
            it.seq().len() == set@.len(),
            forall|k: K| #[trigger]
                set@.contains(k) ==> exists|i: int|
                    0 <= i < it.seq().len() && *#[trigger] it.seq()[i] == k,
            increasing_seq(it.seq()),
            ascending(listed@),
    {
        proof {
            let n = it.index();
            broadcast use vstd::laws_cmp::lemma_ref_obeys_cmp_spec;
            assert(obeys_cmp::<&K>());
            vstd::std_specs::btree::axiom_increasing_seq_meaning::<&K>(it.seq());
            assert forall|i: int| 0 <= i < n implies (#[trigger] listed@[i]).cmp_spec(&item)
                == Ordering::Less by {
                assert(OrdSpec::cmp_spec(&it.seq()[i], &it.seq()[n]) == Ordering::Less);
            }
        }
        listed.push(item);
    }
    listed
}

/// Inserts `value` under `key` where the map has no such key, and merges it
/// into the stored value where it has.
pub(crate) fn insert_or_merge<K: Ord, V: Merge>(map: &mut BTreeMap<K, V>, key: K, value: V)
    requires
        obeys_cmp::<K>(),
        values_wf(old(map)@),
        value.wf(),
    ensures
        values_wf(final(map)@),
        value_views(final(map)@) == insert_value::<K, V>(value_views(old(map)@), key, value@),
        final(map)@.dom() == old(map)@.dom().insert(key),
{
    match map_get_mut(map, &key) {
        Some(existing) => {
            existing.merge_mut(value);
        },
        None => {
            map.insert(key, value);
        },
    }
}

/// Lists the entries of a map in ascending order of their keys.
pub(crate) fn entries<K: Ord, V>(map: &BTreeMap<K, V>) -> (listed: Vec<(&K, &V)>)
    requires
        obeys_cmp::<K>(),
    ensures
        listed@.len() == map@.dom().len(),
        forall|i: int|
            0 <= i < listed@.len() ==> map@.contains_key(*(#[trigger] listed@[i]).0) && map@[*listed@[i].0]
                == *listed@[i].1,
        forall|k: K|
            map@.contains_key(k) ==> exists|i: int|
                0 <= i < listed@.len() && *(#[trigger] listed@[i]).0 == k,
        ascending_keys(listed@),
{
    let mut listed: Vec<(&K, &V)> = Vec::new();
    for entry in it: map.iter()
        invariant
            obeys_cmp::<K>(),
            listed@.len() == it.index(),
            forall|i: int|
                #![trigger listed@[i]]
                #![trigger it.seq()[i]]
                0 <= i < listed@.len() ==> listed@[i] == it.seq()[i],
            forall|i: int|
                0 <= i < it.seq().len() ==> map@.contains_key(*(#[trigger] it.seq()[i]).0)
                    && map@[*it.seq()[i].0] == *it.seq()[i].1,
            forall|k: K| #[trigger] map@.contains_key(k) ==> it.seq().contains((&k, &map@[k])),
            it.seq().len() == map@.dom().len(),
            increasing_seq(it.seq().map_values(|kv: (&K, &V)| *kv.0)),
            ascending_keys(listed@),
    {
        proof {
            let keys = it.seq().map_values(|kv: (&K, &V)| *kv.0);
            let n = it.index();
            assert forall|i: int| 0 <= i < n implies (#[trigger] listed@[i]).0.cmp_spec(entry.0)
                == Ordering::Less by {
                assert(keys[i].cmp_spec(&keys[n]) == Ordering::Less);
            }
        }
        listed.push(entry);
    }
    listed
}

} // verus!
