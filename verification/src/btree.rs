//! Contracts for the methods of the standard library's ordered map and set
//! that the containers use and that come without one. Each is believed, not
//! proved: it restates what the method's documentation says, over the map or
//! set that the collection stands for.

use std::cmp::Ordering;
use std::collections::BTreeMap;
use std::collections::BTreeSet;
use vstd::laws_cmp::obeys_cmp;
use vstd::prelude::*;
use vstd::std_specs::cmp::OrdSpec;

verus! {

/// `BTreeMap::get_mut`: a mutable reference to the value stored under `key`,
/// or `None` where the map has no such key. Nothing but that one value can
/// change through the reference.
#[verifier::external_body]
pub(crate) fn map_get_mut<'a, K: Ord, V>(map: &'a mut BTreeMap<K, V>, key: &K) -> (slot: Option<
    &'a mut V,
>)
    ensures
        obeys_cmp::<K>() ==> match slot {
            Some(value) => {
                &&& old(map)@.contains_key(*key)
                &&& *value == old(map)@[*key]
                &&& final(map)@ == old(map)@.insert(*key, *final(value))
            },
            None => !old(map)@.contains_key(*key) && final(map)@ == old(map)@,
        },
{
    map.get_mut(key)
}

/// `BTreeMap::pop_first`: removes the entry with the least key and returns
/// it, or returns `None` and leaves the map alone where it is empty.
#[verifier::external_body]
pub(crate) fn map_pop_first<K: Ord, V>(map: &mut BTreeMap<K, V>) -> (first: Option<(K, V)>)
    ensures
        obeys_cmp::<K>() ==> match first {
            Some((key, value)) => {
                &&& old(map)@.contains_key(key)
                &&& old(map)@[key] == value
                &&& final(map)@ == old(map)@.remove(key)
                &&& forall|other: K| #[trigger]
                    old(map)@.contains_key(other) ==> other.cmp_spec(&key) != Ordering::Less
            },
            None => old(map)@.dom() == Set::<K>::empty() && final(map)@ == old(map)@,
        },
{
    map.pop_first()
}

/// `BTreeSet::append`: moves every element of `source` into `target` and
/// leaves `source` empty.
#[verifier::external_body]
pub(crate) fn set_append<K: Ord>(target: &mut BTreeSet<K>, source: &mut BTreeSet<K>)
    ensures
        obeys_cmp::<K>() ==> {
            &&& final(target)@ == old(target)@.union(old(source)@)
            &&& final(source)@ == Set::<K>::empty()
        },
{
    target.append(source)
}

} // verus!
