//! A grow-only set: elements can be added, never taken out.

use crate::btree::set_append;
use crate::merge::Merge;
use crate::merge::MergeLaws;
use crate::values::ascending;
use crate::values::members;
use std::collections::BTreeSet;
use vstd::laws_cmp::obeys_cmp;
use vstd::prelude::*;

verus! {

/// A set that only grows.
#[derive(Debug, Clone, PartialEq, Eq)]
pub struct GSet<T: Eq + Ord>(BTreeSet<T>);

impl<T: Eq + Ord> View for GSet<T> {
    type V = Set<T>;

    closed spec fn view(&self) -> Set<T> {
        self.0@
    }
}

impl<T: Eq + Ord> GSet<T> {
    /// The empty set.
    pub fn new() -> (set: Self)
        ensures
            set@ == Set::<T>::empty(),
            obeys_cmp::<T>() ==> set.wf(),
    {
        GSet(BTreeSet::new())
    }

    /// Adds `item`; an item that is already there stays.
    pub fn insert(&mut self, item: T)
        requires
            old(self).wf(),
        ensures
            final(self).wf(),
            final(self)@ == old(self)@.insert(item),
    {
        self.0.insert(item);
    }

    /// Whether `item` was ever added.
    pub fn contains(&self, item: &T) -> (found: bool)
        requires
            self.wf(),
        ensures
            found == self@.contains(*item),
    {
        self.0.contains(item)
    }

    /// The elements in ascending order.
    pub fn iter(&self) -> (listed: Vec<&T>)
        requires
            self.wf(),
        ensures
            listed@.len() == self@.len(),
            forall|i: int| 0 <= i < listed@.len() ==> self@.contains(*#[trigger] listed@[i]),
            forall|item: T| #[trigger]
                self@.contains(item) ==> exists|i: int|
                    0 <= i < listed@.len() && *#[trigger] listed@[i] == item,
            ascending(listed@),
    {
        members(&self.0)
    }
}

impl<T: Eq + Ord> Default for GSet<T> {
    fn default() -> (set: Self)
        ensures
            set@ == Set::<T>::empty(),
            obeys_cmp::<T>() ==> set.wf(),
    {
        GSet::new()
    }
}

impl<T: Eq + Ord> Merge for GSet<T> {
    closed spec fn wf(&self) -> bool {
        obeys_cmp::<T>()
    }

    open spec fn join(a: Set<T>, b: Set<T>) -> Set<T> {
        a.union(b)
    }

    fn merge_mut(&mut self, other: Self) {
        let mut other = other;
        set_append(&mut self.0, &mut other.0);
    }
}

impl<T: Eq + Ord> MergeLaws for GSet<T> {
    proof fn join_idempotent(a: Self) {
        assert(a@.union(a@) =~= a@);
    }

    proof fn join_commutative(a: Self, b: Self) {
        assert(a@.union(b@) =~= b@.union(a@));
    }

    proof fn join_associative(a: Self, b: Self, c: Self) {
        assert(a@.union(b@).union(c@) =~= a@.union(b@.union(c@)));
    }
}

impl<T: Eq + Ord> GSet<T> {
    /// Membership is monotone: what either side of a merge holds, the merged
    /// set holds, and it holds nothing else.
    pub proof fn lemma_join_members(a: Self, b: Self, item: T)
        ensures
            Self::join(a@, b@).contains(item) <==> a@.contains(item) || b@.contains(item),
    {
    }
}

} // verus!
