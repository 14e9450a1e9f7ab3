//! The simplest mergeable value: a value of a totally ordered type, where
//! merging keeps the greater one.

use crate::merge::Merge;
use crate::merge::MergeLaws;
use std::cmp::Ordering;
use vstd::laws_cmp::obeys_cmp;
use vstd::laws_cmp::obeys_cmp_ord;
use vstd::laws_cmp::obeys_cmp_partial_ord;
use vstd::laws_cmp::obeys_partial_cmp_spec_properties;
use vstd::laws_eq::obeys_concrete_eq;
use vstd::prelude::*;
use vstd::std_specs::cmp::PartialOrdSpec;
use vstd::std_specs::convert::FromSpec;
use vstd::std_specs::convert::FromSpecImpl;

verus! {

/// Whether the order of `T` is a total order on its values: any two values
/// compare, and only equal values compare equal.
pub open spec fn total_order<T: Ord>() -> bool {
    obeys_cmp::<T>() && obeys_concrete_eq::<T>()
}

/// Whether `a` is strictly greater than `b`.
pub open spec fn exceeds<T: Ord>(a: T, b: T) -> bool {
    a.partial_cmp_spec(&b) == Some(Ordering::Greater)
}

/// The greater of `a` and `b`; `a` where neither is greater.
pub open spec fn greater<T: Ord>(a: T, b: T) -> T {
    if exceeds(b, a) {
        b
    } else {
        a
    }
}

/// What a total order gives: exactly one of `a > b`, `b > a` and `a == b`
/// holds, and `>` is transitive.
pub proof fn lemma_total_order<T: Ord>()
    requires
        total_order::<T>(),
    ensures
        T::obeys_partial_cmp_spec(),
        forall|a: T, b: T| #[trigger] exceeds(a, b) ==> !exceeds(b, a) && a != b,
        forall|a: T, b: T| #[trigger] exceeds(a, b) || exceeds(b, a) || a == b,
        forall|a: T, b: T, c: T| #[trigger] exceeds(a, b) && #[trigger] exceeds(b, c) ==> exceeds(a, c),
{
    reveal(obeys_cmp_partial_ord);
    reveal(obeys_cmp_ord);
    reveal(obeys_partial_cmp_spec_properties);
    reveal(obeys_concrete_eq);
}

/// A value of a totally ordered type that merges by taking the maximum.
#[derive(Debug, Clone, PartialEq, Eq, PartialOrd, Ord)]
pub struct Max<T: Ord>(T);

impl<T: Ord> View for Max<T> {
    type V = T;

    closed spec fn view(&self) -> T {
        self.0
    }
}

impl<T: Ord> Merge for Max<T> {
    closed spec fn wf(&self) -> bool {
        total_order::<T>()
    }

    open spec fn join(a: T, b: T) -> T {
        greater(a, b)
    }

    fn merge_mut(&mut self, other: Self) {
        proof {
            lemma_total_order::<T>();
        }
        if other.0 > self.0 {
            self.0 = other.0;
        }
    }
}

impl<T: Ord> From<T> for Max<T> {
    fn from(t: T) -> (max: Self) {
        Max(t)
    }
}

impl<T: Ord> FromSpecImpl<T> for Max<T> {
    open spec fn obeys_from_spec() -> bool {
        true
    }

    closed spec fn from_spec(t: T) -> Self {
        Max(t)
    }
}

impl<T: Ord> Max<T> {
    /// What `Max::from` wraps is what the wrapper stands for, and it is well
    /// formed where `T` is totally ordered.
    pub broadcast proof fn lemma_from(t: T)
        ensures
            (#[trigger] <Max<T> as FromSpec<T>>::from_spec(t))@ == t,
            total_order::<T>() ==> <Max<T> as FromSpec<T>>::from_spec(t).wf(),
    {
    }

    /// The wrapped value.
    pub fn value(&self) -> (v: &T)
        ensures
            *v == self@,
    {
        &self.0
    }
}

impl<T: Ord> MergeLaws for Max<T> {
    proof fn join_idempotent(a: Self) {
    }

    proof fn join_commutative(a: Self, b: Self) {
        lemma_total_order::<T>();
    }

    proof fn join_associative(a: Self, b: Self, c: Self) {
        lemma_total_order::<T>();
    }
}

} // verus!
