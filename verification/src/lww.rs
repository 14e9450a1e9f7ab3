//! A last-writer-wins register: a value together with the clock of the write
//! that put it there. Merging keeps the write with the greater clock.

use crate::hlc::HybridLogicalClock;
use crate::merge::Merge;
use crate::merge::MergeLaws;
use std::fmt::Debug;
use vstd::prelude::*;

verus! {

/// The abstract state of a register: the value, and the clock of its write.
pub struct RegisterView<T> {
    pub value: T,
    pub clock: HybridLogicalClock,
}

impl<T> RegisterView<T> {
    /// The write that wins a merge: `other` where its clock is strictly
    /// greater, `self` otherwise. On equal clocks `self` stays.
    pub open spec fn join(self, other: Self) -> Self {
        if self.clock.before(other.clock) {
            other
        } else {
            self
        }
    }
}

/// A cell that holds the value of the latest write.
#[derive(Debug, Clone, PartialEq, Eq)]
pub struct LWWRegister<T: Debug> {
    value: T,
    clock: HybridLogicalClock,
}

impl<T: Debug> View for LWWRegister<T> {
    type V = RegisterView<T>;

    closed spec fn view(&self) -> RegisterView<T> {
        RegisterView { value: self.value, clock: self.clock }
    }
}

impl<T: Debug> LWWRegister<T> {
    /// A register that holds `value`, written at `timestamp`.
    pub fn new(value: T, timestamp: HybridLogicalClock) -> (register: Self)
        ensures
            register@.value == value,
            register@.clock == timestamp,
    {
        LWWRegister { value, clock: timestamp }
    }

    /// Overwrites the value and the clock, whatever the clock was before:
    /// this is the owner's own write, and it is on the owner to pass a clock
    /// that is not behind the register's.
    pub fn set(&mut self, value: T, timestamp: HybridLogicalClock)
        ensures
            final(self)@.value == value,
            final(self)@.clock == timestamp,
    {
        self.value = value;
        self.clock = timestamp;
    }

    /// The value of the latest write.
    pub fn value(&self) -> (value: &T)
        ensures
            *value == self@.value,
    {
        &self.value
    }

    /// The clock of the latest write.
    pub fn clock(&self) -> (clock: &HybridLogicalClock)
        ensures
            *clock == self@.clock,
    {
        &self.clock
    }
}

impl<T: Debug> Merge for LWWRegister<T> where T: Clone + Ord {
    open spec fn wf(&self) -> bool {
        true
    }

    open spec fn join(a: RegisterView<T>, b: RegisterView<T>) -> RegisterView<T> {
        a.join(b)
    }

    fn merge_mut(&mut self, other: Self) {
        if self.clock.precedes(&other.clock) {
            self.set(other.value, other.clock)
        }
    }
}

impl<T: Debug> MergeLaws for LWWRegister<T> where T: Clone + Ord {
    /// Two writes are compatible unless they carry the same clock and
    /// different values. Clocks of distinct replicas are never equal, so
    /// writes stamped by the replicas' own clocks are compatible.
    open spec fn compatible(a: RegisterView<T>, b: RegisterView<T>) -> bool {
        a.clock == b.clock ==> a.value == b.value
    }

    proof fn join_idempotent(a: Self) {
    }

    proof fn join_commutative(a: Self, b: Self) {
        HybridLogicalClock::lemma_before_total(a@.clock, b@.clock);
    }

    proof fn join_associative(a: Self, b: Self, c: Self) {
        HybridLogicalClock::lemma_before_total(a@.clock, b@.clock);
        HybridLogicalClock::lemma_before_total(b@.clock, c@.clock);
        HybridLogicalClock::lemma_before_total(a@.clock, c@.clock);
        if a@.clock.before(b@.clock) && b@.clock.before(c@.clock) {
            HybridLogicalClock::lemma_before_transitive(a@.clock, b@.clock, c@.clock);
        }
    }
}

impl<T: Debug> LWWRegister<T> where T: Clone + Ord {
    /// Merging never moves the clock backward: the merged clock is the later
    /// of the two.
    pub proof fn lemma_join_clock(a: Self, b: Self)
        ensures
            Self::join(a@, b@).clock == a@.clock.later(b@.clock),
    {
    }

    /// Two writes with one clock and different values merge to whichever
    /// came first: on such a pair the join depends on the order.
    pub proof fn lemma_tie_keeps_first(a: Self, b: Self)
        requires
            a@.clock == b@.clock,
        ensures
            Self::join(a@, b@) == a@,
            Self::join(b@, a@) == b@,
    {
        HybridLogicalClock::lemma_before_irreflexive(a@.clock);
    }
}

} // verus!
