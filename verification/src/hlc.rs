//! Hybrid logical clocks: timestamps that stay strictly increasing on one
//! replica even when its wall clock stalls or runs backward, and that are
//! totally ordered across replicas.

use std::cmp::Ordering;
use vstd::prelude::*;
use vstd::std_specs::cmp::PartialOrdSpecImpl;

verus! {

/// An instant of wall-clock time: whole seconds since the Unix epoch, and
/// the nanoseconds past that second. Instants are ordered by seconds, then
/// nanoseconds.
#[derive(Debug, Copy, Clone, PartialEq, Eq, Structural, PartialOrd, Ord)]
pub struct Timestamp {
    pub secs: i64,
    pub nanos: u32,
}

impl Timestamp {
    /// Whether `self` is strictly earlier than `other`.
    pub open spec fn before(self, other: Timestamp) -> bool {
        self.secs < other.secs || (self.secs == other.secs && self.nanos < other.nanos)
    }

    /// The instant `nanos` nanoseconds past the second `secs`.
    pub fn new(secs: i64, nanos: u32) -> (t: Timestamp)
        ensures
            t.secs == secs,
            t.nanos == nanos,
    {
        Timestamp { secs, nanos }
    }

    /// Whether `self` is strictly earlier than `other`.
    pub fn precedes(&self, other: &Timestamp) -> (earlier: bool)
        ensures
            earlier == self.before(*other),
    {
        self.secs < other.secs || (self.secs == other.secs && self.nanos < other.nanos)
    }
}

/// Reads the system's wall clock through `chrono::Utc::now`, and splits the
/// instant into the seconds and nanoseconds that `DateTime::timestamp` and
/// `DateTime::timestamp_subsec_nanos` report. Nothing is claimed of the
/// value: two reads may come back in any order. `Utc::now` itself panics
/// where the system clock stands before the Unix epoch.
#[verifier::external_body]
pub(crate) fn wall_clock_now() -> Timestamp {
    let now = chrono::Utc::now();
    Timestamp { secs: now.timestamp(), nanos: now.timestamp_subsec_nanos() }
}

/// A hybrid logical clock value: a wall-clock reading, a counter that breaks
/// ties between values with the same reading, and the id of the replica that
/// made it. Values are ordered by reading, then counter, then replica id.
#[derive(Debug, Copy, Clone, PartialEq, Eq, Structural, Ord)]
pub struct HybridLogicalClock {
    timestamp: Timestamp,
    counter: u16,
    node_id: u128,
}

impl HybridLogicalClock {
    /// The wall-clock reading.
    pub closed spec fn spec_timestamp(&self) -> Timestamp {
        self.timestamp
    }

    /// The counter.
    pub closed spec fn spec_counter(&self) -> u16 {
        self.counter
    }

    /// The id of the replica.
    pub closed spec fn spec_node_id(&self) -> u128 {
        self.node_id
    }

    /// A clock value is nothing more than its three components.
    pub proof fn lemma_components_determine(a: HybridLogicalClock, b: HybridLogicalClock)
        requires
            a.timestamp() == b.timestamp(),
            a.counter() == b.counter(),
            a.node_id() == b.node_id(),
        ensures
            a == b,
    {
    }

    /// Whether `self` is strictly less than `other`: by wall-clock reading
    /// first, by counter among equal readings, by replica id among equal
    /// readings and counters.
    pub open spec fn before(self, other: HybridLogicalClock) -> bool {
        ||| self.timestamp().before(other.timestamp())
        ||| (self.timestamp() == other.timestamp() && self.counter() < other.counter())
        ||| (self.timestamp() == other.timestamp() && self.counter() == other.counter()
            && self.node_id() < other.node_id())
    }

    /// The greater of two clock values.
    pub open spec fn later(self, other: HybridLogicalClock) -> HybridLogicalClock {
        if self.before(other) {
            other
        } else {
            self
        }
    }

    /// The value that a tick turns `self` into when the wall clock reads `now`.
    pub open spec fn ticked_at(self, now: Timestamp) -> HybridLogicalClock
        recommends
            self.timestamp().before(now) || self.counter() < u16::MAX,
    {
        if self.timestamp().before(now) {
            HybridLogicalClock::spec_from_parts(now, 0, self.node_id())
        } else {
            HybridLogicalClock::spec_from_parts(
                self.timestamp(),
                (self.counter() + 1) as u16,
                self.node_id(),
            )
        }
    }

    /// The clock value with the given components.
    pub closed spec fn spec_from_parts(
        timestamp: Timestamp,
        counter: u16,
        node_id: u128,
    ) -> HybridLogicalClock {
        HybridLogicalClock { timestamp, counter, node_id }
    }

    /// What `spec_from_parts` holds in each component.
    pub broadcast proof fn lemma_from_parts(timestamp: Timestamp, counter: u16, node_id: u128)
        ensures
            (#[trigger] HybridLogicalClock::spec_from_parts(
                timestamp,
                counter,
                node_id,
            )).timestamp() == timestamp,
            HybridLogicalClock::spec_from_parts(timestamp, counter, node_id).counter() == counter,
            HybridLogicalClock::spec_from_parts(timestamp, counter, node_id).node_id() == node_id,
    {
    }

    /// Assembles a clock value from its components.
    #[verifier::when_used_as_spec(spec_from_parts)]
    pub fn from_parts(timestamp: Timestamp, counter: u16, node_id: u128) -> (clock:
        HybridLogicalClock)
        ensures
            clock == HybridLogicalClock::spec_from_parts(timestamp, counter, node_id),
            clock.timestamp() == timestamp,
            clock.counter() == counter,
            clock.node_id() == node_id,
    {
        HybridLogicalClock { timestamp, counter, node_id }
    }

    /// A clock for the replica `node_id`, started at the current wall-clock
    /// reading with a counter of zero.
    pub fn new(node_id: u128) -> (clock: HybridLogicalClock)
        ensures
            clock.counter() == 0,
            clock.node_id() == node_id,
    {
        HybridLogicalClock::from_parts(wall_clock_now(), 0, node_id)
    }

    /// The wall-clock reading.
    #[verifier::when_used_as_spec(spec_timestamp)]
    pub fn timestamp(&self) -> (t: Timestamp)
        ensures
            t == self.timestamp(),
    {
        self.timestamp
    }

    /// The counter.
    #[verifier::when_used_as_spec(spec_counter)]
    pub fn counter(&self) -> (c: u16)
        ensures
            c == self.counter(),
    {
        self.counter
    }

    /// The id of the replica.
    #[verifier::when_used_as_spec(spec_node_id)]
    pub fn node_id(&self) -> (id: u128)
        ensures
            id == self.node_id(),
    {
        self.node_id
    }

    /// Whether `self` is strictly less than `other`.
    pub fn precedes(&self, other: &HybridLogicalClock) -> (earlier: bool)
        ensures
            earlier == self.before(*other),
    {
        if self.timestamp.precedes(&other.timestamp) {
            true
        } else if other.timestamp.precedes(&self.timestamp) {
            false
        } else if self.counter != other.counter {
            self.counter < other.counter
        } else {
            self.node_id < other.node_id
        }
    }

    /// Advances the clock given the wall-clock reading `now`: a reading
    /// strictly later than the stored one replaces it and resets the counter;
    /// any other reading leaves it and bumps the counter. The counter must
    /// have room for the bump.
    pub fn tick_at(&mut self, now: Timestamp)
        requires
            old(self).timestamp().before(now) || old(self).counter() < u16::MAX,
        ensures
            *final(self) == old(self).ticked_at(now),
            old(self).before(*final(self)),
    {
        if self.timestamp.precedes(&now) {
            self.timestamp = now;
            self.counter = 0;
        } else {
            self.counter = self.counter + 1;
        }
    }

    /// Advances the clock by the current wall-clock reading. Whatever the
    /// wall clock says, the new value is strictly greater than the old one
    /// and belongs to the same replica.
    pub fn tick(&mut self)
        requires
            old(self).counter() < u16::MAX,
        ensures
            old(self).before(*final(self)),
            final(self).node_id() == old(self).node_id(),
            exists|now: Timestamp| *final(self) == old(self).ticked_at(now),
    {
        let now = wall_clock_now();
        self.tick_at(now);
    }

    /// The order is irreflexive.
    pub proof fn lemma_before_irreflexive(a: HybridLogicalClock)
        ensures
            !a.before(a),
    {
    }

    /// The order is transitive.
    pub proof fn lemma_before_transitive(
        a: HybridLogicalClock,
        b: HybridLogicalClock,
        c: HybridLogicalClock,
    )
        requires
            a.before(b),
            b.before(c),
        ensures
            a.before(c),
    {
    }

    /// The order is total: of two distinct values one is before the other,
    /// and never both.
    pub proof fn lemma_before_total(a: HybridLogicalClock, b: HybridLogicalClock)
        ensures
            a == b || a.before(b) || b.before(a),
            !(a.before(b) && b.before(a)),
    {
    }

    /// An earlier wall-clock reading decides the comparison, whatever the
    /// counters and replica ids are.
    pub proof fn lemma_timestamp_decides(a: HybridLogicalClock, b: HybridLogicalClock)
        requires
            a.timestamp().before(b.timestamp()),
        ensures
            a.before(b),
            !b.before(a),
    {
    }

    /// Among equal readings a smaller counter decides, whatever the replica
    /// ids are.
    pub proof fn lemma_counter_decides(a: HybridLogicalClock, b: HybridLogicalClock)
        requires
            a.timestamp() == b.timestamp(),
            a.counter() < b.counter(),
        ensures
            a.before(b),
            !b.before(a),
    {
    }

    /// Among equal readings and counters the replica id decides.
    pub proof fn lemma_node_id_decides(a: HybridLogicalClock, b: HybridLogicalClock)
        requires
            a.timestamp() == b.timestamp(),
            a.counter() == b.counter(),
            a.node_id() < b.node_id(),
        ensures
            a.before(b),
            !b.before(a),
    {
    }

    /// Of any two ticks on one clock, the later one yields the greater value,
    /// whatever the wall clock read at either.
    pub proof fn lemma_ticks_increase(clock: HybridLogicalClock, first: Timestamp, second: Timestamp)
        requires
            clock.timestamp().before(first) || clock.counter() < u16::MAX,
            clock.ticked_at(first).timestamp().before(second) || clock.ticked_at(first).counter()
                < u16::MAX,
        ensures
            clock.before(clock.ticked_at(first)),
            clock.ticked_at(first).before(clock.ticked_at(first).ticked_at(second)),
            clock.before(clock.ticked_at(first).ticked_at(second)),
    {
    }
}

impl PartialOrd for HybridLogicalClock {
    fn partial_cmp(&self, other: &HybridLogicalClock) -> (r: Option<Ordering>) {
        if self.precedes(other) {
            Some(Ordering::Less)
        } else if other.precedes(self) {
            Some(Ordering::Greater)
        } else {
            Some(Ordering::Equal)
        }
    }
}

impl PartialOrdSpecImpl for HybridLogicalClock {
    open spec fn obeys_partial_cmp_spec() -> bool {
        true
    }

    open spec fn partial_cmp_spec(&self, other: &HybridLogicalClock) -> Option<Ordering> {
        if self.before(*other) {
            Some(Ordering::Less)
        } else if other.before(*self) {
            Some(Ordering::Greater)
        } else {
            Some(Ordering::Equal)
        }
    }
}

} // verus!
