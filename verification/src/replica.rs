//! A replica: a task list, the clock that stamps the replica's own writes,
//! and the id that tells the replica from the others.

use crate::document::completed;
use crate::document::described;
use crate::document::by_addition;
use crate::document::fresh_id;
use crate::document::Document;
use crate::hlc::HybridLogicalClock;
use crate::hlc::Timestamp;
use crate::task::Task;
use crate::task::TaskView;
use crate::twopmap::TwoPMapView;
use vstd::prelude::*;

verus! {

/// One copy of the task list, with the means to change it.
#[derive(Debug, Clone, PartialEq, Eq)]
pub struct Replica {
    id: u128,
    clock: HybridLogicalClock,
    document: Document,
}

impl Replica {
    /// The id of the replica.
    pub closed spec fn spec_id(&self) -> u128 {
        self.id
    }

    /// The clock, as the last write left it.
    pub closed spec fn spec_clock(&self) -> HybridLogicalClock {
        self.clock
    }

    /// The task list.
    pub closed spec fn spec_document(&self) -> &Document {
        &self.document
    }

    /// Whether the task list is well formed.
    pub open spec fn wf(&self) -> bool {
        self.document().wf()
    }

    /// Whether the clock has room for another tick whatever the wall clock
    /// reads.
    pub open spec fn spec_can_tick(&self) -> bool {
        self.clock().counter() < u16::MAX
    }

    /// A replica with a fresh random id, a clock of its own and an empty
    /// task list.
    pub fn new() -> (replica: Replica)
        ensures
            replica.wf(),
            replica.clock().node_id() == replica.id(),
            replica.clock().counter() == 0,
            replica.document()@ == TwoPMapView::<u128, Task>::empty(),
    {
        let id = fresh_id();
        Replica { id, clock: HybridLogicalClock::new(id), document: Document::default() }
    }

    /// The replica that has the given id, clock and task list.
    pub fn from_parts(id: u128, clock: HybridLogicalClock, document: Document) -> (replica:
        Replica)
        ensures
            replica.id() == id,
            replica.clock() == clock,
            *replica.document() == document,
    {
        Replica { id, clock, document }
    }

    /// The id of the replica.
    #[verifier::when_used_as_spec(spec_id)]
    pub fn id(&self) -> (id: u128)
        ensures
            id == self.id(),
    {
        self.id
    }

    /// The clock, as the last write left it.
    #[verifier::when_used_as_spec(spec_clock)]
    pub fn clock(&self) -> (clock: HybridLogicalClock)
        ensures
            clock == self.clock(),
    {
        self.clock
    }

    /// The task list.
    #[verifier::when_used_as_spec(spec_document)]
    pub fn document(&self) -> (document: &Document)
        ensures
            document == self.document(),
    {
        &self.document
    }

    /// Whether the clock has room for another tick whatever the wall clock
    /// reads.
    #[verifier::when_used_as_spec(spec_can_tick)]
    pub fn can_tick(&self) -> (room: bool)
        ensures
            room == self.can_tick(),
    {
        self.clock.counter() < u16::MAX
    }

    /// The live tasks, earliest added first; tasks added at the same instant
    /// in ascending order of their ids.
    pub fn tasks(&self) -> (listed: Vec<(&u128, &Task)>)
        requires
            self.wf(),
        ensures
            listed@.len() == self.document()@.adds.dom().len(),
            forall|i: int|
                0 <= i < listed@.len() ==> self.document()@.adds.contains_key(
                    *(#[trigger] listed@[i]).0,
                ) && self.document()@.adds[*listed@[i].0] == listed@[i].1@,
            forall|id: u128|
                self.document()@.adds.contains_key(id) ==> exists|i: int|
                    0 <= i < listed@.len() && *(#[trigger] listed@[i]).0 == id,
            by_addition(listed@),
    {
        self.document.tasks()
    }

    /// Ticks the clock and returns its new value.
    fn next_clock(&mut self) -> (clock: HybridLogicalClock)
        requires
            old(self).can_tick(),
        ensures
            clock == final(self).clock(),
            old(self).clock().before(clock),
            clock.node_id() == old(self).clock().node_id(),
            final(self).id() == old(self).id(),
            final(self).document() == old(self).document(),
    {
        self.clock.tick();
        self.clock
    }

    /// Adds a task that says `description`, stamped by a tick of the
    /// replica's clock, under a fresh random id, and returns the id.
    pub fn add_task(&mut self, description: String) -> (id: u128)
        requires
            old(self).wf(),
            old(self).can_tick(),
        ensures
            final(self).wf(),
            final(self).id() == old(self).id(),
            old(self).clock().before(final(self).clock()),
            exists|added: Timestamp|
                final(self).document()@ == old(self).document()@.insert(
                    id,
                    #[trigger] TaskView::fresh(description, final(self).clock(), added),
                ),
    {
        let clock = self.next_clock();
        self.document.add_task(description, clock)
    }

    /// Sets the description of the task `id`, stamped by a tick of the
    /// replica's clock. Returns whether there is such a task; the clock
    /// ticks either way.
    pub fn update_task_description(&mut self, id: &u128, description: String) -> (found: bool)
        requires
            old(self).wf(),
            old(self).can_tick(),
        ensures
            final(self).wf(),
            final(self).id() == old(self).id(),
            old(self).clock().before(final(self).clock()),
            found == old(self).document()@.adds.contains_key(*id),
            found ==> final(self).document()@.adds == old(self).document()@.adds.insert(
                *id,
                described(old(self).document()@.adds[*id], description, final(self).clock()),
            ),
            !found ==> final(self).document()@.adds == old(self).document()@.adds,
            final(self).document()@.removes == old(self).document()@.removes,
    {
        let clock = self.next_clock();
        self.document.update_task_description(id, description, clock)
    }

    /// Marks the task `id` complete, stamped by a tick of the replica's
    /// clock. Returns whether there is such a task; the clock ticks either
    /// way.
    pub fn complete_task(&mut self, id: &u128) -> (found: bool)
        requires
            old(self).wf(),
            old(self).can_tick(),
        ensures
            final(self).wf(),
            final(self).id() == old(self).id(),
            old(self).clock().before(final(self).clock()),
            found == old(self).document()@.adds.contains_key(*id),
            found ==> final(self).document()@.adds == old(self).document()@.adds.insert(
                *id,
                completed(old(self).document()@.adds[*id], final(self).clock()),
            ),
            !found ==> final(self).document()@.adds == old(self).document()@.adds,
            final(self).document()@.removes == old(self).document()@.removes,
    {
        let clock = self.next_clock();
        self.document.complete_task(id, clock)
    }

    /// Archives the complete tasks: they leave the list for good, and the
    /// others stay as they are. The clock does not move.
    pub fn archive_completed_tasks(&mut self)
        requires
            old(self).wf(),
        ensures
            final(self).wf(),
            final(self).id() == old(self).id(),
            final(self).clock() == old(self).clock(),
            forall|id: u128|
                final(self).document()@.adds.contains_key(id) <==> #[trigger] old(
                    self,
                ).document()@.adds.contains_key(id) && !old(
                    self,
                ).document()@.adds[id].complete.value,
            forall|id: u128| #[trigger]
                final(self).document()@.adds.contains_key(id) ==> final(self).document()@.adds[id]
                    == old(self).document()@.adds[id],
            forall|id: u128|
                final(self).document()@.removes.contains(id) <==> #[trigger] old(
                    self,
                ).document()@.removes.contains(id) || (old(self).document()@.adds.contains_key(id)
                    && old(self).document()@.adds[id].complete.value),
    {
        self.document.archive_completed_tasks()
    }

    /// Merges the task list of `other` into this replica's. The id and the
    /// clock stay this replica's own.
    pub fn merge(&mut self, other: Replica)
        requires
            old(self).wf(),
            other.wf(),
        ensures
            final(self).wf(),
            final(self).id() == old(self).id(),
            final(self).clock() == old(self).clock(),
            final(self).document()@ == old(self).document()@.join(other.document()@),
    {
        self.document.merge_mut(other.document);
    }
}

} // verus!
