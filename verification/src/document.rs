//! The task list that a replica holds: tasks by id, in a map that lets
//! archived tasks go for good.

use crate::hlc::HybridLogicalClock;
use crate::hlc::Timestamp;
use crate::lww::RegisterView;
use crate::merge::Merge;
use crate::merge::MergeLaws;
use crate::task::Task;
use crate::task::TaskView;
use crate::twopmap::TwoPMap;
use crate::twopmap::TwoPMapView;
use itertools::Itertools;
use vstd::prelude::*;

verus! {

/// Makes a random id through `uuid::Uuid::new_v4`, as the 128-bit number
/// that `Uuid::as_u128` gives for it. Nothing is claimed of the value.
#[verifier::external_body]
pub(crate) fn fresh_id() -> u128 {
    uuid::Uuid::new_v4().as_u128()
}

/// Whether the instant `a` is not later than the instant `b`, each given as
/// seconds and nanoseconds.
pub open spec fn not_later(a: (i64, u32), b: (i64, u32)) -> bool {
    a.0 < b.0 || (a.0 == b.0 && a.1 <= b.1)
}

/// Whether `order` lists every position of `keys` once, in ascending order
/// of the keys, positions with equal keys in ascending order.
#[verifier::opaque]
pub open spec fn sorts(order: Seq<usize>, keys: Seq<(i64, u32)>) -> bool {
    &&& order.len() == keys.len()
    &&& forall|i: int| 0 <= i < order.len() ==> #[trigger] order[i] < keys.len()
    &&& forall|i: int, j: int|
        0 <= i < j < order.len() ==> {
            &&& #[trigger] order[i] != #[trigger] order[j]
            &&& not_later(keys[order[i] as int], keys[order[j] as int])
            &&& keys[order[i] as int] == keys[order[j] as int] ==> order[i] < order[j]
        }
}

/// `Itertools::sorted_by_cached_key` on the positions of `keys`, each
/// position sorted under its key: a stable sort into ascending order, tuples
/// ordered by their first component and then by their second.
#[verifier::external_body]
fn positions_by_key(keys: &Vec<(i64, u32)>) -> (order: Vec<usize>)
    ensures
        sorts(order@, keys@),
{
    (0..keys.len()).sorted_by_cached_key(|position| keys[*position]).collect()
}

/// The seconds and nanoseconds of an instant, as a pair.
fn instant(at: &Timestamp) -> (pair: (i64, u32))
    ensures
        pair == (at.secs, at.nanos),
{
    (at.secs, at.nanos)
}

/// Whether the tasks of a listing are in the order in which they were
/// added, tasks added at the same instant in ascending order of their ids,
/// and no id is listed twice.
pub open spec fn by_addition(listed: Seq<(&u128, &Task)>) -> bool {
    forall|i: int, j: int|
        0 <= i < j < listed.len() ==> {
            &&& *(#[trigger] listed[i]).0 != *(#[trigger] listed[j]).0
            &&& !listed[j].1@.added.value.before(listed[i].1@.added.value)
            &&& listed[i].1@.added.value == listed[j].1@.added.value ==> *listed[i].0 < *listed[j].0
        }
}

/// The instants at which the tasks of a listing were added.
pub open spec fn additions(listed: Seq<(&u128, &Task)>) -> Seq<(i64, u32)> {
    Seq::new(
        listed.len(),
        |i: int| (listed[i].1@.added.value.secs, listed[i].1@.added.value.nanos),
    )
}

/// The entries of a listing in the order that `order` gives.
pub open spec fn arranged<T>(listed: Seq<T>, order: Seq<usize>) -> Seq<T> {
    Seq::new(order.len(), |i: int| listed[order[i] as int])
}

/// Whether a listing is in strictly ascending order of its ids.
pub open spec fn by_id(listed: Seq<(&u128, &Task)>) -> bool {
    forall|i: int, j: int|
        0 <= i < j < listed.len() ==> *(#[trigger] listed[i]).0 < *(#[trigger] listed[j]).0
}

/// A listing by id, arranged in the sorted order of its additions, is a
/// listing by addition.
pub proof fn lemma_arranged_by_addition(listed: Seq<(&u128, &Task)>, order: Seq<usize>)
    requires
        by_id(listed),
        sorts(order, additions(listed)),
    ensures
        by_addition(arranged(listed, order)),
{
    let keys = additions(listed);
    let sorted = arranged(listed, order);
    lemma_sorts_places(order, keys);
    assert forall|i: int, j: int| 0 <= i < j < sorted.len() implies {
        &&& *(#[trigger] sorted[i]).0 != *(#[trigger] sorted[j]).0
        &&& !sorted[j].1@.added.value.before(sorted[i].1@.added.value)
        &&& sorted[i].1@.added.value == sorted[j].1@.added.value ==> *sorted[i].0 < *sorted[j].0
    } by {
        lemma_sorts_pair(order, keys, i, j);
        let a = order[i] as int;
        let b = order[j] as int;
        assert(sorted[i] == listed[a]);
        assert(sorted[j] == listed[b]);
        if a < b {
            assert(*listed[a].0 < *listed[b].0);
        } else {
            assert(*listed[b].0 < *listed[a].0);
        }
    }
}

/// Arranging a listing in a sorted order keeps every entry, and adds none.
pub proof fn lemma_arranged_same_entries(listed: Seq<(&u128, &Task)>, order: Seq<usize>)
    requires
        sorts(order, additions(listed)),
    ensures
        arranged(listed, order).len() == listed.len(),
        forall|i: int|
            0 <= i < listed.len() ==> listed.contains(#[trigger] arranged(listed, order)[i]),
        forall|e: int|
            0 <= e < listed.len() ==> arranged(listed, order).contains(#[trigger] listed[e]),
{
    let keys = additions(listed);
    let sorted = arranged(listed, order);
    lemma_sorts_places(order, keys);
    assert forall|i: int| 0 <= i < listed.len() implies listed.contains(#[trigger] sorted[i]) by {
        let e = order[i] as int;
        assert(listed[e] == sorted[i]);
    }
    assert forall|e: int| 0 <= e < listed.len() implies sorted.contains(#[trigger] listed[e]) by {
        lemma_sorts_covers(order, keys, e);
        let i = choose|i: int| 0 <= i < order.len() && #[trigger] order[i] == e;
        assert(sorted[i] == listed[e]);
    }
}

/// Rearranges tasks that are listed by ascending id into the order in
/// which they were added.
fn earliest_first<'a>(listed: Vec<(&'a u128, &'a Task)>) -> (sorted: Vec<(&'a u128, &'a Task)>)
    ensures
        exists|order: Seq<usize>|
            sorts(order, additions(listed@)) && sorted@ == #[trigger] arranged(listed@, order),
{
    let mut keys: Vec<(i64, u32)> = Vec::new();
    let mut at: usize = 0;
    while at < listed.len()
        invariant
            at <= listed@.len(),
            keys@.len() == at,
            forall|i: int| 0 <= i < at ==> #[trigger] keys@[i] == additions(listed@)[i],
        decreases listed@.len() - at,
    {
        keys.push(instant(listed[at].1.added.value()));
        at = at + 1;
    }
    assert(keys@ =~= additions(listed@));
    let order = positions_by_key(&keys);
    let mut sorted: Vec<(&u128, &Task)> = Vec::new();
    let mut next: usize = 0;
    proof {
        lemma_sorts_places(order@, keys@);
    }
    while next < order.len()
        invariant
            next <= order@.len(),
            order@.len() == listed@.len(),
            forall|i: int| 0 <= i < order@.len() ==> #[trigger] order@[i] < listed@.len(),
            sorted@.len() == next,
            forall|i: int| 0 <= i < next ==> #[trigger] sorted@[i] == arranged(listed@, order@)[i],
        decreases order@.len() - next,
    {
        sorted.push(listed[order[next]]);
        next = next + 1;
    }
    assert(sorted@ =~= arranged(listed@, order@));
    sorted
}

/// A task list.
#[derive(Debug, Clone, PartialEq, Eq)]
pub struct Document {
    pub tasks: TwoPMap<u128, Task>,
}

impl View for Document {
    type V = TwoPMapView<u128, Task>;

    open spec fn view(&self) -> TwoPMapView<u128, Task> {
        self.tasks@
    }
}

impl Default for Document {
    fn default() -> (document: Self)
        ensures
            document@ == TwoPMapView::<u128, Task>::empty(),
            document.wf(),
    {
        Document { tasks: TwoPMap::default() }
    }
}

/// The state of a task after its description is set to `description` at
/// `clock`.
pub open spec fn described(task: TaskView, description: String, clock: HybridLogicalClock) -> TaskView {
    TaskView {
        added: task.added,
        complete: task.complete,
        description: RegisterView { value: description, clock },
    }
}

/// The state of a task after it is marked complete at `clock`.
pub open spec fn completed(task: TaskView, clock: HybridLogicalClock) -> TaskView {
    TaskView {
        added: task.added,
        complete: RegisterView { value: true, clock },
        description: task.description,
    }
}

impl Document {
    /// The live tasks, earliest added first; tasks added at the same instant
    /// in ascending order of their ids.
    pub fn tasks(&self) -> (listed: Vec<(&u128, &Task)>)
        requires
            self.wf(),
        ensures
            listed@.len() == self@.adds.dom().len(),
            forall|i: int|
                0 <= i < listed@.len() ==> self@.adds.contains_key(*(#[trigger] listed@[i]).0)
                    && self@.adds[*listed@[i].0] == listed@[i].1@,
            forall|id: u128|
                self@.adds.contains_key(id) ==> exists|i: int|
                    0 <= i < listed@.len() && *(#[trigger] listed@[i]).0 == id,
            by_addition(listed@),
    {
        let stored = self.tasks.iter();
        proof {
            self.tasks.lemma_stored();
        }
        let listed = earliest_first(stored);
        proof {
            let order = choose|order: Seq<usize>|
                sorts(order, additions(stored@)) && listed@ == #[trigger] arranged(stored@, order);
            assert(by_id(stored@));
            lemma_arranged_by_addition(stored@, order);
            lemma_arranged_same_entries(stored@, order);
            assert forall|id: u128| self@.adds.contains_key(id) implies exists|i: int|
                0 <= i < listed@.len() && *(#[trigger] listed@[i]).0 == id by {
                let e = choose|e: int| 0 <= e < stored@.len() && *(#[trigger] stored@[e]).0 == id;
                assert(listed@.contains(stored@[e]));
                let i = choose|i: int| 0 <= i < listed@.len() && listed@[i] == stored@[e];
                assert(*listed@[i].0 == id);
            }
            assert forall|i: int| 0 <= i < listed@.len() implies self@.adds.contains_key(
                *(#[trigger] listed@[i]).0,
            ) && self@.adds[*listed@[i].0] == listed@[i].1@ by {
                assert(stored@.contains(listed@[i]));
                let e = choose|e: int| 0 <= e < stored@.len() && stored@[e] == listed@[i];
                assert(self.tasks.stored().contains_key(*stored@[e].0));
            }
        }
        listed
    }

    /// Adds a task that says `description`, written at `clock`, under a
    /// fresh random id, and returns the id.
    pub fn add_task(&mut self, description: String, clock: HybridLogicalClock) -> (id: u128)
        requires
            old(self).wf(),
        ensures
            final(self).wf(),
            exists|added: Timestamp|
                final(self)@ == old(self)@.insert(
                    id,
                    #[trigger] TaskView::fresh(description, clock, added),
                ),
    {
        let id = fresh_id();
        let task = Task::new(description, clock);
        self.insert_task(id, task);
        id
    }

    /// Stores `task` under `id`. A task that is already stored under the id
    /// is merged with it; an id whose task was archived stays without one.
    pub fn insert_task(&mut self, id: u128, task: Task)
        requires
            old(self).wf(),
        ensures
            final(self).wf(),
            final(self)@ == old(self)@.insert(id, task@),
    {
        self.tasks.insert(id, task);
    }

    /// Sets the description of the task `id` to `description` at `clock`.
    /// Returns whether there is such a task; nothing changes where there is
    /// none.
    pub fn update_task_description(
        &mut self,
        id: &u128,
        description: String,
        clock: HybridLogicalClock,
    ) -> (found: bool)
        requires
            old(self).wf(),
        ensures
            final(self).wf(),
            found == old(self)@.adds.contains_key(*id),
            found ==> final(self)@.adds == old(self)@.adds.insert(
                *id,
                described(old(self)@.adds[*id], description, clock),
            ),
            !found ==> final(self)@.adds == old(self)@.adds,
            final(self)@.removes == old(self)@.removes,
    {
        if let Some(task) = self.tasks.get_mut(id) {
            task.description.set(description, clock);
            true
        } else {
            false
        }
    }

    /// Marks the task `id` complete at `clock`. Returns whether there is
    /// such a task; nothing changes where there is none.
    pub fn complete_task(&mut self, id: &u128, clock: HybridLogicalClock) -> (found: bool)
        requires
            old(self).wf(),
        ensures
            final(self).wf(),
            found == old(self)@.adds.contains_key(*id),
            found ==> final(self)@.adds == old(self)@.adds.insert(
                *id,
                completed(old(self)@.adds[*id], clock),
            ),
            !found ==> final(self)@.adds == old(self)@.adds,
            final(self)@.removes == old(self)@.removes,
    {
        if let Some(task) = self.tasks.get_mut(id) {
            task.complete.set(true, clock);
            true
        } else {
            false
        }
    }

    /// Archives the complete tasks: they leave the list for good, and the
    /// others stay as they are.
    pub fn archive_completed_tasks(&mut self)
        requires
            old(self).wf(),
        ensures
            final(self).wf(),
            forall|id: u128|
                final(self)@.adds.contains_key(id) <==> #[trigger] old(self)@.adds.contains_key(id)
                    && !old(self)@.adds[id].complete.value,
            forall|id: u128| #[trigger]
                final(self)@.adds.contains_key(id) ==> final(self)@.adds[id] == old(self)@.adds[id],
            forall|id: u128|
                final(self)@.removes.contains(id) <==> #[trigger] old(self)@.removes.contains(id) || (
                old(self)@.adds.contains_key(id) && old(self)@.adds[id].complete.value),
    {
        proof {
            self.tasks.lemma_stored();
        }
        self.tasks.retain(is_open);
        proof {
            self.tasks.lemma_stored();
            old(self).tasks.lemma_stored();
        }
    }
}

/// Whether a task is still to be done.
fn is_open(id: &u128, task: &Task) -> (open: bool)
    ensures
        open == !task@.complete.value,
{
    !*task.complete.value()
}

/// A sorted order has one entry for each position, and every entry is a
/// position.
pub proof fn lemma_sorts_places(order: Seq<usize>, keys: Seq<(i64, u32)>)
    requires
        sorts(order, keys),
    ensures
        order.len() == keys.len(),
        forall|i: int| 0 <= i < order.len() ==> #[trigger] order[i] < keys.len(),
{
    reveal(sorts);
}

/// Of two entries of a sorted order, the earlier names another position
/// than the later, with a key that is not later, and with the lesser
/// position where the keys are equal.
pub proof fn lemma_sorts_pair(order: Seq<usize>, keys: Seq<(i64, u32)>, i: int, j: int)
    requires
        sorts(order, keys),
        0 <= i < j < order.len(),
    ensures
        order[i] < keys.len(),
        order[j] < keys.len(),
        order[i] != order[j],
        not_later(keys[order[i] as int], keys[order[j] as int]),
        keys[order[i] as int] == keys[order[j] as int] ==> order[i] < order[j],
{
    reveal(sorts);
}

/// A sorted order names every position.
pub proof fn lemma_sorts_covers(order: Seq<usize>, keys: Seq<(i64, u32)>, position: int)
    requires
        sorts(order, keys),
        0 <= position < keys.len(),
    ensures
        exists|i: int| 0 <= i < order.len() && #[trigger] order[i] == position,
{
    reveal(sorts);
    let positions = Set::new(|p: int| 0 <= p < keys.len());
    let named = Set::new(|p: int| exists|i: int| 0 <= i < order.len() && #[trigger] order[i] == p);
    lemma_count_named(order, keys.len() as int, order.len() as int);
    vstd::set_lib::lemma_int_range(0, keys.len() as int);
    assert(positions =~= vstd::set_lib::set_int_range(0, keys.len() as int));
    assert(named.subset_of(positions));
    vstd::set_lib::lemma_subset_equality(named, positions);
    assert(positions.contains(position));
}

/// The first `n` entries of an order without repeats name `n` positions.
proof fn lemma_count_named(order: Seq<usize>, bound: int, n: int)
    requires
        0 <= n <= order.len(),
        forall|i: int| 0 <= i < order.len() ==> #[trigger] order[i] < bound,
        forall|i: int, j: int| 0 <= i < j < order.len() ==> #[trigger] order[i] != #[trigger] order[j],
    ensures
        Set::new(|p: int| exists|i: int| 0 <= i < n && #[trigger] order[i] == p).finite(),
        Set::new(|p: int| exists|i: int| 0 <= i < n && #[trigger] order[i] == p).len() == n,
    decreases n,
{
    let named = Set::new(|p: int| exists|i: int| 0 <= i < n && #[trigger] order[i] == p);
    if n == 0 {
        assert(named =~= Set::<int>::empty());
    } else {
        lemma_count_named(order, bound, n - 1);
        let before = Set::new(|p: int| exists|i: int| 0 <= i < n - 1 && #[trigger] order[i] == p);
        let last = order[n - 1] as int;
        assert(!before.contains(last));
        assert(named =~= before.insert(last)) by {
            assert forall|p: int| named.contains(p) implies before.insert(last).contains(p) by {
                let i = choose|i: int| 0 <= i < n && #[trigger] order[i] == p;
                if i < n - 1 {
                    assert(before.contains(p));
                }
            }
            assert forall|p: int| before.insert(last).contains(p) implies named.contains(p) by {
                if p == last {
                    assert(order[n - 1] == p);
                } else {
                    let i = choose|i: int| 0 <= i < n - 1 && #[trigger] order[i] == p;
                    assert(order[i] == p);
                }
            }
        }
    }
}

impl Document {
    /// Whether the list is well formed.
    pub open spec fn wf(&self) -> bool {
        self.tasks.wf()
    }

    /// Merges the task list `other` into this one: tasks that both hold are
    /// merged, and a task archived in either stays archived.
    pub fn merge_mut(&mut self, other: Self)
        requires
            old(self).wf(),
            other.wf(),
        ensures
            final(self).wf(),
            final(self)@ == old(self)@.join(other@),
    {
        self.tasks.merge_mut(other.tasks);
    }

    /// Merging a list into itself changes nothing.
    pub proof fn lemma_join_idempotent(a: Self)
        requires
            a.wf(),
        ensures
            a@.join(a@) == a@,
    {
        TwoPMap::<u128, Task>::join_idempotent(a.tasks);
    }

    /// Merging `b` into `a` gives what merging `a` into `b` gives, where
    /// the tasks that both hold are compatible.
    pub proof fn lemma_join_commutative(a: Self, b: Self)
        requires
            a.wf(),
            b.wf(),
            TwoPMap::<u128, Task>::compatible(a@, b@),
        ensures
            a@.join(b@) == b@.join(a@),
    {
        TwoPMap::<u128, Task>::join_commutative(a.tasks, b.tasks);
    }

    /// Merging three lists gives the same list however they are grouped.
    pub proof fn lemma_join_associative(a: Self, b: Self, c: Self)
        requires
            a.wf(),
            b.wf(),
            c.wf(),
        ensures
            a@.join(b@).join(c@) == a@.join(b@.join(c@)),
    {
        TwoPMap::<u128, Task>::join_associative(a.tasks, b.tasks, c.tasks);
    }
}

} // verus!
