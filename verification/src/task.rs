//! A task of the task list: three last-writer-wins registers that merge one
//! by one.

use crate::hlc::wall_clock_now;
use crate::hlc::HybridLogicalClock;
use crate::hlc::Timestamp;
use crate::lww::LWWRegister;
use crate::lww::RegisterView;
use crate::merge::Merge;
use crate::merge::MergeLaws;
use vstd::prelude::*;
use vstd::string::StringExecFns;

verus! {

/// The abstract state of a task: the states of its three registers.
pub struct TaskView {
    pub added: RegisterView<Timestamp>,
    pub complete: RegisterView<bool>,
    pub description: RegisterView<String>,
}

impl TaskView {
    /// The state of a task that was just made: not complete, and every
    /// register written at `when`.
    pub open spec fn fresh(description: String, when: HybridLogicalClock, added: Timestamp) -> Self {
        TaskView {
            added: RegisterView { value: added, clock: when },
            complete: RegisterView { value: false, clock: when },
            description: RegisterView { value: description, clock: when },
        }
    }

    /// The join of two states, register by register.
    pub open spec fn join(self, other: Self) -> Self {
        TaskView {
            added: self.added.join(other.added),
            complete: self.complete.join(other.complete),
            description: self.description.join(other.description),
        }
    }

    /// The latest clock of the three registers.
    pub open spec fn highest_clock(self) -> HybridLogicalClock {
        self.added.clock.later(self.complete.clock).later(self.description.clock)
    }

    /// The line that shows the task: a checkbox, a space, the description.
    pub open spec fn line(self) -> Seq<char> {
        if self.complete.value {
            "[x] "@ + self.description.value@
        } else {
            "[ ] "@ + self.description.value@
        }
    }
}

/// A task: when it was added, whether it is complete, and what it says.
#[derive(Debug, Clone, PartialEq, Eq)]
pub struct Task {
    pub added: LWWRegister<Timestamp>,
    pub complete: LWWRegister<bool>,
    pub description: LWWRegister<String>,
}

impl View for Task {
    type V = TaskView;

    open spec fn view(&self) -> TaskView {
        TaskView {
            added: self.added@,
            complete: self.complete@,
            description: self.description@,
        }
    }
}

impl Task {
    /// A task that says `description`, added at the wall-clock reading
    /// `added` and written at `when`.
    pub fn new_at(description: String, when: HybridLogicalClock, added: Timestamp) -> (task: Task)
        ensures
            task@ == TaskView::fresh(description, when, added),
    {
        Task {
            added: LWWRegister::new(added, when),
            complete: LWWRegister::new(false, when),
            description: LWWRegister::new(description, when),
        }
    }

    /// A task that says `description`, added now and written at `when`.
    pub fn new(description: String, when: HybridLogicalClock) -> (task: Task)
        ensures
            task@ == TaskView::fresh(description, when, task@.added.value),
    {
        Task::new_at(description, when, wall_clock_now())
    }

    /// The latest clock of the three registers.
    pub fn highest_clock(&self) -> (clock: &HybridLogicalClock)
        ensures
            *clock == self@.highest_clock(),
    {
        let mut highest = self.added.clock();
        if highest.precedes(self.complete.clock()) {
            highest = self.complete.clock();
        }
        if highest.precedes(self.description.clock()) {
            highest = self.description.clock();
        }
        highest
    }

    /// The line that shows the task: `[x]` or `[ ]`, a space, the
    /// description.
    pub fn to_string(&self) -> (line: String)
        ensures
            line@ == self@.line(),
    {
        let status = if *self.complete.value() {
            "[x] "
        } else {
            "[ ] "
        };
        String::from_str(status).concat(self.description.value().as_str())
    }
}

impl Merge for Task {
    open spec fn wf(&self) -> bool {
        true
    }

    open spec fn join(a: TaskView, b: TaskView) -> TaskView {
        a.join(b)
    }

    fn merge_mut(&mut self, other: Self) {
        self.added.merge_mut(other.added);
        self.complete.merge_mut(other.complete);
        self.description.merge_mut(other.description);
    }
}

impl MergeLaws for Task {
    /// Two states are compatible where each pair of registers is.
    open spec fn compatible(a: TaskView, b: TaskView) -> bool {
        &&& LWWRegister::<Timestamp>::compatible(a.added, b.added)
        &&& LWWRegister::<bool>::compatible(a.complete, b.complete)
        &&& LWWRegister::<String>::compatible(a.description, b.description)
    }

    proof fn join_idempotent(a: Self) {
        LWWRegister::<Timestamp>::join_idempotent(a.added);
        LWWRegister::<bool>::join_idempotent(a.complete);
        LWWRegister::<String>::join_idempotent(a.description);
    }

    proof fn join_commutative(a: Self, b: Self) {
        LWWRegister::<Timestamp>::join_commutative(a.added, b.added);
        LWWRegister::<bool>::join_commutative(a.complete, b.complete);
        LWWRegister::<String>::join_commutative(a.description, b.description);
    }

    proof fn join_associative(a: Self, b: Self, c: Self) {
        LWWRegister::<Timestamp>::join_associative(a.added, b.added, c.added);
        LWWRegister::<bool>::join_associative(a.complete, b.complete, c.complete);
        LWWRegister::<String>::join_associative(a.description, b.description, c.description);
    }
}

} // verus!
