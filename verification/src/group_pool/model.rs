//! The bookkeeping of a group pool as a mathematical state.
use crate::group_pool::task::TaskMeta;
use crate::queues;
use vstd::multiset::Multiset;
use vstd::prelude::*;

verus! {

/// The tasks of a group pool.
#[verifier::ext_equal]
#[verifier::reject_recursive_types(J)]
pub struct GroupState<J> {
    /// The number that the next task gets.
    pub next: nat,
    /// For each group with queued tasks these tasks, in the order in which they came.
    pub queues: Map<u64, Seq<TaskMeta<J>>>,
    /// For each group with running tasks their number.
    pub running: Map<u64, nat>,
}

impl<J> GroupState<J> {
    /// The running tasks of a group.
    pub open spec fn running_of(self, group_id: u64) -> nat {
        if self.running.contains_key(group_id) {
            self.running[group_id]
        } else {
            0
        }
    }

    /// The running tasks of all groups.
    pub open spec fn total_running(self) -> nat {
        Multiset::from_map(self.running).len()
    }

    /// The tasks that have not been taken yet.
    pub open spec fn queued(self) -> Multiset<TaskMeta<J>> {
        queues::bag(self.queues)
    }

    /// What every operation keeps: queues and counts stand for groups that have such tasks, and
    /// the numbers of the tasks tell the order in which they came.
    pub open spec fn wf(self) -> bool {
        &&& self.queues.dom().finite()
        &&& self.running.dom().finite()
        &&& forall|g: u64| #[trigger] self.queues.contains_key(g) ==> self.queues[g].len() > 0
        &&& forall|g: u64| #[trigger] self.running.contains_key(g) ==> self.running[g] > 0
        &&& forall|g: u64, i: int|
            #![trigger self.queues[g][i]]
            self.queues.contains_key(g) && 0 <= i < self.queues[g].len() ==> {
                &&& self.queues[g][i].group_id == g
                &&& self.queues[g][i].id < self.next
            }
        &&& forall|g: u64, i: int, j: int|
            #![trigger self.queues[g][i], self.queues[g][j]]
            self.queues.contains_key(g) && 0 <= i < j < self.queues[g].len()
                ==> self.queues[g][i].id < self.queues[g][j].id
        &&& forall|g: u64, i: int, h: u64, j: int|
            #![trigger self.queues[g][i], self.queues[h][j]]
            self.queues.contains_key(g) && 0 <= i < self.queues[g].len()
                && self.queues.contains_key(h) && 0 <= j < self.queues[h].len() && g != h
                ==> self.queues[g][i].id != self.queues[h][j].id
    }

    /// The tasks of `g` go before those of `h`: `g` has fewer tasks running, or as many and its
    /// first task came no later.
    pub open spec fn goes_before(self, g: u64, h: u64) -> bool {
        ||| self.running_of(g) < self.running_of(h)
        ||| self.running_of(g) == self.running_of(h) && self.queues[g][0].id
            <= self.queues[h][0].id
    }

    /// `g` is the group whose tasks go before those of all others.
    pub open spec fn first_group(self, g: u64) -> bool {
        &&& self.queues.contains_key(g)
        &&& forall|h: u64| #[trigger] self.queues.contains_key(h) ==> self.goes_before(g, h)
    }

    /// The task that a job of the group becomes.
    pub open spec fn next_task(self, group_id: u64, job: J) -> TaskMeta<J> {
        TaskMeta { id: self.next as u64, group_id, task: job }
    }

    /// The state after a job of the group has been pushed.
    pub open spec fn pushed(self, group_id: u64, job: J) -> GroupState<J> {
        GroupState {
            next: self.next + 1,
            queues: queues::push_back(self.queues, group_id, self.next_task(group_id, job)),
            running: self.running,
        }
    }

    /// The state after the first task of the group has been taken to be run.
    pub open spec fn popped(self, group_id: u64) -> GroupState<J> {
        GroupState {
            next: self.next,
            queues: queues::pop_front(self.queues, group_id),
            running: self.running.insert(group_id, self.running_of(group_id) + 1),
        }
    }

    /// The state after a running task of the group has finished.
    pub open spec fn finished(self, group_id: u64) -> GroupState<J> {
        GroupState {
            next: self.next,
            queues: self.queues,
            running: if self.running_of(group_id) <= 1 {
                self.running.remove(group_id)
            } else {
                self.running.insert(group_id, (self.running_of(group_id) - 1) as nat)
            },
        }
    }

    /// A pool that has never had a task.
    pub open spec fn empty() -> GroupState<J> {
        GroupState { next: 0, queues: Map::empty(), running: Map::empty() }
    }
}

} // verus!
