//! The throttling queue as a mathematical state: its tasks, its counts, and how each operation
//! changes them.
use crate::queues;
use crate::threadpool::task::Task;
use vstd::multiset::Multiset;
use vstd::prelude::*;

verus! {

/// What a throttling queue holds.
#[verifier::ext_equal]
#[verifier::reject_recursive_types(T)]
#[verifier::reject_recursive_types(J)]
pub struct ThrottledState<T, J> {
    /// The number of tasks that a group may run before its further tasks have to wait.
    pub limit: nat,
    /// Tasks of groups that are under the limit. They go before the waiting ones.
    pub pending: Multiset<Task<T, J>>,
    /// The tasks that a group has beyond the limit, in the order in which they came.
    pub waiting: Map<T, Seq<Task<T, J>>>,
    /// For each group the number of its tasks that run or are pending.
    pub concurrency: Map<T, nat>,
}

/// The number of tasks that belong to the group.
pub open spec fn tasks_of<T, J>(tasks: Multiset<Task<T, J>>, group_id: T) -> nat {
    tasks.filter(|task: Task<T, J>| task.group_id == group_id).len()
}

impl<T, J> ThrottledState<T, J> {
    /// The running and the pending tasks of a group.
    pub open spec fn count(self, group_id: T) -> nat {
        if self.concurrency.contains_key(group_id) {
            self.concurrency[group_id]
        } else {
            0
        }
    }

    /// The pending tasks of a group.
    pub open spec fn pending_of(self, group_id: T) -> nat {
        tasks_of(self.pending, group_id)
    }

    /// The running tasks of a group.
    pub open spec fn running(self, group_id: T) -> int {
        self.count(group_id) - self.pending_of(group_id)
    }

    /// The running tasks of all groups.
    pub open spec fn total_running(self) -> int {
        Multiset::from_map(self.concurrency).len() - self.pending.len()
    }

    /// The tasks that have not been taken yet.
    pub open spec fn queued(self) -> Multiset<Task<T, J>> {
        self.pending.add(queues::bag(self.waiting))
    }

    pub open spec fn is_empty(self) -> bool {
        &&& self.pending.len() == 0
        &&& forall|g: T| !self.waiting.contains_key(g)
    }

    /// What every operation keeps: a group whose tasks wait has reached the limit, and one with
    /// pending tasks has not gone beyond it.
    pub open spec fn wf(self) -> bool {
        &&& self.waiting.dom().finite()
        &&& self.concurrency.dom().finite()
        &&& forall|g: T| #[trigger]
            self.waiting.contains_key(g) ==> {
                &&& self.waiting[g].len() > 0
                &&& self.concurrency.contains_key(g)
                &&& self.concurrency[g] >= self.limit
            }
        &&& forall|g: T, i: int|
            self.waiting.contains_key(g) && 0 <= i < self.waiting[g].len() ==> (
            #[trigger] self.waiting[g][i]).group_id == g
        &&& forall|g: T| #[trigger]
            self.concurrency.contains_key(g) && self.limit > 0 ==> self.concurrency[g] > 0
        &&& forall|t: Task<T, J>| #[trigger]
            self.pending.contains(t) ==> self.count(t.group_id) <= self.limit
    }

    /// No group has more pending tasks than are counted for it. This is kept as long as a task is
    /// reported as finished only while one of its group is running.
    pub open spec fn accounted(self) -> bool {
        forall|g: T| #[trigger] self.pending_of(g) <= self.count(g)
    }

    /// The numbers of the tasks tell the order in which they came, and the next one is at least
    /// `next`.
    pub open spec fn numbered(self, next: int) -> bool {
        &&& forall|t: Task<T, J>| #[trigger]
            self.queued().contains(t) ==> t.id < next && self.queued().count(t) == 1
        &&& forall|t: Task<T, J>, u: Task<T, J>|
            #![trigger self.queued().contains(t), self.queued().contains(u)]
            self.queued().contains(t) && self.queued().contains(u) && t.id == u.id ==> t == u
        &&& forall|g: T, i: int, j: int|
            #![trigger self.waiting[g][i], self.waiting[g][j]]
            self.waiting.contains_key(g) && 0 <= i < j < self.waiting[g].len()
                ==> self.waiting[g][i].id < self.waiting[g][j].id
        &&& forall|t: Task<T, J>, i: int|
            #![trigger self.pending.contains(t), self.waiting[t.group_id][i]]
            self.pending.contains(t) && self.waiting.contains_key(t.group_id) && 0 <= i
                < self.waiting[t.group_id].len() ==> t.id < self.waiting[t.group_id][i].id
    }

    /// `task` is a pending task with the least number.
    pub open spec fn first_pending(self, task: Task<T, J>) -> bool {
        &&& self.pending.contains(task)
        &&& forall|t: Task<T, J>| #[trigger] self.pending.contains(t) ==> task.id <= t.id
    }

    /// The waiting tasks of `g` go before those of `h`: `g` has fewer tasks running, or as many
    /// and its first waiting task came no later.
    pub open spec fn goes_before(self, g: T, h: T) -> bool {
        ||| self.count(g) < self.count(h)
        ||| self.count(g) == self.count(h) && self.waiting[g][0].id <= self.waiting[h][0].id
    }

    /// `g` is a group whose waiting tasks go before those of all others.
    pub open spec fn first_group(self, g: T) -> bool {
        &&& self.waiting.contains_key(g)
        &&& forall|h: T| #[trigger] self.waiting.contains_key(h) ==> self.goes_before(g, h)
    }

    /// `task` is the first waiting task of such a group.
    pub open spec fn first_waiting(self, task: Task<T, J>) -> bool {
        &&& self.first_group(task.group_id)
        &&& task == self.waiting[task.group_id][0]
    }

    /// The state after `task` has been pushed.
    pub open spec fn pushed(self, task: Task<T, J>) -> ThrottledState<T, J> {
        let g = task.group_id;
        if self.count(g) < self.limit {
            ThrottledState {
                limit: self.limit,
                pending: self.pending.insert(task),
                waiting: self.waiting,
                concurrency: self.concurrency.insert(g, self.count(g) + 1),
            }
        } else {
            ThrottledState {
                limit: self.limit,
                pending: self.pending,
                waiting: queues::push_back(self.waiting, g, task),
                concurrency: self.concurrency.insert(g, self.count(g)),
            }
        }
    }

    /// The state after the pending `task` has been taken.
    pub open spec fn took_pending(self, task: Task<T, J>) -> ThrottledState<T, J> {
        ThrottledState {
            limit: self.limit,
            pending: self.pending.remove(task),
            waiting: self.waiting,
            concurrency: self.concurrency,
        }
    }

    /// The state after the first waiting task of `g` has been taken.
    pub open spec fn took_waiting(self, g: T) -> ThrottledState<T, J> {
        ThrottledState {
            limit: self.limit,
            pending: self.pending,
            waiting: queues::pop_front(self.waiting, g),
            concurrency: self.concurrency.insert(g, self.count(g) + 1),
        }
    }

    /// A pop may give `result` and leave `after`: a first pending task, failing that a first
    /// waiting one, and nothing only if there is no task.
    pub open spec fn pops(
        self,
        result: Option<Task<T, J>>,
        after: ThrottledState<T, J>,
    ) -> bool {
        match result {
            Some(task) => if self.pending.len() > 0 {
                self.first_pending(task) && after == self.took_pending(task)
            } else {
                self.first_waiting(task) && after == self.took_waiting(task.group_id)
            },
            None => self.is_empty() && after == self,
        }
    }

    /// A task of the group can be reported as finished: one is counted, and where tasks of the
    /// group wait, the limit lets the first of them move up.
    pub open spec fn can_finish(self, g: T) -> bool {
        &&& self.count(g) > 0
        &&& self.limit == 0 && self.count(g) == 1 ==> !self.waiting.contains_key(g)
    }

    /// The state after a task of the group has finished. If that brings the group under the limit,
    /// its first waiting task becomes pending in place of the finished one.
    pub open spec fn finished(self, g: T) -> ThrottledState<T, J> {
        if self.count(g) <= self.limit && self.waiting.contains_key(g) {
            ThrottledState {
                limit: self.limit,
                pending: self.pending.insert(self.waiting[g][0]),
                waiting: queues::pop_front(self.waiting, g),
                concurrency: self.concurrency,
            }
        } else {
            ThrottledState {
                limit: self.limit,
                pending: self.pending,
                waiting: self.waiting,
                concurrency: if self.count(g) == 1 {
                    self.concurrency.remove(g)
                } else {
                    self.concurrency.insert(g, (self.count(g) - 1) as nat)
                },
            }
        }
    }

    /// An empty queue.
    pub open spec fn empty(limit: nat) -> ThrottledState<T, J> {
        ThrottledState {
            limit,
            pending: Multiset::empty(),
            waiting: Map::empty(),
            concurrency: Map::empty(),
        }
    }
}

} // verus!
