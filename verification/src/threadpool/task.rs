//! Tasks, and what a pool asks of the queue that orders them.
use crate::heap::Numbered;
use std::cmp::Ordering;
use vstd::prelude::*;
use vstd::std_specs::cmp::{PartialEqSpec, PartialOrdSpec};

verus! {

/// A job that waits for a worker.
pub struct Task<T, J> {
    /// The task's number in the pool. Each task has a unique number, and it's always bigger than
    /// preceding ones.
    pub id: u64,
    /// The group that the task belongs to.
    pub group_id: T,
    /// What a worker runs.
    pub task: J,
}

impl<T, J> Task<T, J> {
    pub fn new(id: u64, group_id: T, job: J) -> (task: Task<T, J>)
        ensures
            task == (Task { id, group_id, task: job }),
    {
        Task { id, group_id, task: job }
    }

    /// Orders tasks by priority: the one that came first is the greatest.
    pub fn cmp(&self, right: &Task<T, J>) -> (ordering: Ordering)
        ensures
            ordering == Ordering::Less <==> self.id > right.id,
            ordering == Ordering::Equal <==> self.id == right.id,
            ordering == Ordering::Greater <==> self.id < right.id,
    {
        if self.id > right.id {
            Ordering::Less
        } else if self.id < right.id {
            Ordering::Greater
        } else {
            Ordering::Equal
        }
    }
}

/// Tasks are told apart by their numbers alone.
impl<T, J> PartialEq for Task<T, J> {
    fn eq(&self, right: &Task<T, J>) -> (equal: bool) {
        self.id == right.id
    }
}

impl<T, J> vstd::std_specs::cmp::PartialEqSpecImpl for Task<T, J> {
    open spec fn obeys_eq_spec() -> bool {
        true
    }

    open spec fn eq_spec(&self, right: &Task<T, J>) -> bool {
        self.id == right.id
    }
}

impl<T, J> Eq for Task<T, J> {

}

/// The order of [`Task::cmp`].
impl<T, J> PartialOrd for Task<T, J> {
    fn partial_cmp(&self, right: &Task<T, J>) -> (ordering: Option<Ordering>) {
        Some(self.cmp(right))
    }
}

impl<T, J> vstd::std_specs::cmp::PartialOrdSpecImpl for Task<T, J> {
    open spec fn obeys_partial_cmp_spec() -> bool {
        true
    }

    open spec fn partial_cmp_spec(&self, right: &Task<T, J>) -> Option<Ordering> {
        if self.id > right.id {
            Some(Ordering::Less)
        } else if self.id < right.id {
            Some(Ordering::Greater)
        } else {
            Some(Ordering::Equal)
        }
    }
}

impl<T, J> Numbered for Task<T, J> {
    open spec fn number(&self) -> u64 {
        self.id
    }

    fn get_number(&self) -> (number: u64) {
        self.id
    }
}

/// Decides which of the tasks in a pool runs next.
///
/// An implementation says with its spec functions when each operation may be called and what it
/// does: the `_requires` ones speak of the queue before the call, and the `_ensures` ones relate
/// it to the queue after the call and to the result. One that leaves them out asks for nothing and
/// promises nothing.
pub trait ScheduleQueue<T, J> {
    open spec fn pop_requires(&self) -> bool {
        true
    }

    open spec fn pop_ensures(&self, after: &Self, result: Option<Task<T, J>>) -> bool {
        true
    }

    open spec fn push_requires(&self, task: Task<T, J>) -> bool {
        true
    }

    open spec fn push_ensures(&self, task: Task<T, J>, after: &Self) -> bool {
        true
    }

    open spec fn on_task_finished_requires(&self, group_id: T) -> bool {
        true
    }

    open spec fn on_task_finished_ensures(&self, group_id: T, after: &Self) -> bool {
        true
    }

    /// Takes the task that runs next.
    fn pop(&mut self) -> (result: Option<Task<T, J>>)
        requires
            old(self).pop_requires(),
        ensures
            old(self).pop_ensures(final(self), result),
    ;

    /// Adds a task.
    fn push(&mut self, task: Task<T, J>)
        requires
            old(self).push_requires(task),
        ensures
            old(self).push_ensures(task, final(self)),
    ;

    /// Takes note that a running task of the group has finished.
    fn on_task_finished(&mut self, group_id: &T)
        requires
            old(self).on_task_finished_requires(*group_id),
        ensures
            old(self).on_task_finished_ensures(*group_id, final(self)),
    ;
}

/// Tasks compare by their numbers: those with the same number are equal, and of two others the one
/// with the smaller number is the greater.
pub proof fn law_tasks_compare_by_number<T, J>(t: Task<T, J>, u: Task<T, J>)
    ensures
        Task::<T, J>::obeys_eq_spec(),
        t.eq_spec(&u) <==> t.id == u.id,
        Task::<T, J>::obeys_partial_cmp_spec(),
        t.partial_cmp_spec(&u) == Some(Ordering::Equal) <==> t.id == u.id,
        t.partial_cmp_spec(&u) == Some(Ordering::Greater) <==> t.id < u.id,
        t.partial_cmp_spec(&u) == Some(Ordering::Less) <==> t.id > u.id,
        t.number() == t.id,
{
}

} // verus!
