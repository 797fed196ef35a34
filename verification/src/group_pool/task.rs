//! Tasks of a group pool.
use crate::heap::Numbered;
use std::cmp::Ordering;
use vstd::prelude::*;
use vstd::std_specs::cmp::{PartialEqSpec, PartialOrdSpec};

verus! {

/// A job that waits for a worker.
pub struct TaskMeta<J> {
    /// The task's number in the pool. Each task has a unique number, and it's always bigger than
    /// the preceding one.
    pub id: u64,
    /// The group that the task belongs to.
    pub group_id: u64,
    /// What a worker runs.
    pub task: J,
}

impl<J> TaskMeta<J> {
    pub fn new(id: u64, group_id: u64, job: J) -> (task: TaskMeta<J>)
        ensures
            task == (TaskMeta { id, group_id, task: job }),
    {
        TaskMeta { id, group_id, task: job }
    }

    /// Orders tasks by priority: the one that came first is the greatest.
    pub fn cmp(&self, right: &TaskMeta<J>) -> (ordering: Ordering)
        ensures
            ordering == Ordering::Less <==> self.id > right.id,
            ordering == Ordering::Equal <==> self.id == right.id,
            ordering == Ordering::Greater <==> self.id < right.id,
    {
        if self.id > right.id {
            return Ordering::Less;
        } else if self.id < right.id {
            return Ordering::Greater;
        }
        Ordering::Equal
    }
}

/// Tasks are told apart by their numbers alone.
impl<J> PartialEq for TaskMeta<J> {
    fn eq(&self, right: &TaskMeta<J>) -> (equal: bool) {
        self.id == right.id
    }
}

impl<J> vstd::std_specs::cmp::PartialEqSpecImpl for TaskMeta<J> {
    open spec fn obeys_eq_spec() -> bool {
        true
    }

    open spec fn eq_spec(&self, right: &TaskMeta<J>) -> bool {
        self.id == right.id
    }
}

impl<J> Eq for TaskMeta<J> {

}

/// The order of [`TaskMeta::cmp`].
impl<J> PartialOrd for TaskMeta<J> {
    fn partial_cmp(&self, right: &TaskMeta<J>) -> (ordering: Option<Ordering>) {
        Some(self.cmp(right))
    }
}

impl<J> vstd::std_specs::cmp::PartialOrdSpecImpl for TaskMeta<J> {
    open spec fn obeys_partial_cmp_spec() -> bool {
        true
    }

    open spec fn partial_cmp_spec(&self, right: &TaskMeta<J>) -> Option<Ordering> {
        if self.id > right.id {
            Some(Ordering::Less)
        } else if self.id < right.id {
            Some(Ordering::Greater)
        } else {
            Some(Ordering::Equal)
        }
    }
}

impl<J> Numbered for TaskMeta<J> {
    open spec fn number(&self) -> u64 {
        self.id
    }

    fn get_number(&self) -> (number: u64) {
        self.id
    }
}

/// Tasks compare by their numbers: those with the same number are equal, and of two others the one
/// with the smaller number is the greater.
pub proof fn law_tasks_compare_by_number<J>(t: TaskMeta<J>, u: TaskMeta<J>)
    ensures
        TaskMeta::<J>::obeys_eq_spec(),
        t.eq_spec(&u) <==> t.id == u.id,
        TaskMeta::<J>::obeys_partial_cmp_spec(),
        t.partial_cmp_spec(&u) == Some(Ordering::Equal) <==> t.id == u.id,
        t.partial_cmp_spec(&u) == Some(Ordering::Greater) <==> t.id < u.id,
        t.partial_cmp_spec(&u) == Some(Ordering::Less) <==> t.id > u.id,
        t.number() == t.id,
{
}

} // verus!
