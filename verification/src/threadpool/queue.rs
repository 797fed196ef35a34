//! The queue that keeps big groups from taking all workers.
use crate::heap::Heap;
use crate::queues;
use crate::threadpool::laws;
use crate::threadpool::model::ThrottledState;
use crate::threadpool::task::{ScheduleQueue, Task};
use std::collections::{HashMap, VecDeque};
use std::hash::Hash;
use vstd::prelude::*;

verus! {

/// `T` can name groups: its hash, its `==` and its `clone` agree with what its values are.
pub open spec fn names_groups<T: Clone>() -> bool {
    &&& vstd::std_specs::hash::obeys_key_model::<T>()
    &&& forall|a: T, b: T| #[trigger] call_ensures(T::clone, (&a,), b) ==> a == b
}

/// `BigGroupThrottledQueue` tries to throttle group's concurrency to `group_concurrency_on_busy`
/// when it's busy. When one worker asks a task to run, it schedules in the following way:
/// 1. Find out which group has a running number that is smaller than that of
///    `group_concurrency_on_busy`.
/// 2. If more than one group meets the first point, run the one who comes first.
///
/// If no group meets the first point, choose according to the following rules:
/// 1. Select the groups with least running tasks.
/// 2. If more than one group meets the first point, choose the one whose task comes first (with
///    the minimum task's ID).
pub struct BigGroupThrottledQueue<T, J> {
    // Tasks in pending. They have higher priority than the tasks in `waiting_queue`.
    pending_tasks: Heap<Task<T, J>>,
    // group_id => tasks. Where `group_concurrency[group_id]` has reached
    // `group_concurrency_on_busy`, the rest of the group's tasks stand here.
    waiting_queue: HashMap<T, VecDeque<Task<T, J>>>,
    // group_id => number of its tasks that run or are pending.
    group_concurrency: HashMap<T, usize>,
    // The number of tasks that each group can run when the pool is busy.
    group_concurrency_on_busy: usize,
}

impl<T, J> View for BigGroupThrottledQueue<T, J> {
    type V = ThrottledState<T, J>;

    closed spec fn view(&self) -> ThrottledState<T, J> {
        ThrottledState {
            limit: self.group_concurrency_on_busy as nat,
            pending: self.pending_tasks@,
            waiting: self.waiting_queue@.map_values(|tasks: VecDeque<Task<T, J>>| tasks@),
            concurrency: self.group_concurrency@.map_values(|count: usize| count as nat),
        }
    }
}

impl<T: Hash + Eq + Send + Clone, J> BigGroupThrottledQueue<T, J> {
    /// What holds inside of the queue, apart from what its view shows.
    pub closed spec fn inv(&self) -> bool {
        &&& names_groups::<T>()
        &&& self.pending_tasks.wf()
    }

    /// The queue is in a state that its operations can leave it in.
    pub open spec fn wf(&self) -> bool {
        &&& self.inv()
        &&& self@.wf()
    }

    /// An empty queue that lets each group run `group_concurrency_on_busy` tasks before its further
    /// ones have to wait.
    ///
    /// Under a limit of zero no task ever becomes pending. With such a limit, a group whose last
    /// running task is reported as finished must have no waiting tasks.
    pub fn new(group_concurrency_on_busy: usize) -> (queue: BigGroupThrottledQueue<T, J>)
        requires
            names_groups::<T>(),
        ensures
            queue.wf(),
            queue@ == ThrottledState::<T, J>::empty(group_concurrency_on_busy as nat),
    {
        let queue = BigGroupThrottledQueue {
            group_concurrency: HashMap::new(),
            waiting_queue: HashMap::new(),
            pending_tasks: Heap::new(),
            group_concurrency_on_busy,
        };
        assert(queue@ =~= ThrottledState::<T, J>::empty(group_concurrency_on_busy as nat));
        queue
    }

    /// Pushes the task into pending if its group is under the limit, and hands it back otherwise.
    fn try_push_into_pending(&mut self, task: Task<T, J>) -> (result: Result<(), Task<T, J>>)
        requires
            old(self).inv(),
        ensures
            final(self).inv(),
            old(self)@.count(task.group_id) < old(self)@.limit ==> {
                &&& result is Ok
                &&& final(self)@ == old(self)@.pushed(task)
            },
            old(self)@.count(task.group_id) >= old(self)@.limit ==> {
                &&& result == Err::<(), Task<T, J>>(task)
                &&& final(self)@ == (ThrottledState {
                    limit: old(self)@.limit,
                    pending: old(self)@.pending,
                    waiting: old(self)@.waiting,
                    concurrency: old(self)@.concurrency.insert(
                        task.group_id,
                        old(self)@.count(task.group_id),
                    ),
                })
            },
    {
        let limit: usize = self.group_concurrency_on_busy;
        let count = self.group_concurrency.entry(task.group_id.clone()).or_insert(0);
        if *count >= limit {
            return Err(task);
        }
        *count += 1;
        self.pending_tasks.push(task);
        Ok(())
    }

    /// Takes the first waiting task of the group.
    fn pop_from_waiting_queue_with_group_id(&mut self, group_id: &T) -> (task: Task<T, J>)
        requires
            old(self).inv(),
            old(self)@.waiting.contains_key(*group_id),
            old(self)@.waiting[*group_id].len() > 0,
        ensures
            final(self).inv(),
            task == old(self)@.waiting[*group_id][0],
            final(self)@ == (ThrottledState {
                limit: old(self)@.limit,
                pending: old(self)@.pending,
                waiting: queues::pop_front(old(self)@.waiting, *group_id),
                concurrency: old(self)@.concurrency,
            }),
    {
        let mut tasks = self.waiting_queue.remove(group_id).unwrap();
        let task = tasks.pop_front().unwrap();
        // A group without waiting tasks has no queue.
        if tasks.len() > 0 {
            self.waiting_queue.insert(group_id.clone(), tasks);
        }
        proof {
            let waiting = old(self)@.waiting;
            assert(waiting[*group_id].drop_first() =~= waiting[*group_id].subrange(
                1,
                waiting[*group_id].len() as int,
            ));
            assert(self@.waiting =~= queues::pop_front(waiting, *group_id));
        }
        task
    }

    /// Returns the group whose waiting task is the next one to run:
    /// 1. Select the groups with the least running tasks.
    /// 2. If more than one group meets the first point, choose the one whose task comes first
    ///    (with the minimum task's ID).
    fn pop_group_id_from_waiting_queue(&self) -> (result: Option<T>)
        requires
            self.wf(),
        ensures
            match result {
                Some(group_id) => self@.first_group(group_id),
                None => forall|g: T| !self@.waiting.contains_key(g),
            },
    {
        // The best group so far, with its count and the number of its first waiting task.
        let mut next_group: Option<(&T, usize, u64)> = None;
        for (group_id, tasks) in it: self.waiting_queue.iter()
            invariant
                self.wf(),
                match next_group {
                    Some((g, count, front_task_id)) => {
                        &&& self@.waiting.contains_key(*g)
                        &&& count == self@.count(*g)
                        &&& front_task_id == self@.waiting[*g][0].id
                        &&& forall|j: int|
                            0 <= j < it.index() ==> self@.goes_before(
                                *g,
                                *(#[trigger] it.seq()[j]).0,
                            )
                    },
                    None => it.index() == 0,
                },
        {
            assert(self@.waiting.contains_key(*group_id));
            let front_task_id: u64 = tasks[0].id;
            let count: usize = *self.group_concurrency.get(group_id).unwrap();
            match next_group {
                None => {
                    next_group = Some((group_id, count, front_task_id));
                },
                Some((_, pre_count, pre_task_id)) => {
                    if pre_count > count || (pre_count == count && pre_task_id > front_task_id) {
                        next_group = Some((group_id, count, front_task_id));
                    }
                },
            }
        }
        match next_group {
            Some((group_id, _, _)) => Some(group_id.clone()),
            None => None,
        }
    }

    /// Takes the waiting task that is the next one to run.
    fn pop_from_waiting_queue(&mut self) -> (result: Option<Task<T, J>>)
        requires
            old(self).wf(),
            forall|task: Task<T, J>| #[trigger]
                old(self)@.first_waiting(task) ==> old(self)@.count(task.group_id) < usize::MAX,
        ensures
            final(self).inv(),
            match result {
                Some(task) => old(self)@.first_waiting(task) && final(self)@
                    == old(self)@.took_waiting(task.group_id),
                None => (forall|g: T| !old(self)@.waiting.contains_key(g)) && final(self)@ == old(
                    self,
                )@,
            },
    {
        match self.pop_group_id_from_waiting_queue() {
            None => None,
            Some(group_id) => {
                let task = self.pop_from_waiting_queue_with_group_id(&group_id);
                assert(old(self)@.first_waiting(task));
                // The task is going to run.
                let count = self.group_concurrency.entry(group_id).or_insert(0);
                *count += 1;
                assert(self@.concurrency =~= old(self)@.took_waiting(task.group_id).concurrency);
                Some(task)
            },
        }
    }
}

impl<T: Hash + Eq + Send + Clone, J> ScheduleQueue<T, J> for BigGroupThrottledQueue<T, J> {
    /// The count of the group that a waiting task is taken from has to fit into a `usize`.
    open spec fn pop_requires(&self) -> bool {
        &&& self.wf()
        &&& self@.pending.len() == 0 ==> forall|task: Task<T, J>| #[trigger]
            self@.first_waiting(task) ==> self@.count(task.group_id) < usize::MAX
    }

    open spec fn pop_ensures(&self, after: &Self, result: Option<Task<T, J>>) -> bool {
        &&& after.wf()
        &&& self@.pops(result, after@)
    }

    open spec fn push_requires(&self, task: Task<T, J>) -> bool {
        self.wf()
    }

    open spec fn push_ensures(&self, task: Task<T, J>, after: &Self) -> bool {
        &&& after.wf()
        &&& after@ == self@.pushed(task)
    }

    open spec fn on_task_finished_requires(&self, group_id: T) -> bool {
        &&& self.wf()
        &&& self@.can_finish(group_id)
    }

    open spec fn on_task_finished_ensures(&self, group_id: T, after: &Self) -> bool {
        &&& after.wf()
        &&& after@ == self@.finished(group_id)
    }

    fn push(&mut self, task: Task<T, J>) {
        proof {
            laws::law_push_adds(self@, task);
        }
        match self.try_push_into_pending(task) {
            Ok(()) => {},
            Err(task) => {
                let tasks = self.waiting_queue.entry(task.group_id.clone()).or_insert(
                    VecDeque::new(),
                );
                tasks.push_back(task);
                assert(self@.waiting =~= old(self)@.pushed(task).waiting);
            },
        }
    }

    fn pop(&mut self) -> (result: Option<Task<T, J>>) {
        match self.pending_tasks.pop() {
            Some(task) => {
                proof {
                    laws::law_pop_takes(old(self)@, task, self@);
                }
                Some(task)
            },
            None => {
                assert(self@ =~= old(self)@);
                let result = self.pop_from_waiting_queue();
                proof {
                    if result is Some {
                        laws::law_pop_takes(old(self)@, result->0, self@);
                    }
                }
                result
            },
        }
    }

    fn on_task_finished(&mut self, group_id: &T) {
        proof {
            laws::law_finish_keeps_queued(self@, *group_id);
        }
        // The task is no longer counted for its group.
        let count: usize = *self.group_concurrency.get(group_id).unwrap() - 1;
        if count == 0 {
            self.group_concurrency.remove(group_id);
        } else {
            self.group_concurrency.insert(group_id.clone(), count);
            if count >= self.group_concurrency_on_busy {
                // The number of running tasks for this group is big enough.
                assert(self@ =~= old(self)@.finished(*group_id));
                return ;
            }
        }
        if !self.waiting_queue.contains_key(group_id) {
            assert(self@ =~= old(self)@.finished(*group_id));
            return ;
        }
        // The group is under the limit: its first waiting task becomes pending.
        let group_task = self.pop_from_waiting_queue_with_group_id(group_id);
        self.try_push_into_pending(group_task).ok().unwrap();
        assert(self@ =~= old(self)@.finished(*group_id));
    }
}

} // verus!
