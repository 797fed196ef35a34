//! The bookkeeping of a pool.
use crate::threadpool::task::{ScheduleQueue, Task};
use std::marker::PhantomData;
use vstd::prelude::*;

verus! {

/// The tasks of a pool, and how many of them wait and run.
pub struct TaskPool<Q, T, J> {
    /// The number that the next task gets.
    pub next_task_id: u64,
    pub total_running_tasks: usize,
    pub total_waiting_tasks: usize,
    pub tasks: Q,
    pub marker: PhantomData<(T, J)>,
    /// Whether the workers are to end.
    pub stop: bool,
}

impl<Q: ScheduleQueue<T, J>, T, J> TaskPool<Q, T, J> {
    /// The task that the job becomes.
    pub open spec fn next_task(self, group_id: T, job: J) -> Task<T, J> {
        Task { id: self.next_task_id, group_id, task: job }
    }

    /// The counters have room for one more task, and the queue takes it.
    pub open spec fn push_task_requires(self, group_id: T, job: J) -> bool {
        &&& self.next_task_id < u64::MAX
        &&& self.total_waiting_tasks < usize::MAX
        &&& self.tasks.push_requires(self.next_task(group_id, job))
    }

    /// One more task waits: the job under the next number.
    pub open spec fn push_task_ensures(self, group_id: T, job: J, after: Self) -> bool {
        &&& after.next_task_id == self.next_task_id + 1
        &&& after.total_running_tasks == self.total_running_tasks
        &&& after.total_waiting_tasks == self.total_waiting_tasks + 1
        &&& after.stop == self.stop
        &&& self.tasks.push_ensures(self.next_task(group_id, job), &after.tasks)
    }

    /// The queue can be asked for a task, and if it may give one, then one is counted as waiting
    /// and one more running task can be counted.
    pub open spec fn pop_task_requires(self) -> bool {
        &&& self.tasks.pop_requires()
        &&& (exists|after: Q, task: Task<T, J>| #[trigger]
            self.tasks.pop_ensures(&after, Some(task))) ==> {
            &&& self.total_waiting_tasks > 0
            &&& self.total_running_tasks < usize::MAX
        }
    }

    /// The queue was asked, and a task that it gave runs instead of waiting.
    pub open spec fn pop_task_ensures(self, after: Self, result: Option<Task<T, J>>) -> bool {
        &&& after.next_task_id == self.next_task_id
        &&& after.stop == self.stop
        &&& self.tasks.pop_ensures(&after.tasks, result)
        &&& if result is Some {
            &&& after.total_running_tasks == self.total_running_tasks + 1
            &&& after.total_waiting_tasks == self.total_waiting_tasks - 1
        } else {
            &&& after.total_running_tasks == self.total_running_tasks
            &&& after.total_waiting_tasks == self.total_waiting_tasks
        }
    }

    /// A task is counted as running, and the queue can be told that one of the group has finished.
    pub open spec fn on_task_finished_requires(self, group_id: T) -> bool {
        &&& self.total_running_tasks > 0
        &&& self.tasks.on_task_finished_requires(group_id)
    }

    /// One task less runs, and the queue knows.
    pub open spec fn on_task_finished_ensures(self, group_id: T, after: Self) -> bool {
        &&& after.next_task_id == self.next_task_id
        &&& after.total_running_tasks == self.total_running_tasks - 1
        &&& after.total_waiting_tasks == self.total_waiting_tasks
        &&& after.stop == self.stop
        &&& self.tasks.on_task_finished_ensures(group_id, &after.tasks)
    }

    pub fn new(queue: Q) -> (pool: TaskPool<Q, T, J>)
        ensures
            pool.next_task_id == 0,
            pool.total_running_tasks == 0,
            pool.total_waiting_tasks == 0,
            pool.tasks == queue,
            !pool.stop,
    {
        TaskPool {
            next_task_id: 0,
            total_running_tasks: 0,
            total_waiting_tasks: 0,
            tasks: queue,
            marker: PhantomData,
            stop: false,
        }
    }

    /// Pushes a new task into the pool.
    pub fn push_task(&mut self, group_id: T, job: J)
        requires
            old(self).push_task_requires(group_id, job),
        ensures
            old(self).push_task_ensures(group_id, job, *final(self)),
    {
        let task = Task::new(self.next_task_id, group_id, job);
        self.total_waiting_tasks = self.total_waiting_tasks + 1;
        self.next_task_id = self.next_task_id + 1;
        self.tasks.push(task);
    }

    /// The number of tasks that wait or run.
    pub fn get_task_num(&self) -> (num: usize)
        requires
            self.total_waiting_tasks + self.total_running_tasks <= usize::MAX,
        ensures
            num == self.total_waiting_tasks + self.total_running_tasks,
    {
        self.total_waiting_tasks + self.total_running_tasks
    }

    /// To be called when one task of the group has finished in a worker. It cleans up the
    /// remaining information of the task in the pool.
    pub fn on_task_finished(&mut self, group_id: &T)
        requires
            old(self).on_task_finished_requires(*group_id),
        ensures
            old(self).on_task_finished_ensures(*group_id, *final(self)),
    {
        self.total_running_tasks = self.total_running_tasks - 1;
        self.tasks.on_task_finished(group_id);
    }

    /// Takes the task that runs next.
    pub fn pop_task(&mut self) -> (result: Option<Task<T, J>>)
        requires
            old(self).pop_task_requires(),
        ensures
            old(self).pop_task_ensures(*final(self), result),
    {
        let next_task = self.tasks.pop();
        if next_task.is_none() {
            return None;
        }
        assert(old(self).tasks.pop_ensures(&self.tasks, Some(next_task->0)));
        self.total_waiting_tasks = self.total_waiting_tasks - 1;
        self.total_running_tasks = self.total_running_tasks + 1;
        next_task
    }

    /// Lets the workers end.
    pub fn stop(&mut self)
        ensures
            *final(self) == (TaskPool { stop: true, ..*old(self) }),
    {
        self.stop = true;
    }

    pub fn is_stopped(&self) -> (stopped: bool)
        ensures
            stopped == self.stop,
    {
        self.stop
    }
}

} // verus!
