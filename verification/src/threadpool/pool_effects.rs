//! What a caller of a pool can count on after each single call, over any schedule queue.
use crate::threadpool::pool::TaskPool;
use crate::threadpool::task::{ScheduleQueue, Task};
use vstd::prelude::*;

verus! {

/// A pushed job reaches the queue with its own group, under the pool's next number. One number is
/// used up, and one task more waits.
pub proof fn law_push_task_hands_the_job_on<Q: ScheduleQueue<T, J>, T, J>(
    pool: TaskPool<Q, T, J>,
    group_id: T,
    job: J,
    after: TaskPool<Q, T, J>,
)
    requires
        pool.push_task_ensures(group_id, job, after),
    ensures
        exists|task: Task<T, J>| #[trigger]
            pool.tasks.push_ensures(task, &after.tasks) && task.id == pool.next_task_id
                && task.group_id == group_id && task.task == job,
        after.next_task_id == pool.next_task_id + 1,
        after.total_waiting_tasks == pool.total_waiting_tasks + 1,
        after.total_running_tasks == pool.total_running_tasks,
        after.stop == pool.stop,
{
    let task = pool.next_task(group_id, job);
    assert(pool.tasks.push_ensures(task, &after.tasks));
}

/// A pop gives what the queue gives. A task that comes out is counted as running instead of
/// waiting.
pub proof fn law_pop_task_passes_the_task_on<Q: ScheduleQueue<T, J>, T, J>(
    pool: TaskPool<Q, T, J>,
    result: Option<Task<T, J>>,
    after: TaskPool<Q, T, J>,
)
    requires
        pool.pop_task_ensures(after, result),
    ensures
        pool.tasks.pop_ensures(&after.tasks, result),
        after.total_waiting_tasks + after.total_running_tasks == pool.total_waiting_tasks
            + pool.total_running_tasks,
        after.total_running_tasks == pool.total_running_tasks + if result is Some {
            1int
        } else {
            0
        },
        after.next_task_id == pool.next_task_id,
        after.stop == pool.stop,
{
}

/// A finished task is reported to the queue and no longer counted.
pub proof fn law_finished_task_is_no_longer_counted<Q: ScheduleQueue<T, J>, T, J>(
    pool: TaskPool<Q, T, J>,
    group_id: T,
    after: TaskPool<Q, T, J>,
)
    requires
        pool.on_task_finished_ensures(group_id, after),
    ensures
        pool.tasks.on_task_finished_ensures(group_id, &after.tasks),
        after.total_running_tasks + 1 == pool.total_running_tasks,
        after.total_waiting_tasks == pool.total_waiting_tasks,
        after.next_task_id == pool.next_task_id,
        after.stop == pool.stop,
{
}

/// A call is accepted whenever the queue accepts it and the counters have room.
pub proof fn law_calls_are_accepted<Q: ScheduleQueue<T, J>, T, J>(
    pool: TaskPool<Q, T, J>,
    group_id: T,
    job: J,
)
    ensures
        pool.next_task_id < u64::MAX && pool.total_waiting_tasks < usize::MAX && (forall|
            task: Task<T, J>,
        | #[trigger]
            pool.tasks.push_requires(task)) ==> pool.push_task_requires(group_id, job),
        pool.total_waiting_tasks > 0 && pool.total_running_tasks < usize::MAX
            && pool.tasks.pop_requires() ==> pool.pop_task_requires(),
        pool.total_running_tasks > 0 && pool.tasks.on_task_finished_requires(group_id)
            ==> pool.on_task_finished_requires(group_id),
{
}

} // verus!
