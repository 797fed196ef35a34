//! What holds of a pool that draws from the throttling queue.
use crate::threadpool::laws;
use crate::threadpool::model;
use crate::threadpool::model::ThrottledState;
use crate::threadpool::pool::TaskPool;
use crate::threadpool::queue::BigGroupThrottledQueue;
use crate::threadpool::task::{ScheduleQueue, Task};
use std::hash::Hash;
use vstd::multiset::Multiset;
use vstd::prelude::*;

verus! {

/// The counters tell how many tasks wait and run, and the numbers of the tasks tell the order in
/// which they came.
pub open spec fn consistent<T: Hash + Eq + Send + Clone, J>(
    pool: TaskPool<BigGroupThrottledQueue<T, J>, T, J>,
) -> bool {
    &&& pool.tasks.wf()
    &&& pool.tasks@.accounted()
    &&& pool.tasks@.numbered(pool.next_task_id as int)
    &&& pool.total_waiting_tasks == pool.tasks@.queued().len()
    &&& pool.total_running_tasks == pool.tasks@.total_running()
}

/// A pool over a new queue is consistent.
pub proof fn law_new_pool<T: Hash + Eq + Send + Clone, J>(
    pool: TaskPool<BigGroupThrottledQueue<T, J>, T, J>,
    limit: nat,
)
    requires
        pool.next_task_id == 0,
        pool.total_running_tasks == 0,
        pool.total_waiting_tasks == 0,
        pool.tasks.wf(),
        pool.tasks@ == ThrottledState::<T, J>::empty(limit),
    ensures
        consistent(pool),
{
    laws::law_new_queue::<T, J>(limit, 0);
}

/// A consistent pool takes every job as long as its counters have room, and stays consistent with
/// one task more.
pub proof fn law_push_task<T: Hash + Eq + Send + Clone, J>(
    pool: TaskPool<BigGroupThrottledQueue<T, J>, T, J>,
    group_id: T,
    job: J,
    after: TaskPool<BigGroupThrottledQueue<T, J>, T, J>,
)
    requires
        consistent(pool),
        pool.next_task_id < u64::MAX,
        pool.total_waiting_tasks < usize::MAX,
    ensures
        pool.push_task_requires(group_id, job),
        pool.push_task_ensures(group_id, job, after) ==> {
            &&& consistent(after)
            &&& after.tasks@.queued() == pool.tasks@.queued().insert(pool.next_task(group_id, job))
        },
{
    let task = pool.next_task(group_id, job);
    laws::law_push_adds(pool.tasks@, task);
    laws::law_push_runs_nothing(pool.tasks@, task);
    laws::law_push_keeps_order(pool.tasks@, pool.next_task_id as int, task);
}

/// A consistent pool can be asked for a task, unless a `usize` cannot count one more running one.
/// It gives a task exactly if one waits, what it gives leaves the queue and runs, and the pool stays
/// consistent.
pub proof fn law_pop_task<T: Hash + Eq + Send + Clone, J>(
    pool: TaskPool<BigGroupThrottledQueue<T, J>, T, J>,
    after: TaskPool<BigGroupThrottledQueue<T, J>, T, J>,
    result: Option<Task<T, J>>,
)
    requires
        consistent(pool),
        pool.total_running_tasks < usize::MAX,
    ensures
        pool.pop_task_requires(),
        pool.pop_task_ensures(after, result) ==> {
            &&& consistent(after)
            &&& result is Some <==> pool.total_waiting_tasks > 0
            &&& result is Some ==> {
                &&& pool.tasks@.queued().contains(result->0)
                &&& after.tasks@.queued() == pool.tasks@.queued().remove(result->0)
                &&& after.tasks@.running(result->0.group_id) == pool.tasks@.running(
                    result->0.group_id,
                ) + 1
            }
        },
{
    let s = pool.tasks@;
    assert(pool.tasks.pop_requires()) by {
        if s.pending.len() == 0 {
            assert forall|task: Task<T, J>| #[trigger] s.first_waiting(task) implies s.count(
                task.group_id,
            ) < usize::MAX by {
                assert(Multiset::from_map(s.concurrency).count(task.group_id) == s.count(
                    task.group_id,
                ));
            }
        }
    }
    assert forall|q: BigGroupThrottledQueue<T, J>, task: Task<T, J>| #[trigger]
        pool.tasks.pop_ensures(&q, Some(task)) implies pool.total_waiting_tasks > 0 by {
        laws::law_pop_never_idles(s, Some(task), q@);
    }
    if pool.pop_task_ensures(after, result) {
        laws::law_pop_never_idles(s, result, after.tasks@);
        if result is Some {
            laws::law_pop_takes(s, result->0, after.tasks@);
            laws::law_pop_runs_one(s, result->0, after.tasks@);
            laws::law_pop_keeps_order(s, pool.next_task_id as int, result->0, after.tasks@);
        }
    }
}

/// A collection of tasks that has, for each group, no more of them than a count allows, has no
/// more of them in all.
proof fn lemma_groups_bound_total<T, J>(tasks: Multiset<Task<T, J>>, counts: Multiset<T>)
    requires
        forall|g: T| #[trigger] model::tasks_of(tasks, g) <= counts.count(g),
    ensures
        tasks.len() <= counts.len(),
    decreases tasks.len(),
{
    if tasks.len() > 0 {
        let t = tasks.choose();
        let rest = tasks.remove(t);
        let fewer = counts.remove(t.group_id);
        let of_t = |task: Task<T, J>| task.group_id == t.group_id;
        assert(tasks.filter(of_t).count(t) > 0);
        assert(model::tasks_of(tasks, t.group_id) > 0);
        assert(counts.count(t.group_id) > 0);
        assert forall|g: T| #[trigger] model::tasks_of(rest, g) <= fewer.count(g) by {
            let of_g = |task: Task<T, J>| task.group_id == g;
            assert(model::tasks_of(tasks, g) <= counts.count(g));
            if g == t.group_id {
                assert(rest.filter(of_g) =~= tasks.filter(of_g).remove(t));
                assert(tasks.filter(of_g).contains(t));
            } else {
                assert(rest.filter(of_g) =~= tasks.filter(of_g));
            }
        }
        lemma_groups_bound_total(rest, fewer);
    }
}

/// While a task of some group runs, the running tasks are counted: there is at least one.
pub proof fn law_running_is_counted<T, J>(s: ThrottledState<T, J>, group_id: T)
    requires
        s.wf(),
        s.accounted(),
        s.running(group_id) > 0,
    ensures
        s.total_running() > 0,
{
    let counts = Multiset::from_map(s.concurrency);
    let fewer = counts.remove(group_id);
    assert(counts.count(group_id) == s.count(group_id));
    assert forall|g: T| #[trigger] model::tasks_of(s.pending, g) <= fewer.count(g) by {
        assert(s.pending_of(g) <= s.count(g));
        assert(counts.count(g) == s.count(g));
    }
    lemma_groups_bound_total(s.pending, fewer);
}

/// While a task of the group runs in a consistent pool, it can be reported as finished, except
/// that under a limit of zero tasks of the group must not wait when its last running one finishes.
/// The pool stays consistent with one running task less.
pub proof fn law_on_task_finished<T: Hash + Eq + Send + Clone, J>(
    pool: TaskPool<BigGroupThrottledQueue<T, J>, T, J>,
    group_id: T,
    after: TaskPool<BigGroupThrottledQueue<T, J>, T, J>,
)
    requires
        consistent(pool),
        pool.tasks@.running(group_id) > 0,
        pool.tasks@.limit == 0 && pool.tasks@.count(group_id) == 1
            ==> !pool.tasks@.waiting.contains_key(group_id),
    ensures
        pool.on_task_finished_requires(group_id),
        pool.on_task_finished_ensures(group_id, after) ==> {
            &&& consistent(after)
            &&& after.tasks@.queued() == pool.tasks@.queued()
            &&& after.tasks@.running(group_id) == pool.tasks@.running(group_id) - 1
        },
{
    let s = pool.tasks@;
    law_running_is_counted(s, group_id);
    laws::law_finish_keeps_queued(s, group_id);
    laws::law_finish_stops_one(s, group_id);
    laws::law_finish_keeps_order(s, pool.next_task_id as int, group_id);
}

} // verus!
