//! What the throttling queue and a pool over it do, told by their calls alone: from what went in
//! and what came out, without a look inside.
use crate::threadpool::laws;
use crate::threadpool::model::ThrottledState;
use crate::threadpool::pool::TaskPool;
use crate::threadpool::pool_laws;
use crate::threadpool::queue::BigGroupThrottledQueue;
use crate::threadpool::task::{ScheduleQueue, Task};
use std::hash::Hash;
use vstd::multiset::Multiset;
use vstd::prelude::*;

verus! {

/// A call, with what it was given or what it returned.
pub enum Call<T, J> {
    Push(Task<T, J>),
    Pop(Option<Task<T, J>>),
    Finish(T),
}

/// The tasks that have been pushed and have not come out.
pub open spec fn outstanding<T, J>(calls: Seq<Call<T, J>>) -> Multiset<Task<T, J>>
    decreases calls.len(),
{
    if calls.len() == 0 {
        Multiset::empty()
    } else {
        match calls.last() {
            Call::Push(task) => outstanding(calls.drop_last()).insert(task),
            Call::Pop(Some(task)) => outstanding(calls.drop_last()).remove(task),
            _ => outstanding(calls.drop_last()),
        }
    }
}

/// The tasks of the group that have come out and have not been reported as finished.
pub open spec fn in_progress<T, J>(calls: Seq<Call<T, J>>, group_id: T) -> int
    decreases calls.len(),
{
    if calls.len() == 0 {
        0
    } else {
        match calls.last() {
            Call::Pop(Some(task)) if task.group_id == group_id => in_progress(
                calls.drop_last(),
                group_id,
            ) + 1,
            Call::Finish(g) if g == group_id => in_progress(calls.drop_last(), group_id) - 1,
            _ => in_progress(calls.drop_last(), group_id),
        }
    }
}

/// The tasks of all groups that have come out and have not been reported as finished.
pub open spec fn all_in_progress<T, J>(calls: Seq<Call<T, J>>) -> int
    decreases calls.len(),
{
    if calls.len() == 0 {
        0
    } else {
        match calls.last() {
            Call::Pop(Some(_)) => all_in_progress(calls.drop_last()) + 1,
            Call::Finish(_) => all_in_progress(calls.drop_last()) - 1,
            _ => all_in_progress(calls.drop_last()),
        }
    }
}

/// How many tasks have been pushed.
pub open spec fn pushes<T, J>(calls: Seq<Call<T, J>>) -> nat
    decreases calls.len(),
{
    if calls.len() == 0 {
        0
    } else if calls.last() is Push {
        pushes(calls.drop_last()) + 1
    } else {
        pushes(calls.drop_last())
    }
}

/// One more than the number of the last task that has been pushed.
pub open spec fn next_number<T, J>(calls: Seq<Call<T, J>>) -> int
    decreases calls.len(),
{
    if calls.len() == 0 {
        0
    } else {
        match calls.last() {
            Call::Push(task) => task.id + 1,
            _ => next_number(calls.drop_last()),
        }
    }
}

/// `task` may come out after these calls: it is the one that the schedule asks for.
///
/// Among the outstanding tasks of groups with fewer than `limit` tasks in progress it came first.
/// If there is no such task, its group has the fewest tasks in progress, and it came first among
/// the tasks of the groups with as few.
pub open spec fn is_due<T, J>(limit: nat, calls: Seq<Call<T, J>>, task: Task<T, J>) -> bool {
    &&& outstanding(calls).contains(task)
    &&& forall|t: Task<T, J>| #[trigger]
        outstanding(calls).contains(t) ==> {
            if in_progress(calls, task.group_id) < limit {
                in_progress(calls, t.group_id) < limit ==> task.id <= t.id
            } else {
                &&& in_progress(calls, t.group_id) >= limit
                &&& in_progress(calls, task.group_id) <= in_progress(calls, t.group_id)
                &&& in_progress(calls, task.group_id) == in_progress(calls, t.group_id) ==> task.id
                    <= t.id
            }
        }
}

/// The call leads from `q` to `after`. Tasks are numbered in the order in which they are pushed,
/// and only a task in progress is reported as finished.
pub open spec fn leads_to<T: Hash + Eq + Send + Clone, J>(
    past: Seq<Call<T, J>>,
    call: Call<T, J>,
    q: BigGroupThrottledQueue<T, J>,
    after: BigGroupThrottledQueue<T, J>,
) -> bool {
    match call {
        Call::Push(task) => next_number(past) <= task.id && q.push_ensures(task, &after),
        Call::Pop(result) => q.pop_ensures(&after, result),
        Call::Finish(g) => {
            &&& in_progress(past, g) > 0
            &&& q.on_task_finished_requires(g)
            &&& q.on_task_finished_ensures(g, &after)
        },
    }
}

/// `queues` are the states that a new queue with the given limit goes through.
pub open spec fn goes_through<T: Hash + Eq + Send + Clone, J>(
    limit: nat,
    calls: Seq<Call<T, J>>,
    queues: Seq<BigGroupThrottledQueue<T, J>>,
) -> bool {
    &&& queues.len() == calls.len() + 1
    &&& queues[0].wf()
    &&& queues[0]@ == ThrottledState::<T, J>::empty(limit)
    &&& forall|i: int|
        0 <= i < calls.len() ==> leads_to(
            calls.take(i),
            calls[i],
            #[trigger] queues[i],
            queues[i + 1],
        )
}

/// The state of the queue agrees with its calls.
proof fn lemma_state_agrees<T: Hash + Eq + Send + Clone, J>(
    limit: nat,
    calls: Seq<Call<T, J>>,
    queues: Seq<BigGroupThrottledQueue<T, J>>,
)
    requires
        goes_through(limit, calls, queues),
    ensures
        queues.last().wf(),
        queues.last()@.accounted(),
        queues.last()@.numbered(next_number(calls)),
        queues.last()@.limit == limit,
        queues.last()@.queued() == outstanding(calls),
        queues.last()@.total_running() == all_in_progress(calls),
        forall|g: T| #[trigger] queues.last()@.running(g) == in_progress(calls, g),
        forall|g: T| #[trigger] in_progress(calls, g) <= calls.len(),
    decreases calls.len(),
{
    if calls.len() == 0 {
        laws::law_new_queue::<T, J>(limit, 0);
        let s = queues[0]@;
        assert(s.queued() =~= Multiset::empty());
        assert forall|g: T| #[trigger] s.running(g) == 0 by {
            assert(s.pending_of(g) <= s.count(g));
        }
    } else {
        let past = calls.drop_last();
        let n = past.len() as int;
        let before = queues.drop_last();
        assert forall|i: int| 0 <= i < past.len() implies leads_to(
            past.take(i),
            past[i],
            #[trigger] before[i],
            before[i + 1],
        ) by {
            assert(past.take(i) =~= calls.take(i));
            assert(leads_to(calls.take(i), calls[i], queues[i], queues[i + 1]));
        }
        lemma_state_agrees(limit, past, before);
        assert(calls.take(n) =~= past);
        let q = queues[n];
        let after = queues.last();
        assert(before.last() == q);
        assert(leads_to(past, calls[n], queues[n], queues[n + 1]));
        match calls.last() {
            Call::Push(task) => {
                laws::law_push_adds(q@, task);
                laws::law_push_runs_nothing(q@, task);
                laws::law_push_keeps_order(q@, next_number(past), task);
            },
            Call::Pop(Some(task)) => {
                laws::law_pop_takes(q@, task, after@);
                laws::law_pop_runs_one(q@, task, after@);
                laws::law_pop_keeps_order(q@, next_number(past), task, after@);
            },
            Call::Pop(None) => {},
            Call::Finish(g) => {
                assert(q@.running(g) == in_progress(past, g));
                laws::law_finish_keeps_queued(q@, g);
                laws::law_finish_stops_one(q@, g);
                laws::law_finish_keeps_order(q@, next_number(past), g);
            },
        }
        assert forall|g: T| #[trigger] after@.running(g) == in_progress(calls, g) by {
            assert(q@.running(g) == in_progress(past, g));
        }
        assert forall|g: T| #[trigger] in_progress(calls, g) <= calls.len() by {
            assert(in_progress(past, g) <= past.len());
        }
    }
}

/// The schedule, told by the calls alone. Whatever has been pushed, taken and finished: a pop gives
/// a task exactly if one is outstanding, and it gives the one that is due under the limit that the
/// queue was made with.
pub proof fn law_pop_gives_the_task_that_is_due<T: Hash + Eq + Send + Clone, J>(
    limit: nat,
    calls: Seq<Call<T, J>>,
    queues: Seq<BigGroupThrottledQueue<T, J>>,
    result: Option<Task<T, J>>,
    after: BigGroupThrottledQueue<T, J>,
)
    requires
        goes_through(limit, calls, queues),
        queues.last().pop_ensures(&after, result),
    ensures
        result is Some <==> outstanding(calls).len() > 0,
        result is Some ==> is_due(limit, calls, result->0),
{
    lemma_state_agrees(limit, calls, queues);
    let s = queues.last()@;
    laws::law_pop_never_idles(s, result, after@);
    if result is Some {
        let task = result->0;
        laws::law_pop_takes(s, task, after@);
        laws::law_pop_follows_schedule(s, next_number(calls), task, after@);
        assert(s.running(task.group_id) == in_progress(calls, task.group_id));
        assert forall|t: Task<T, J>| #[trigger] outstanding(calls).contains(t) implies {
            if in_progress(calls, task.group_id) < limit {
                in_progress(calls, t.group_id) < limit ==> task.id <= t.id
            } else {
                &&& in_progress(calls, t.group_id) >= limit
                &&& in_progress(calls, task.group_id) <= in_progress(calls, t.group_id)
                &&& in_progress(calls, task.group_id) == in_progress(calls, t.group_id) ==> task.id
                    <= t.id
            }
        } by {
            assert(s.queued().contains(t));
            assert(s.running(t.group_id) == in_progress(calls, t.group_id));
            if in_progress(calls, task.group_id) >= limit {
                assert forall|u: Task<T, J>| #[trigger] s.queued().contains(u) implies s.running(
                    u.group_id,
                ) >= s.limit by {}
            }
        }
    }
}

/// The next calls are accepted, whatever has been pushed, taken and finished: a push always, a
/// task in progress as finished under a limit that lets its group move up, and a pop as long as
/// the calls so far can be counted.
pub proof fn law_next_calls_are_accepted<T: Hash + Eq + Send + Clone, J>(
    limit: nat,
    calls: Seq<Call<T, J>>,
    queues: Seq<BigGroupThrottledQueue<T, J>>,
    task: Task<T, J>,
    group_id: T,
)
    requires
        goes_through(limit, calls, queues),
    ensures
        queues.last().push_requires(task),
        limit > 0 && in_progress(calls, group_id) > 0 ==> queues.last().on_task_finished_requires(
            group_id,
        ),
        calls.len() < usize::MAX ==> queues.last().pop_requires(),
{
    lemma_state_agrees(limit, calls, queues);
    let s = queues.last()@;
    assert(s.running(group_id) == in_progress(calls, group_id));
    if calls.len() < usize::MAX && s.pending.len() == 0 {
        assert forall|t: Task<T, J>| #[trigger] s.first_waiting(t) implies s.count(t.group_id)
            < usize::MAX by {
            let g = t.group_id;
            assert(s.pending.filter(|u: Task<T, J>| u.group_id == g) =~= Multiset::empty());
            assert(s.running(g) == in_progress(calls, g));
            assert(in_progress(calls, g) <= calls.len());
        }
    }
}

/// The choice is never open: at most one task is due.
pub proof fn law_one_task_is_due<T: Hash + Eq + Send + Clone, J>(
    limit: nat,
    calls: Seq<Call<T, J>>,
    queues: Seq<BigGroupThrottledQueue<T, J>>,
    task1: Task<T, J>,
    task2: Task<T, J>,
)
    requires
        goes_through(limit, calls, queues),
        is_due(limit, calls, task1),
        is_due(limit, calls, task2),
    ensures
        task1 == task2,
{
    lemma_state_agrees(limit, calls, queues);
    assert(queues.last()@.queued().contains(task1));
    assert(queues.last()@.queued().contains(task2));
}

/// The call leads from `pool` to `after`. A job is pushed as the task whose number tells how many
/// were pushed before.
pub open spec fn pool_leads_to<T: Hash + Eq + Send + Clone, J>(
    past: Seq<Call<T, J>>,
    call: Call<T, J>,
    pool: TaskPool<BigGroupThrottledQueue<T, J>, T, J>,
    after: TaskPool<BigGroupThrottledQueue<T, J>, T, J>,
) -> bool {
    match call {
        Call::Push(task) => {
            &&& task.id == pushes(past)
            &&& pool.push_task_ensures(task.group_id, task.task, after)
        },
        Call::Pop(result) => pool.pop_task_ensures(after, result),
        Call::Finish(g) => {
            &&& in_progress(past, g) > 0
            &&& pool.on_task_finished_requires(g)
            &&& pool.on_task_finished_ensures(g, after)
        },
    }
}

/// `pools` are the states that a new pool over a new queue with the given limit goes through.
pub open spec fn pool_goes_through<T: Hash + Eq + Send + Clone, J>(
    limit: nat,
    calls: Seq<Call<T, J>>,
    pools: Seq<TaskPool<BigGroupThrottledQueue<T, J>, T, J>>,
) -> bool {
    &&& pools.len() == calls.len() + 1
    &&& pools[0].next_task_id == 0
    &&& pools[0].total_running_tasks == 0
    &&& pools[0].total_waiting_tasks == 0
    &&& !pools[0].stop
    &&& pools[0].tasks.wf()
    &&& pools[0].tasks@ == ThrottledState::<T, J>::empty(limit)
    &&& forall|i: int|
        0 <= i < calls.len() ==> pool_leads_to(
            calls.take(i),
            calls[i],
            #[trigger] pools[i],
            pools[i + 1],
        )
}

/// The queue of a pool goes through the calls of the pool.
proof fn lemma_pool_agrees<T: Hash + Eq + Send + Clone, J>(
    limit: nat,
    calls: Seq<Call<T, J>>,
    pools: Seq<TaskPool<BigGroupThrottledQueue<T, J>, T, J>>,
)
    requires
        pool_goes_through(limit, calls, pools),
    ensures
        goes_through(limit, calls, Seq::new(pools.len(), |i: int| pools[i].tasks)),
        pools.last().next_task_id == pushes(calls),
        next_number(calls) == pushes(calls),
        pools.last().total_waiting_tasks == outstanding(calls).len(),
        pools.last().total_running_tasks == all_in_progress(calls),
        !pools.last().stop,
    decreases calls.len(),
{
    let queues = Seq::new(pools.len(), |i: int| pools[i].tasks);
    if calls.len() > 0 {
        let past = calls.drop_last();
        let n = past.len() as int;
        let before = pools.drop_last();
        assert forall|i: int| 0 <= i < past.len() implies pool_leads_to(
            past.take(i),
            past[i],
            #[trigger] before[i],
            before[i + 1],
        ) by {
            assert(past.take(i) =~= calls.take(i));
            assert(pool_leads_to(calls.take(i), calls[i], pools[i], pools[i + 1]));
        }
        lemma_pool_agrees(limit, past, before);
        let past_queues = Seq::new(before.len(), |i: int| before[i].tasks);
        lemma_state_agrees(limit, past, past_queues);
        assert(calls.take(n) =~= past);
        assert(pool_leads_to(past, calls[n], pools[n], pools[n + 1]));
        assert(past_queues.last() == queues[n]);
        assert forall|i: int| 0 <= i < calls.len() implies leads_to(
            calls.take(i),
            calls[i],
            #[trigger] queues[i],
            queues[i + 1],
        ) by {
            if i < n {
                assert(past.take(i) =~= calls.take(i));
                assert(leads_to(past.take(i), past[i], past_queues[i], past_queues[i + 1]));
            } else if let Call::Push(task) = calls[n] {
                assert(pools[n].next_task(task.group_id, task.task) == task);
            }
        }
        assert(goes_through(limit, calls, queues));
        lemma_state_agrees(limit, calls, queues);
        if let Call::Pop(Some(task)) = calls.last() {
            laws::law_pop_takes(queues[n]@, task, queues[n + 1]@);
        }
    }
}

/// The pool, told by its calls alone. Its counters give the outstanding tasks and those in
/// progress, the next job gets the number of the jobs before it, only a stop stops the pool, and a
/// pop gives a task exactly if one is outstanding, namely the one that is due.
pub proof fn law_pool_runs_the_task_that_is_due<T: Hash + Eq + Send + Clone, J>(
    limit: nat,
    calls: Seq<Call<T, J>>,
    pools: Seq<TaskPool<BigGroupThrottledQueue<T, J>, T, J>>,
    result: Option<Task<T, J>>,
    after: TaskPool<BigGroupThrottledQueue<T, J>, T, J>,
)
    requires
        pool_goes_through(limit, calls, pools),
    ensures
        pools.last().next_task_id == pushes(calls),
        pools.last().total_waiting_tasks == outstanding(calls).len(),
        pools.last().total_running_tasks == all_in_progress(calls),
        !pools.last().stop,
        pools.last().pop_task_ensures(after, result) ==> {
            &&& result is Some <==> outstanding(calls).len() > 0
            &&& result is Some ==> is_due(limit, calls, result->0)
        },
{
    lemma_pool_agrees(limit, calls, pools);
    let queues = Seq::new(pools.len(), |i: int| pools[i].tasks);
    assert(queues.last() == pools.last().tasks);
    if pools.last().pop_task_ensures(after, result) {
        law_pop_gives_the_task_that_is_due(limit, calls, queues, result, after.tasks);
    }
}

/// The next calls of the pool are accepted, whatever has been pushed, taken and finished, as long
/// as its counters have room.
pub proof fn law_next_pool_calls_are_accepted<T: Hash + Eq + Send + Clone, J>(
    limit: nat,
    calls: Seq<Call<T, J>>,
    pools: Seq<TaskPool<BigGroupThrottledQueue<T, J>, T, J>>,
    group_id: T,
    job: J,
)
    requires
        pool_goes_through(limit, calls, pools),
    ensures
        pushes(calls) < u64::MAX && outstanding(calls).len() < usize::MAX
            ==> pools.last().push_task_requires(group_id, job),
        all_in_progress(calls) < usize::MAX ==> pools.last().pop_task_requires(),
        limit > 0 && in_progress(calls, group_id) > 0 ==> pools.last().on_task_finished_requires(
            group_id,
        ),
{
    lemma_pool_agrees(limit, calls, pools);
    let queues = Seq::new(pools.len(), |i: int| pools[i].tasks);
    let pool = pools.last();
    assert(queues.last() == pool.tasks);
    lemma_state_agrees(limit, calls, queues);
    assert(pool_laws::consistent(pool));
    assert(pool.tasks@.running(group_id) == in_progress(calls, group_id));
    if all_in_progress(calls) < usize::MAX {
        pool_laws::law_pop_task(pool, pool, None);
    }
    if limit > 0 && in_progress(calls, group_id) > 0 {
        pool_laws::law_on_task_finished(pool, group_id, pool);
    }
}

} // verus!
