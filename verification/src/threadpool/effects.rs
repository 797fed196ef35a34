//! What a caller of the throttling queue can count on after each single call, whatever the numbers
//! of the tasks are and whether or not a finished task was running.
use crate::threadpool::model::ThrottledState;
use crate::threadpool::queue;
use crate::threadpool::queue::BigGroupThrottledQueue;
use crate::threadpool::task::{ScheduleQueue, Task};
use std::hash::Hash;
use vstd::multiset::Multiset;
use vstd::prelude::*;

verus! {

/// A new queue has the limit that was asked for, and nothing else.
pub proof fn law_new_queue_has_the_given_limit<T, J>(limit: nat)
    ensures
        ThrottledState::<T, J>::empty(limit).limit == limit,
        ThrottledState::<T, J>::empty(limit).pending == Multiset::<Task<T, J>>::empty(),
        ThrottledState::<T, J>::empty(limit).waiting == Map::<T, Seq<Task<T, J>>>::empty(),
        ThrottledState::<T, J>::empty(limit).concurrency == Map::<T, nat>::empty(),
{
}

/// Integers can name groups.
pub proof fn law_integers_name_groups()
    ensures
        queue::names_groups::<u64>(),
        queue::names_groups::<u32>(),
        queue::names_groups::<i32>(),
        queue::names_groups::<i64>(),
        queue::names_groups::<usize>(),
{
}

/// No call changes the limit.
pub proof fn law_limit_is_fixed<T: Hash + Eq + Send + Clone, J>(
    q: BigGroupThrottledQueue<T, J>,
    task: Task<T, J>,
    result: Option<Task<T, J>>,
    group_id: T,
    after: BigGroupThrottledQueue<T, J>,
)
    requires
        q.push_ensures(task, &after) || q.pop_ensures(&after, result)
            || q.on_task_finished_ensures(group_id, &after),
    ensures
        after@.limit == q@.limit,
{
}

/// In every state, whether or not it can be reached, no operation changes the limit, and a push to a
/// group at the limit leaves the pending tasks as they are.
pub proof fn law_no_operation_moves_the_limit<T, J>(
    s: ThrottledState<T, J>,
    task: Task<T, J>,
    result: Option<Task<T, J>>,
    group_id: T,
    after: ThrottledState<T, J>,
)
    ensures
        s.pushed(task).limit == s.limit,
        s.pops(result, after) ==> after.limit == s.limit,
        s.finished(group_id).limit == s.limit,
        s.count(task.group_id) >= s.limit ==> s.pushed(task).pending == s.pending,
{
}

/// A push is always accepted. A finished task of a group is accepted as long as one is counted,
/// except for the last one of a group with waiting tasks under a limit of zero. A pop is accepted
/// while the counts of the groups with waiting tasks have room.
pub proof fn law_calls_are_accepted<T: Hash + Eq + Send + Clone, J>(
    q: BigGroupThrottledQueue<T, J>,
    task: Task<T, J>,
    g: T,
)
    requires
        q.wf(),
    ensures
        q.push_requires(task),
        q.on_task_finished_requires(g) <==> q@.concurrency.contains_key(g) && q@.concurrency[g] > 0
            && !(q@.limit == 0 && q@.concurrency[g] == 1 && q@.waiting.contains_key(g)),
        (forall|h: T| #[trigger]
            q@.waiting.contains_key(h) ==> q@.concurrency[h] < usize::MAX) ==> q.pop_requires(),
{
}

/// A task of a group that has reached the limit goes to the end of the group's waiting tasks, and
/// nothing becomes pending.
pub proof fn law_push_beyond_the_limit_waits<T: Hash + Eq + Send + Clone, J>(
    q: BigGroupThrottledQueue<T, J>,
    task: Task<T, J>,
    after: BigGroupThrottledQueue<T, J>,
)
    requires
        q.push_ensures(task, &after),
        q@.limit == 0 || (q@.concurrency.contains_key(task.group_id)
            && q@.concurrency[task.group_id] >= q@.limit),
    ensures
        after@.pending == q@.pending,
        after@.waiting.contains_key(task.group_id),
        after@.waiting[task.group_id].len() > 0,
        after@.waiting[task.group_id].last() == task,
        after@.waiting[task.group_id].drop_last() == if q@.waiting.contains_key(task.group_id) {
            q@.waiting[task.group_id]
        } else {
            Seq::<Task<T, J>>::empty()
        },
        q@.concurrency.contains_key(task.group_id) ==> after@.concurrency == q@.concurrency,
        after@.concurrency.contains_key(task.group_id),
        !q@.concurrency.contains_key(task.group_id) ==> after@.concurrency[task.group_id] == 0,
{
    if q@.concurrency.contains_key(task.group_id) {
        assert(after@.concurrency =~= q@.concurrency);
    }
    assert(after@.waiting[task.group_id].drop_last() =~= if q@.waiting.contains_key(
        task.group_id,
    ) {
        q@.waiting[task.group_id]
    } else {
        Seq::<Task<T, J>>::empty()
    });
}

/// A task of a group that is under the limit becomes pending and is counted, and nothing waits
/// longer for it.
pub proof fn law_push_under_the_limit_is_pending<T: Hash + Eq + Send + Clone, J>(
    q: BigGroupThrottledQueue<T, J>,
    task: Task<T, J>,
    after: BigGroupThrottledQueue<T, J>,
)
    requires
        q.push_ensures(task, &after),
        q@.limit > 0,
        q@.concurrency.contains_key(task.group_id) ==> q@.concurrency[task.group_id] < q@.limit,
    ensures
        after@.pending == q@.pending.insert(task),
        after@.waiting == q@.waiting,
        after@.concurrency.contains_key(task.group_id),
        after@.concurrency[task.group_id] == 1 + if q@.concurrency.contains_key(task.group_id) {
            q@.concurrency[task.group_id]
        } else {
            0
        },
{
}

/// A group keeps its count and its waiting tasks through every call that is about another group.
pub proof fn law_other_groups_are_left_alone<T: Hash + Eq + Send + Clone, J>(
    q: BigGroupThrottledQueue<T, J>,
    task: Task<T, J>,
    group_id: T,
    after: BigGroupThrottledQueue<T, J>,
    other: T,
)
    requires
        (q.push_ensures(task, &after) && other != task.group_id) || (q.pop_ensures(
            &after,
            Some(task),
        ) && other != task.group_id) || (q.on_task_finished_ensures(group_id, &after) && other
            != group_id),
    ensures
        after@.concurrency.contains_key(other) == q@.concurrency.contains_key(other),
        q@.concurrency.contains_key(other) ==> after@.concurrency[other] == q@.concurrency[other],
        after@.waiting.contains_key(other) == q@.waiting.contains_key(other),
        q@.waiting.contains_key(other) ==> after@.waiting[other] == q@.waiting[other],
{
}

/// Pending tasks go before waiting ones, by their numbers, and taking one changes nothing else.
pub proof fn law_pop_prefers_pending<T: Hash + Eq + Send + Clone, J>(
    q: BigGroupThrottledQueue<T, J>,
    result: Option<Task<T, J>>,
    after: BigGroupThrottledQueue<T, J>,
    pending: Task<T, J>,
)
    requires
        q.pop_ensures(&after, result),
        q@.pending.contains(pending),
    ensures
        result is Some,
        q@.pending.contains(result->0),
        result->0.id <= pending.id,
        after@.pending == q@.pending.remove(result->0),
        after@.waiting == q@.waiting,
        after@.concurrency == q@.concurrency,
{
}

/// Where nothing is pending, the task is the first waiting one of its group. No group with waiting
/// tasks has a smaller count, and of those with the same count none has an earlier first task. The
/// task leaves its group's line and is counted for the group.
pub proof fn law_pop_falls_back_to_waiting<T: Hash + Eq + Send + Clone, J>(
    q: BigGroupThrottledQueue<T, J>,
    task: Task<T, J>,
    after: BigGroupThrottledQueue<T, J>,
    other: T,
)
    requires
        q.wf(),
        q.pop_ensures(&after, Some(task)),
        q@.pending.len() == 0,
        q@.waiting.contains_key(other),
    ensures
        q@.waiting.contains_key(task.group_id),
        task == q@.waiting[task.group_id][0],
        q@.concurrency[task.group_id] <= q@.concurrency[other],
        q@.concurrency[task.group_id] == q@.concurrency[other] ==> task.id
            <= q@.waiting[other][0].id,
        after@.pending == q@.pending,
        after@.waiting.contains_key(task.group_id) <==> q@.waiting[task.group_id].len() > 1,
        after@.waiting.contains_key(task.group_id) ==> seq![task] + after@.waiting[task.group_id]
            == q@.waiting[task.group_id],
        after@.concurrency.contains_key(task.group_id),
        after@.concurrency[task.group_id] == q@.concurrency[task.group_id] + 1,
{
    assert(q@.goes_before(task.group_id, other));
    assert(q@.concurrency.contains_key(other));
    assert(q@.concurrency.contains_key(task.group_id));
    if q@.waiting[task.group_id].len() > 1 {
        assert(seq![task] + after@.waiting[task.group_id] =~= q@.waiting[task.group_id]);
    }
}

/// Nothing comes out exactly if nothing is pending and nothing waits, and then nothing changes.
pub proof fn law_pop_of_nothing<T: Hash + Eq + Send + Clone, J>(
    q: BigGroupThrottledQueue<T, J>,
    result: Option<Task<T, J>>,
    after: BigGroupThrottledQueue<T, J>,
)
    requires
        q.pop_ensures(&after, result),
    ensures
        result is None <==> q@.pending.len() == 0 && q@.waiting.dom() == Set::<T>::empty(),
        result is None ==> after@.pending == q@.pending && after@.waiting == q@.waiting
            && after@.concurrency == q@.concurrency,
{
    if result is None {
        assert(q@.waiting.dom() =~= Set::<T>::empty());
    }
    if q@.pending.len() == 0 && q@.waiting.dom() == Set::<T>::empty() {
        if result is Some {
            assert(q@.waiting.dom().contains(result->0.group_id));
        }
    }
}

/// A finished task that brings its group under the limit lets the first waiting task of the group
/// become pending in its place.
pub proof fn law_finish_moves_a_waiting_task_up<T: Hash + Eq + Send + Clone, J>(
    q: BigGroupThrottledQueue<T, J>,
    g: T,
    after: BigGroupThrottledQueue<T, J>,
)
    requires
        q.wf(),
        q.on_task_finished_requires(g),
        q.on_task_finished_ensures(g, &after),
        q@.waiting.contains_key(g),
        q@.concurrency[g] - 1 < q@.limit,
    ensures
        after@.pending == q@.pending.insert(q@.waiting[g][0]),
        after@.waiting.contains_key(g) <==> q@.waiting[g].len() > 1,
        after@.waiting.contains_key(g) ==> seq![q@.waiting[g][0]] + after@.waiting[g]
            == q@.waiting[g],
        after@.concurrency == q@.concurrency,
{
    assert(q@.concurrency.contains_key(g));
    if q@.waiting[g].len() > 1 {
        assert(seq![q@.waiting[g][0]] + after@.waiting[g] =~= q@.waiting[g]);
    }
}

/// A finished task of a group that stays at the limit, or that has no waiting tasks, is only taken
/// off the count.
pub proof fn law_finish_counts_down<T: Hash + Eq + Send + Clone, J>(
    q: BigGroupThrottledQueue<T, J>,
    g: T,
    after: BigGroupThrottledQueue<T, J>,
)
    requires
        q.wf(),
        q.on_task_finished_requires(g),
        q.on_task_finished_ensures(g, &after),
        !q@.waiting.contains_key(g) || q@.concurrency[g] - 1 >= q@.limit,
    ensures
        after@.pending == q@.pending,
        after@.waiting == q@.waiting,
        after@.concurrency.contains_key(g) <==> q@.concurrency[g] > 1,
        after@.concurrency.contains_key(g) ==> after@.concurrency[g] + 1 == q@.concurrency[g],
{
}

} // verus!
