//! What a caller of the group pool can count on after each single call.
use crate::group_pool::model::GroupState;
use crate::group_pool::task::TaskMeta;
use vstd::prelude::*;

verus! {

/// A new pool has no task, and the first one gets the number zero.
pub proof fn law_new_pool_is_empty<J>()
    ensures
        GroupState::<J>::empty().next == 0,
        GroupState::<J>::empty().queues == Map::<u64, Seq<TaskMeta<J>>>::empty(),
        GroupState::<J>::empty().running == Map::<u64, nat>::empty(),
{
}

/// The pushed task carries the group and the job that it was given, under the next number.
pub proof fn law_pushed_task_is_what_was_given<J>(s: GroupState<J>, group_id: u64, job: J)
    requires
        s.next <= u64::MAX,
    ensures
        s.next_task(group_id, job).id == s.next,
        s.next_task(group_id, job).group_id == group_id,
        s.next_task(group_id, job).task == job,
{
}

/// A push puts the job at the end of its own group's queue, uses up one number, and starts nothing.
pub proof fn law_push_joins_its_group<J>(s: GroupState<J>, group_id: u64, job: J)
    requires
        s.next <= u64::MAX,
    ensures
        s.pushed(group_id, job).next == s.next + 1,
        s.pushed(group_id, job).running == s.running,
        s.pushed(group_id, job).queues.contains_key(group_id),
        s.pushed(group_id, job).queues[group_id].len() > 0,
        s.pushed(group_id, job).queues[group_id].last().id == s.next,
        s.pushed(group_id, job).queues[group_id].last().group_id == group_id,
        s.pushed(group_id, job).queues[group_id].last().task == job,
        s.pushed(group_id, job).queues[group_id].drop_last() == if s.queues.contains_key(
            group_id,
        ) {
            s.queues[group_id]
        } else {
            Seq::<TaskMeta<J>>::empty()
        },
{
    assert(s.pushed(group_id, job).queues[group_id].drop_last() =~= if s.queues.contains_key(
        group_id,
    ) {
        s.queues[group_id]
    } else {
        Seq::<TaskMeta<J>>::empty()
    });
}

/// A pop takes the front task off its group's queue, and one more task of the group runs.
pub proof fn law_pop_starts_the_front_task<J>(s: GroupState<J>, group_id: u64)
    requires
        s.queues.contains_key(group_id),
        s.queues[group_id].len() > 0,
    ensures
        s.popped(group_id).next == s.next,
        s.popped(group_id).queues.contains_key(group_id) <==> s.queues[group_id].len() > 1,
        s.popped(group_id).queues.contains_key(group_id) ==> seq![s.queues[group_id][0]]
            + s.popped(group_id).queues[group_id] == s.queues[group_id],
        s.popped(group_id).running.contains_key(group_id),
        s.popped(group_id).running[group_id] == 1 + if s.running.contains_key(group_id) {
            s.running[group_id]
        } else {
            0
        },
{
    if s.queues[group_id].len() > 1 {
        assert(seq![s.queues[group_id][0]] + s.popped(group_id).queues[group_id]
            =~= s.queues[group_id]);
    }
}

/// A finished task is taken off its group's count, and every queue stays as it is.
pub proof fn law_finish_counts_down<J>(s: GroupState<J>, group_id: u64)
    requires
        s.running.contains_key(group_id),
        s.running[group_id] > 0,
    ensures
        s.finished(group_id).next == s.next,
        s.finished(group_id).queues == s.queues,
        s.finished(group_id).running.contains_key(group_id) <==> s.running[group_id] > 1,
        s.finished(group_id).running.contains_key(group_id) ==> s.finished(
            group_id,
        ).running[group_id] + 1 == s.running[group_id],
{
}

/// A group keeps its queue and its count through every call that is about another group.
pub proof fn law_other_groups_are_left_alone<J>(
    s: GroupState<J>,
    group_id: u64,
    job: J,
    after: GroupState<J>,
    other: u64,
)
    requires
        after == s.pushed(group_id, job) || after == s.popped(group_id) || after == s.finished(
            group_id,
        ),
        other != group_id,
    ensures
        after.queues.contains_key(other) == s.queues.contains_key(other),
        s.queues.contains_key(other) ==> after.queues[other] == s.queues[other],
        after.running.contains_key(other) == s.running.contains_key(other),
        s.running.contains_key(other) ==> after.running[other] == s.running[other],
{
}

/// Of two groups with queued tasks, the one with fewer running tasks goes before the other, and of
/// two with as many the one whose front task has the smaller number.
pub proof fn law_who_goes_before<J>(s: GroupState<J>, g: u64, h: u64)
    requires
        s.wf(),
        s.queues.contains_key(g),
        s.queues.contains_key(h),
        g != h,
    ensures
        !s.running.contains_key(g) && s.running.contains_key(h) ==> s.goes_before(g, h)
            && !s.goes_before(h, g),
        s.running.contains_key(g) && s.running.contains_key(h) && s.running[g] < s.running[h]
            ==> s.goes_before(g, h) && !s.goes_before(h, g),
        s.running.contains_key(g) && s.running.contains_key(h) && s.running[g] == s.running[h]
            && s.queues[g][0].id < s.queues[h][0].id ==> s.goes_before(g, h) && !s.goes_before(
            h,
            g,
        ),
        !s.running.contains_key(g) && !s.running.contains_key(h) && s.queues[g][0].id
            < s.queues[h][0].id ==> s.goes_before(g, h) && !s.goes_before(h, g),
{
}

/// No group with queued tasks runs fewer tasks than the one that a task is taken from, and of those
/// that run as many none has an earlier front task.
pub proof fn law_first_group_runs_the_fewest<J>(s: GroupState<J>, g: u64, h: u64)
    requires
        s.wf(),
        s.first_group(g),
        s.queues.contains_key(h),
    ensures
        s.queues.contains_key(g),
        s.running.contains_key(g) ==> s.running.contains_key(h) && s.running[g] <= s.running[h],
        s.running.contains_key(g) && s.running[g] == s.running[h] ==> s.queues[g][0].id
            <= s.queues[h][0].id,
        !s.running.contains_key(g) && !s.running.contains_key(h) ==> s.queues[g][0].id
            <= s.queues[h][0].id,
{
    assert(s.goes_before(g, h));
}

} // verus!
