//! What holds of a group pool as a whole.
use crate::group_pool::model::GroupState;
use crate::group_pool::task::TaskMeta;
use crate::queues;
use vstd::multiset::Multiset;
use vstd::prelude::*;

verus! {

/// A new pool has no tasks.
pub proof fn law_new_pool<J>()
    ensures
        GroupState::<J>::empty().wf(),
        GroupState::<J>::empty().queued().len() == 0,
        GroupState::<J>::empty().total_running() == 0,
{
    assert(Multiset::from_map(GroupState::<J>::empty().running) =~= Multiset::empty());
}

/// A push adds exactly one task, under a number beyond all given ones, and lets none run.
pub proof fn law_push_adds<J>(s: GroupState<J>, group_id: u64, job: J)
    requires
        s.wf(),
        s.next <= u64::MAX,
    ensures
        s.pushed(group_id, job).wf(),
        s.pushed(group_id, job).queued() == s.queued().insert(s.next_task(group_id, job)),
        s.pushed(group_id, job).total_running() == s.total_running(),
{
    queues::lemma_bag_push(s.queues, group_id, s.next_task(group_id, job));
    let after = s.pushed(group_id, job);
    assert forall|g: u64, i: int, h: u64, j: int|
        #![trigger after.queues[g][i], after.queues[h][j]]
        after.queues.contains_key(g) && 0 <= i < after.queues[g].len() && after.queues.contains_key(
            h,
        ) && 0 <= j < after.queues[h].len() && g != h implies after.queues[g][i].id
        != after.queues[h][j].id by {
        if g == group_id && i == after.queues[g].len() - 1 {
            assert(s.queues[h][j].id < s.next);
        } else if h == group_id && j == after.queues[h].len() - 1 {
            assert(s.queues[g][i].id < s.next);
        } else {
            assert(s.queues[g][i].id != s.queues[h][j].id);
        }
    }
    assert forall|g: u64, i: int, j: int|
        #![trigger after.queues[g][i], after.queues[g][j]]
        after.queues.contains_key(g) && 0 <= i < j < after.queues[g].len() implies
        after.queues[g][i].id < after.queues[g][j].id by {
        if g == group_id && j == after.queues[g].len() - 1 {
            assert(s.queues[g][i].id < s.next);
        } else {
            assert(s.queues[g][i].id < s.queues[g][j].id);
        }
    }
}

/// A pop takes exactly the first task of the group out of the queued ones, and it runs.
pub proof fn law_pop_takes<J>(s: GroupState<J>, group_id: u64)
    requires
        s.wf(),
        s.queues.contains_key(group_id),
    ensures
        s.popped(group_id).wf(),
        s.queued().contains(s.queues[group_id][0]),
        s.popped(group_id).queued() == s.queued().remove(s.queues[group_id][0]),
        s.popped(group_id).total_running() == s.total_running() + 1,
{
    queues::lemma_bag_pop(s.queues, group_id);
    let after = s.popped(group_id);
    assert(Multiset::from_map(after.running) =~= Multiset::from_map(s.running).insert(group_id));
    assert forall|g: u64, i: int|
        #![trigger after.queues[g][i]]
        after.queues.contains_key(g) && 0 <= i < after.queues[g].len() implies after.queues[g][i]
        == s.queues[g][if g == group_id {
        i + 1
    } else {
        i
    }] by {}
}

/// Reporting a task as finished leaves one running task less, and the queued ones as they are.
pub proof fn law_finish_stops_one<J>(s: GroupState<J>, group_id: u64)
    requires
        s.wf(),
        s.running.contains_key(group_id),
    ensures
        s.finished(group_id).wf(),
        s.finished(group_id).queued() == s.queued(),
        s.finished(group_id).total_running() == s.total_running() - 1,
{
    let all = Multiset::from_map(s.running);
    assert(all.count(group_id) == s.running[group_id]);
    assert(Multiset::from_map(s.finished(group_id).running) =~= all.remove(group_id));
}

/// There are queued tasks exactly if some group has a queue.
pub proof fn law_queued_in_groups<J>(s: GroupState<J>)
    requires
        s.wf(),
    ensures
        s.queued().len() > 0 <==> exists|g: u64| s.queues.contains_key(g),
{
    if exists|g: u64| s.queues.contains_key(g) {
        let g = choose|g: u64| s.queues.contains_key(g);
        queues::lemma_bag_pop(s.queues, g);
    } else {
        assert(s.queues.dom() =~= Set::empty());
    }
}

/// A queued task stands in the queue of its group.
proof fn lemma_queued_stands<J>(s: GroupState<J>, task: TaskMeta<J>) -> (i: int)
    requires
        s.wf(),
        s.queued().contains(task),
    ensures
        s.queues.contains_key(task.group_id),
        0 <= i < s.queues[task.group_id].len(),
        s.queues[task.group_id][i] == task,
{
    queues::lemma_bag_contains(s.queues, task);
    let g = choose|g: u64| #[trigger] s.queues.contains_key(g) && s.queues[g].contains(task);
    let i = choose|i: int| 0 <= i < s.queues[g].len() && s.queues[g][i] == task;
    assert(s.queues[g][i].group_id == g);
    i
}

/// The schedule: the task that is taken belongs to a group with the least running tasks, and it
/// came first among the tasks of these groups.
pub proof fn law_pop_follows_schedule<J>(s: GroupState<J>, group_id: u64, other: TaskMeta<J>)
    requires
        s.wf(),
        s.first_group(group_id),
        s.queued().contains(other),
    ensures
        s.running_of(group_id) < s.running_of(other.group_id) || (s.running_of(group_id)
            == s.running_of(other.group_id) && s.queues[group_id][0].id <= other.id),
{
    let i = lemma_queued_stands(s, other);
    assert(s.goes_before(group_id, other.group_id));
    if i > 0 {
        assert(s.queues[other.group_id][0].id < s.queues[other.group_id][i].id);
    }
}

/// The order of arrival decides which group comes next: there is no second choice.
pub proof fn law_pop_is_determined<J>(s: GroupState<J>, g: u64, h: u64)
    requires
        s.wf(),
        s.first_group(g),
        s.first_group(h),
    ensures
        g == h,
{
    assert(s.goes_before(g, h));
    assert(s.goes_before(h, g));
    if g != h {
        assert(s.queues[g][0].id != s.queues[h][0].id);
    }
}

/// The tasks of a group are taken in the order in which they came.
pub proof fn law_group_is_first_in_first_out<J>(
    s: GroupState<J>,
    group_id: u64,
    later: TaskMeta<J>,
)
    requires
        s.wf(),
        s.queues.contains_key(group_id),
        s.popped(group_id).queued().contains(later),
        later.group_id == group_id,
    ensures
        s.queues[group_id][0].id < later.id,
{
    law_pop_takes(s, group_id);
    let i = lemma_queued_stands(s.popped(group_id), later);
    assert(s.queues[group_id][i + 1] == later);
    assert(s.queues[group_id][0].id < s.queues[group_id][i + 1].id);
}

/// No group gets ahead: a task is taken from a group only if no group with queued tasks runs
/// fewer, so afterwards the group runs at most one more than any of them.
pub proof fn law_pop_is_fair<J>(s: GroupState<J>, group_id: u64, other: u64)
    requires
        s.wf(),
        s.first_group(group_id),
        s.queues.contains_key(other),
    ensures
        s.popped(group_id).running_of(group_id) <= s.running_of(other) + 1,
{
    assert(s.goes_before(group_id, other));
}

/// While the task that was taken runs, it can be reported as finished; when it has been, its group
/// runs as many tasks as before.
pub proof fn law_finish_undoes_running<J>(s: GroupState<J>, group_id: u64)
    requires
        s.wf(),
        s.queues.contains_key(group_id),
    ensures
        s.popped(group_id).running.contains_key(group_id),
        s.popped(group_id).finished(group_id).running == s.running,
{
    assert(s.popped(group_id).finished(group_id).running =~= s.running);
}

/// No two queued tasks have the same number.
pub proof fn law_numbers_tell_tasks_apart<J>(s: GroupState<J>, t: TaskMeta<J>, u: TaskMeta<J>)
    requires
        s.wf(),
        s.queued().contains(t),
        s.queued().contains(u),
        t.id == u.id,
    ensures
        t == u,
{
    let i = lemma_queued_stands(s, t);
    let j = lemma_queued_stands(s, u);
    if t.group_id != u.group_id {
        assert(s.queues[t.group_id][i].id != s.queues[u.group_id][j].id);
    } else if i < j {
        assert(s.queues[t.group_id][i].id < s.queues[t.group_id][j].id);
    } else if j < i {
        assert(s.queues[t.group_id][j].id < s.queues[t.group_id][i].id);
    }
}

} // verus!
