//! What a group pool does, told by its calls alone: from what went in and what came out, without a
//! look inside.
use crate::group_pool::laws;
use crate::group_pool::model::GroupState;
use crate::group_pool::task::TaskMeta;
use vstd::multiset::Multiset;
use vstd::prelude::*;

verus! {

/// A call, with what it was given or what it returned.
pub enum Call<J> {
    Push(u64, J),
    Pop(Option<(u64, TaskMeta<J>)>),
    Finish(u64),
}

/// How many jobs have been pushed.
pub open spec fn pushes<J>(calls: Seq<Call<J>>) -> nat
    decreases calls.len(),
{
    if calls.len() == 0 {
        0
    } else if calls.last() is Push {
        pushes(calls.drop_last()) + 1
    } else {
        pushes(calls.drop_last())
    }
}

/// The tasks that have been pushed and have not come out. The number of a task tells how many were
/// pushed before it.
pub open spec fn outstanding<J>(calls: Seq<Call<J>>) -> Multiset<TaskMeta<J>>
    decreases calls.len(),
{
    if calls.len() == 0 {
        Multiset::empty()
    } else {
        match calls.last() {
            Call::Push(group_id, job) => outstanding(calls.drop_last()).insert(
                TaskMeta { id: pushes(calls.drop_last()) as u64, group_id, task: job },
            ),
            Call::Pop(Some((_, task))) => outstanding(calls.drop_last()).remove(task),
            _ => outstanding(calls.drop_last()),
        }
    }
}

/// The tasks of the group that have come out and have not been reported as finished.
pub open spec fn in_progress<J>(calls: Seq<Call<J>>, group_id: u64) -> int
    decreases calls.len(),
{
    if calls.len() == 0 {
        0
    } else {
        match calls.last() {
            Call::Pop(Some((_, task))) if task.group_id == group_id => in_progress(
                calls.drop_last(),
                group_id,
            ) + 1,
            Call::Finish(g) if g == group_id => in_progress(calls.drop_last(), group_id) - 1,
            _ => in_progress(calls.drop_last(), group_id),
        }
    }
}

/// The tasks of all groups that have come out and have not been reported as finished.
pub open spec fn all_in_progress<J>(calls: Seq<Call<J>>) -> int
    decreases calls.len(),
{
    if calls.len() == 0 {
        0
    } else {
        match calls.last() {
            Call::Pop(Some(_)) => all_in_progress(calls.drop_last()) + 1,
            Call::Finish(_) => all_in_progress(calls.drop_last()) - 1,
            _ => all_in_progress(calls.drop_last()),
        }
    }
}

/// `task` may come out after these calls: its group has the fewest tasks in progress of all groups
/// with outstanding tasks, and it came first among the tasks of the groups with as few.
pub open spec fn is_due<J>(calls: Seq<Call<J>>, task: TaskMeta<J>) -> bool {
    &&& outstanding(calls).contains(task)
    &&& forall|t: TaskMeta<J>| #[trigger]
        outstanding(calls).contains(t) ==> {
            &&& in_progress(calls, task.group_id) <= in_progress(calls, t.group_id)
            &&& in_progress(calls, task.group_id) == in_progress(calls, t.group_id) ==> task.id
                <= t.id
        }
}

/// A pop gives `result` and leaves `after`.
pub open spec fn pop_leads_to<J>(
    s: GroupState<J>,
    result: Option<(u64, TaskMeta<J>)>,
    after: GroupState<J>,
) -> bool {
    match result {
        Some((group_id, task)) => {
            &&& s.first_group(group_id)
            &&& task == s.queues[group_id][0]
            &&& after == s.popped(group_id)
        },
        None => s.queued().len() == 0 && after == s,
    }
}

/// The call leads from `s` to `after`.
pub open spec fn leads_to<J>(s: GroupState<J>, call: Call<J>, after: GroupState<J>) -> bool {
    match call {
        Call::Push(group_id, job) => s.next < u64::MAX && after == s.pushed(group_id, job),
        Call::Pop(result) => pop_leads_to(s, result, after),
        Call::Finish(group_id) => s.running.contains_key(group_id) && after == s.finished(group_id),
    }
}

/// `states` are the states that a new pool goes through.
pub open spec fn goes_through<J>(calls: Seq<Call<J>>, states: Seq<GroupState<J>>) -> bool {
    &&& states.len() == calls.len() + 1
    &&& states[0] == GroupState::<J>::empty()
    &&& forall|i: int|
        0 <= i < calls.len() ==> leads_to(#[trigger] states[i], calls[i], states[i + 1])
}

/// The pool, told by its calls alone. Its totals give the outstanding tasks and those in progress,
/// the next job gets the number of the jobs before it, and a task of a group can be reported as
/// finished exactly if one is in progress.
pub proof fn law_pool_counts_its_tasks<J>(calls: Seq<Call<J>>, states: Seq<GroupState<J>>)
    requires
        goes_through(calls, states),
    ensures
        states.last().wf(),
        states.last().next == pushes(calls),
        pushes(calls) <= u64::MAX,
        states.last().queued() == outstanding(calls),
        states.last().total_running() == all_in_progress(calls),
        forall|g: u64| #[trigger]
            in_progress(calls, g) == if states.last().running.contains_key(g) {
                states.last().running[g] as int
            } else {
                0
            },
        forall|g: u64| #[trigger]
            states.last().running.contains_key(g) <==> in_progress(calls, g) > 0,
    decreases calls.len(),
{
    if calls.len() == 0 {
        laws::law_new_pool::<J>();
        assert(states[0].queued() =~= Multiset::empty());
    } else {
        let past = calls.drop_last();
        let n = past.len() as int;
        let before = states.drop_last();
        assert forall|i: int| 0 <= i < past.len() implies leads_to(
            #[trigger] before[i],
            past[i],
            before[i + 1],
        ) by {
            assert(leads_to(states[i], calls[i], states[i + 1]));
        }
        law_pool_counts_its_tasks(past, before);
        let s = states[n];
        let after = states.last();
        assert(before.last() == s);
        assert(leads_to(states[n], calls[n], states[n + 1]));
        match calls.last() {
            Call::Push(group_id, job) => {
                laws::law_push_adds(s, group_id, job);
                assert(s.next_task(group_id, job) == (TaskMeta {
                    id: pushes(past) as u64,
                    group_id,
                    task: job,
                }));
            },
            Call::Pop(Some((group_id, task))) => {
                laws::law_pop_takes(s, group_id);
                assert(task.group_id == group_id);
            },
            Call::Pop(None) => {},
            Call::Finish(group_id) => {
                laws::law_finish_stops_one(s, group_id);
            },
        }
        assert forall|g: u64| #[trigger]
            in_progress(calls, g) == if after.running.contains_key(g) {
                after.running[g] as int
            } else {
                0
            } by {
            assert(in_progress(past, g) == if s.running.contains_key(g) {
                s.running[g] as int
            } else {
                0
            });
        }
        assert forall|g: u64| #[trigger] after.running.contains_key(g) implies in_progress(calls, g)
            > 0 by {
            assert(after.running[g] > 0);
        }
    }
}

/// The schedule, told by the calls alone. Whatever has been pushed, taken and finished: a pop gives
/// a task exactly if one is outstanding, it gives the one that is due, and it names its group.
pub proof fn law_pop_gives_the_task_that_is_due<J>(
    calls: Seq<Call<J>>,
    states: Seq<GroupState<J>>,
    result: Option<(u64, TaskMeta<J>)>,
    after: GroupState<J>,
)
    requires
        goes_through(calls, states),
        pop_leads_to(states.last(), result, after),
    ensures
        result is Some <==> outstanding(calls).len() > 0,
        match result {
            Some((group_id, task)) => is_due(calls, task) && group_id == task.group_id,
            None => true,
        },
{
    law_pool_counts_its_tasks(calls, states);
    let s = states.last();
    if let Some((group_id, task)) = result {
        laws::law_pop_takes(s, group_id);
        assert(task.group_id == group_id);
        assert(outstanding(calls).len() > 0);
        assert forall|t: TaskMeta<J>| #[trigger] outstanding(calls).contains(t) implies {
            &&& in_progress(calls, task.group_id) <= in_progress(calls, t.group_id)
            &&& in_progress(calls, task.group_id) == in_progress(calls, t.group_id) ==> task.id
                <= t.id
        } by {
            laws::law_pop_follows_schedule(s, group_id, t);
        }
    }
}

/// The choice is never open: at most one task is due.
pub proof fn law_one_task_is_due<J>(
    calls: Seq<Call<J>>,
    states: Seq<GroupState<J>>,
    task1: TaskMeta<J>,
    task2: TaskMeta<J>,
)
    requires
        goes_through(calls, states),
        is_due(calls, task1),
        is_due(calls, task2),
    ensures
        task1 == task2,
{
    law_pool_counts_its_tasks(calls, states);
    laws::law_numbers_tell_tasks_apart(states.last(), task1, task2);
}

} // verus!
