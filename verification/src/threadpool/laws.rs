//! What holds of the throttling queue as a whole.
use crate::queues;
use crate::threadpool::model::ThrottledState;
use crate::threadpool::task::Task;
use vstd::multiset::Multiset;
use vstd::prelude::*;

verus! {

/// A push adds exactly the pushed task to the queued ones.
pub proof fn law_push_adds<T, J>(s: ThrottledState<T, J>, task: Task<T, J>)
    requires
        s.wf(),
    ensures
        s.pushed(task).wf(),
        s.pushed(task).queued() == s.queued().insert(task),
{
    queues::lemma_bag_push(s.waiting, task.group_id, task);
    let after = s.pushed(task);
    assert(after.queued() =~= s.queued().insert(task));
    assert forall|t: Task<T, J>| #[trigger] after.pending.contains(t) implies after.count(
        t.group_id,
    ) <= after.limit by {
        if t != task {
            assert(s.pending.contains(t));
        }
    }
}

/// A pop takes exactly the task that it gives out of the queued ones.
pub proof fn law_pop_takes<T, J>(
    s: ThrottledState<T, J>,
    task: Task<T, J>,
    after: ThrottledState<T, J>,
)
    requires
        s.wf(),
        s.pops(Some(task), after),
    ensures
        after.wf(),
        s.queued().contains(task),
        after.queued() == s.queued().remove(task),
{
    let g = task.group_id;
    if s.pending.len() > 0 {
        assert forall|t: Task<T, J>| #[trigger] after.pending.contains(t) implies after.count(
            t.group_id,
        ) <= after.limit by {
            assert(s.pending.contains(t));
        }
    } else {
        queues::lemma_bag_pop(s.waiting, g);
        assert(s.pending =~= Multiset::empty());
    }
    assert(after.queued() =~= s.queued().remove(task));
}

/// Reporting a task as finished takes no task away and brings none in.
pub proof fn law_finish_keeps_queued<T, J>(s: ThrottledState<T, J>, g: T)
    requires
        s.wf(),
        s.can_finish(g),
    ensures
        s.finished(g).wf(),
        s.finished(g).queued() == s.queued(),
{
    let after = s.finished(g);
    if s.count(g) <= s.limit && s.waiting.contains_key(g) {
        queues::lemma_bag_pop(s.waiting, g);
    }
    assert(after.queued() =~= s.queued());
    assert forall|t: Task<T, J>| #[trigger] after.pending.contains(t) implies after.count(
        t.group_id,
    ) <= after.limit by {
        if s.pending.contains(t) {
        } else {
            assert(t == s.waiting[g][0]);
        }
    }
}

/// The queue has no task exactly if nothing is pending and nothing waits.
pub proof fn law_empty_without_tasks<T, J>(s: ThrottledState<T, J>)
    requires
        s.wf(),
    ensures
        s.is_empty() <==> s.queued().len() == 0,
{
    if s.is_empty() {
        assert(s.waiting.dom() =~= Set::empty());
    } else if exists|g: T| s.waiting.contains_key(g) {
        let g = choose|g: T| s.waiting.contains_key(g);
        queues::lemma_bag_pop(s.waiting, g);
    }
}

/// A worker that asks gets a task exactly if there is one.
pub proof fn law_pop_never_idles<T, J>(
    s: ThrottledState<T, J>,
    result: Option<Task<T, J>>,
    after: ThrottledState<T, J>,
)
    requires
        s.wf(),
        s.pops(result, after),
    ensures
        result is Some <==> s.queued().len() > 0,
{
    law_empty_without_tasks(s);
    if result is Some {
        law_pop_takes(s, result->0, after);
    }
}

/// A new queue is empty, and nothing of it runs.
pub proof fn law_new_queue<T, J>(limit: nat, next: int)
    ensures
        ThrottledState::<T, J>::empty(limit).wf(),
        ThrottledState::<T, J>::empty(limit).accounted(),
        ThrottledState::<T, J>::empty(limit).numbered(next),
        ThrottledState::<T, J>::empty(limit).queued().len() == 0,
        ThrottledState::<T, J>::empty(limit).total_running() == 0,
{
    let s = ThrottledState::<T, J>::empty(limit);
    assert(s.queued() =~= Multiset::empty());
    assert(Multiset::from_map(s.concurrency) =~= Multiset::empty());
    assert forall|g: T| #[trigger] s.pending_of(g) <= s.count(g) by {
        assert(s.pending.filter(|task: Task<T, J>| task.group_id == g) =~= Multiset::empty());
    }
}

proof fn lemma_pending_of_insert<T, J>(
    s: ThrottledState<T, J>,
    after: ThrottledState<T, J>,
    task: Task<T, J>,
    g: T,
)
    requires
        after.pending == s.pending.insert(task),
    ensures
        after.pending_of(g) == s.pending_of(g) + if task.group_id == g {
            1nat
        } else {
            0
        },
{
    let of_group = |t: Task<T, J>| t.group_id == g;
    if task.group_id == g {
        assert(after.pending.filter(of_group) =~= s.pending.filter(of_group).insert(task));
    } else {
        assert(after.pending.filter(of_group) =~= s.pending.filter(of_group));
    }
}

proof fn lemma_pending_of_some<T, J>(s: ThrottledState<T, J>, g: T)
    ensures
        s.pending_of(g) > 0 <==> exists|t: Task<T, J>| #[trigger]
            s.pending.contains(t) && t.group_id == g,
{
    let of_group = s.pending.filter(|t: Task<T, J>| t.group_id == g);
    if s.pending_of(g) > 0 {
        let t = of_group.choose();
        assert(of_group.contains(t));
        assert(s.pending.contains(t));
    }
    if exists|t: Task<T, J>| #[trigger] s.pending.contains(t) && t.group_id == g {
        let t = choose|t: Task<T, J>| #[trigger] s.pending.contains(t) && t.group_id == g;
        assert(of_group.count(t) > 0);
    }
}

proof fn lemma_total_up<T>(m: Map<T, nat>, g: T, n: nat)
    requires
        m.dom().finite(),
        n == if m.contains_key(g) {
            m[g]
        } else {
            0
        },
    ensures
        Multiset::from_map(m.insert(g, n + 1)) == Multiset::from_map(m).insert(g),
{
    assert(Multiset::from_map(m.insert(g, n + 1)) =~= Multiset::from_map(m).insert(g));
}

/// A push lets no task run and stops none.
pub proof fn law_push_runs_nothing<T, J>(s: ThrottledState<T, J>, task: Task<T, J>)
    requires
        s.wf(),
    ensures
        forall|g: T| #[trigger] s.pushed(task).running(g) == s.running(g),
        s.pushed(task).total_running() == s.total_running(),
        s.accounted() ==> s.pushed(task).accounted(),
{
    let after = s.pushed(task);
    let g = task.group_id;
    let n = s.count(g);
    if n < s.limit {
        lemma_total_up(s.concurrency, g, n);
        assert forall|h: T| #[trigger] after.running(h) == s.running(h) by {
            lemma_pending_of_insert(s, after, task, h);
        }
    } else if s.concurrency.contains_key(g) {
        assert(s.concurrency.insert(g, n) =~= s.concurrency);
    } else {
        assert(Multiset::from_map(s.concurrency.insert(g, 0)) =~= Multiset::from_map(
            s.concurrency,
        ));
    }
    if s.accounted() {
        assert forall|h: T| #[trigger] after.pending_of(h) <= after.count(h) by {
            assert(after.running(h) == s.running(h));
            assert(s.pending_of(h) <= s.count(h));
        }
    }
}

/// A pop lets one more task of the group run that it takes the task from, and touches no other
/// group.
pub proof fn law_pop_runs_one<T, J>(
    s: ThrottledState<T, J>,
    task: Task<T, J>,
    after: ThrottledState<T, J>,
)
    requires
        s.wf(),
        s.pops(Some(task), after),
    ensures
        forall|g: T| #[trigger]
            after.running(g) == s.running(g) + if g == task.group_id {
                1int
            } else {
                0
            },
        after.total_running() == s.total_running() + 1,
        s.accounted() ==> after.accounted(),
{
    let g = task.group_id;
    if s.pending.len() > 0 {
        assert(after.pending.insert(task) =~= s.pending);
        assert forall|h: T| #[trigger]
            after.running(h) == s.running(h) + if h == g {
                1int
            } else {
                0
            } by {
            lemma_pending_of_insert(after, s, task, h);
        }
    } else {
        lemma_total_up(s.concurrency, g, s.count(g));
    }
    if s.accounted() {
        assert forall|h: T| #[trigger] after.pending_of(h) <= after.count(h) by {
            assert(after.running(h) >= s.running(h));
            assert(s.pending_of(h) <= s.count(h));
        }
    }
}

/// Reporting a task as finished leaves one running task less in its group, and touches no other
/// group. As long as the task was running, the counts stay right.
pub proof fn law_finish_stops_one<T, J>(s: ThrottledState<T, J>, g: T)
    requires
        s.wf(),
        s.can_finish(g),
    ensures
        forall|h: T| #[trigger]
            s.finished(g).running(h) == s.running(h) - if h == g {
                1int
            } else {
                0
            },
        s.finished(g).total_running() == s.total_running() - 1,
        s.accounted() && s.running(g) > 0 ==> s.finished(g).accounted(),
{
    let after = s.finished(g);
    if s.count(g) <= s.limit && s.waiting.contains_key(g) {
        let task = s.waiting[g][0];
        assert(task.group_id == g);
        assert forall|h: T| #[trigger]
            after.running(h) == s.running(h) - if h == g {
                1int
            } else {
                0
            } by {
            lemma_pending_of_insert(s, after, task, h);
        }
    } else {
        let all = Multiset::from_map(s.concurrency);
        assert(all.count(g) == s.count(g));
        assert(Multiset::from_map(after.concurrency) =~= all.remove(g));
    }
    if s.accounted() && s.running(g) > 0 {
        assert forall|h: T| #[trigger] after.pending_of(h) <= after.count(h) by {
            assert(after.running(h) >= if h == g {
                0
            } else {
                s.running(h)
            });
            assert(s.pending_of(h) <= s.count(h));
        }
    }
}

/// A waiting task is queued.
proof fn lemma_waiting_is_queued<T, J>(s: ThrottledState<T, J>, g: T, i: int)
    requires
        s.wf(),
        s.waiting.contains_key(g),
        0 <= i < s.waiting[g].len(),
    ensures
        s.queued().contains(s.waiting[g][i]),
{
    queues::lemma_bag_contains(s.waiting, s.waiting[g][i]);
    assert(s.waiting[g].contains(s.waiting[g][i]));
}

/// A queued task is pending or waits in the queue of its group.
proof fn lemma_queued_stands<T, J>(s: ThrottledState<T, J>, task: Task<T, J>)
    requires
        s.wf(),
        s.queued().contains(task),
    ensures
        s.pending.contains(task) || (s.waiting.contains_key(task.group_id)
            && s.waiting[task.group_id].contains(task)),
{
    if !s.pending.contains(task) {
        queues::lemma_bag_contains(s.waiting, task);
        let g = choose|g: T| #[trigger] s.waiting.contains_key(g) && s.waiting[g].contains(task);
        let i = choose|i: int| 0 <= i < s.waiting[g].len() && s.waiting[g][i] == task;
        assert(s.waiting[g][i].group_id == g);
    }
}

/// The throttle: a group with a pending task runs fewer tasks than the limit, and a group that
/// runs fewer has a pending task as soon as it has any.
pub proof fn law_pending_is_under_the_limit<T, J>(s: ThrottledState<T, J>, task: Task<T, J>)
    requires
        s.wf(),
        s.accounted(),
        s.queued().contains(task),
    ensures
        s.running(task.group_id) < s.limit <==> s.pending_of(task.group_id) > 0,
{
    let g = task.group_id;
    lemma_queued_stands(s, task);
    lemma_pending_of_some(s, g);
    if s.pending_of(g) > 0 {
        let t = choose|t: Task<T, J>| #[trigger] s.pending.contains(t) && t.group_id == g;
        assert(s.count(g) <= s.limit);
    }
}

/// The schedule. While groups that run fewer tasks than the limit have tasks queued, the task
/// that came first among theirs is taken. When there is no such group, the task is taken from a
/// group with the least running tasks, and it came first among the tasks of these groups.
pub proof fn law_pop_follows_schedule<T, J>(
    s: ThrottledState<T, J>,
    next: int,
    task: Task<T, J>,
    after: ThrottledState<T, J>,
)
    requires
        s.wf(),
        s.accounted(),
        s.numbered(next),
        s.pops(Some(task), after),
    ensures
        (exists|t: Task<T, J>| #[trigger]
            s.queued().contains(t) && s.running(t.group_id) < s.limit) ==> {
            &&& s.running(task.group_id) < s.limit
            &&& forall|t: Task<T, J>| #[trigger]
                s.queued().contains(t) && s.running(t.group_id) < s.limit ==> task.id <= t.id
        },
        (forall|t: Task<T, J>| #[trigger]
            s.queued().contains(t) ==> s.running(t.group_id) >= s.limit) ==> forall|
            t: Task<T, J>,
        | #[trigger]
            s.queued().contains(t) ==> {
                ||| s.running(task.group_id) < s.running(t.group_id)
                ||| s.running(task.group_id) == s.running(t.group_id) && task.id <= t.id
            },
{
    law_pop_takes(s, task, after);
    law_pending_is_under_the_limit(s, task);
    lemma_pending_of_some(s, task.group_id);
    if s.pending.len() > 0 {
        assert forall|t: Task<T, J>| #[trigger]
            s.queued().contains(t) && s.running(t.group_id) < s.limit implies task.id <= t.id by {
            let g = t.group_id;
            lemma_queued_stands(s, t);
            law_pending_is_under_the_limit(s, t);
            lemma_pending_of_some(s, g);
            if !s.pending.contains(t) {
                let p = choose|p: Task<T, J>| #[trigger] s.pending.contains(p) && p.group_id == g;
                let i = choose|i: int| 0 <= i < s.waiting[g].len() && s.waiting[g][i] == t;
                assert(p.id < s.waiting[p.group_id][i].id);
            }
        }
    } else {
        assert forall|t: Task<T, J>| #[trigger] s.queued().contains(t) implies {
            &&& s.running(t.group_id) >= s.limit
            &&& {
                ||| s.running(task.group_id) < s.running(t.group_id)
                ||| s.running(task.group_id) == s.running(t.group_id) && task.id <= t.id
            }
        } by {
            let g = t.group_id;
            lemma_queued_stands(s, t);
            law_pending_is_under_the_limit(s, t);
            lemma_pending_of_some(s, g);
            assert(!s.pending.contains(t));
            let i = choose|i: int| 0 <= i < s.waiting[g].len() && s.waiting[g][i] == t;
            assert(s.goes_before(task.group_id, g));
            if i > 0 {
                assert(s.waiting[g][0].id < s.waiting[g][i].id);
            }
        }
    }
}

/// A group gets beyond the limit only when the groups that have tasks queued are all busy: none of
/// them runs fewer tasks than the limit.
pub proof fn law_limit_yields_only_when_all_are_busy<T, J>(
    s: ThrottledState<T, J>,
    next: int,
    task: Task<T, J>,
    after: ThrottledState<T, J>,
    other: Task<T, J>,
)
    requires
        s.wf(),
        s.accounted(),
        s.numbered(next),
        s.pops(Some(task), after),
        after.running(task.group_id) > s.limit,
        s.queued().contains(other),
    ensures
        s.running(other.group_id) >= s.limit,
{
    law_pop_follows_schedule(s, next, task, after);
    law_pop_runs_one(s, task, after);
}

/// A task that gets a number beyond all given ones keeps the numbers in the order of arrival.
pub proof fn law_push_keeps_order<T, J>(s: ThrottledState<T, J>, next: int, task: Task<T, J>)
    requires
        s.wf(),
        s.numbered(next),
        next <= task.id,
    ensures
        s.pushed(task).numbered(task.id + 1),
{
    let after = s.pushed(task);
    let g = task.group_id;
    law_push_adds(s, task);
    assert(!s.queued().contains(task));
    assert forall|t: Task<T, J>| #[trigger] after.queued().contains(t) implies t.id < task.id + 1
        && after.queued().count(t) == 1 by {
        if t != task {
            assert(s.queued().contains(t));
        }
    }
    assert forall|t: Task<T, J>, u: Task<T, J>|
        #![trigger after.queued().contains(t), after.queued().contains(u)]
        after.queued().contains(t) && after.queued().contains(u) && t.id == u.id implies t == u by {
        assert(t != task ==> s.queued().contains(t));
        assert(u != task ==> s.queued().contains(u));
    }
    assert forall|h: T, i: int, j: int|
        #![trigger after.waiting[h][i], after.waiting[h][j]]
        after.waiting.contains_key(h) && 0 <= i < j < after.waiting[h].len() implies
        after.waiting[h][i].id < after.waiting[h][j].id by {
        if s.waiting.contains_key(h) {
            lemma_waiting_is_queued(s, h, i);
            if j < s.waiting[h].len() {
                assert(s.waiting[h][i].id < s.waiting[h][j].id);
            }
        }
    }
    assert forall|t: Task<T, J>, i: int|
        #![trigger after.pending.contains(t), after.waiting[t.group_id][i]]
        after.pending.contains(t) && after.waiting.contains_key(t.group_id) && 0 <= i
            < after.waiting[t.group_id].len() implies t.id < after.waiting[t.group_id][i].id by {
        if s.pending.contains(t) {
            assert(s.queued().contains(t));
            if s.waiting.contains_key(t.group_id) && i < s.waiting[t.group_id].len() {
                assert(t.id < s.waiting[t.group_id][i].id);
            }
        }
    }
}

/// Where waiting tasks leave from the front, the order of arrival is kept.
proof fn lemma_shorter_queues_keep_order<T, J>(
    s: ThrottledState<T, J>,
    after: ThrottledState<T, J>,
    g: T,
    next: int,
)
    requires
        s.wf(),
        s.numbered(next),
        s.waiting.contains_key(g),
        after.waiting == queues::pop_front(s.waiting, g),
        forall|t: Task<T, J>| #[trigger]
            after.queued().contains(t) ==> s.queued().contains(t) && after.queued().count(t)
                <= s.queued().count(t),
        forall|t: Task<T, J>| #[trigger]
            after.pending.contains(t) ==> s.pending.contains(t) || t == s.waiting[g][0],
    ensures
        after.numbered(next),
{
    assert forall|h: T, i: int, j: int|
        #![trigger after.waiting[h][i], after.waiting[h][j]]
        after.waiting.contains_key(h) && 0 <= i < j < after.waiting[h].len() implies
        after.waiting[h][i].id < after.waiting[h][j].id by {
        if h == g {
            assert(s.waiting[h][i + 1].id < s.waiting[h][j + 1].id);
        } else {
            assert(s.waiting[h][i].id < s.waiting[h][j].id);
        }
    }
    assert forall|t: Task<T, J>, i: int|
        #![trigger after.pending.contains(t), after.waiting[t.group_id][i]]
        after.pending.contains(t) && after.waiting.contains_key(t.group_id) && 0 <= i
            < after.waiting[t.group_id].len() implies t.id < after.waiting[t.group_id][i].id by {
        let h = t.group_id;
        let k = if h == g {
            i + 1
        } else {
            i
        };
        assert(after.waiting[h][i] == s.waiting[h][k]);
        if s.pending.contains(t) {
            assert(t.id < s.waiting[t.group_id][k].id);
        } else {
            assert(s.waiting[g][0].group_id == g);
            assert(s.waiting[g][0].id < s.waiting[g][k].id);
        }
    }
}

/// A pop keeps the numbers in the order of arrival.
pub proof fn law_pop_keeps_order<T, J>(
    s: ThrottledState<T, J>,
    next: int,
    task: Task<T, J>,
    after: ThrottledState<T, J>,
)
    requires
        s.wf(),
        s.numbered(next),
        s.pops(Some(task), after),
    ensures
        after.numbered(next),
{
    law_pop_takes(s, task, after);
    assert forall|t: Task<T, J>| #[trigger] after.queued().contains(t) implies s.queued().contains(
        t,
    ) && after.queued().count(t) <= s.queued().count(t) by {}
    if s.pending.len() > 0 {
        assert forall|t: Task<T, J>, i: int|
            #![trigger after.pending.contains(t), after.waiting[t.group_id][i]]
            after.pending.contains(t) && after.waiting.contains_key(t.group_id) && 0 <= i
                < after.waiting[t.group_id].len() implies t.id
            < after.waiting[t.group_id][i].id by {
            assert(s.pending.contains(t));
        }
    } else {
        lemma_shorter_queues_keep_order(s, after, task.group_id, next);
    }
}

/// Reporting a task as finished keeps the numbers in the order of arrival.
pub proof fn law_finish_keeps_order<T, J>(s: ThrottledState<T, J>, next: int, g: T)
    requires
        s.wf(),
        s.numbered(next),
        s.can_finish(g),
    ensures
        s.finished(g).numbered(next),
{
    let after = s.finished(g);
    law_finish_keeps_queued(s, g);
    if s.count(g) <= s.limit && s.waiting.contains_key(g) {
        assert forall|t: Task<T, J>| #[trigger] after.pending.contains(t) implies
            s.pending.contains(t) || t == s.waiting[g][0] by {}
        lemma_shorter_queues_keep_order(s, after, g, next);
    }
}

/// The tasks of a group are taken in the order in which they came.
pub proof fn law_group_is_first_in_first_out<T, J>(
    s: ThrottledState<T, J>,
    next: int,
    task: Task<T, J>,
    after: ThrottledState<T, J>,
    later: Task<T, J>,
)
    requires
        s.wf(),
        s.numbered(next),
        s.pops(Some(task), after),
        after.queued().contains(later),
        later.group_id == task.group_id,
    ensures
        task.id < later.id,
{
    let g = task.group_id;
    law_pop_takes(s, task, after);
    law_pop_keeps_order(s, next, task, after);
    assert(s.queued().contains(later));
    assert(after.queued().count(task) == 0);
    lemma_queued_stands(after, later);
    if after.pending.contains(later) {
        assert(s.pending.contains(later));
        assert(s.pending.len() > 0);
    } else {
        let i = choose|i: int| 0 <= i < after.waiting[g].len() && after.waiting[g][i] == later;
        if s.pending.len() > 0 {
            assert(task.id < s.waiting[task.group_id][i].id);
        } else {
            assert(s.waiting[g][i + 1] == later);
            assert(s.waiting[g][0].id < s.waiting[g][i + 1].id);
        }
    }
}

/// The order of arrival decides which task is taken: there is no second choice.
pub proof fn law_pop_is_determined<T, J>(
    s: ThrottledState<T, J>,
    next: int,
    result1: Option<Task<T, J>>,
    after1: ThrottledState<T, J>,
    result2: Option<Task<T, J>>,
    after2: ThrottledState<T, J>,
)
    requires
        s.wf(),
        s.numbered(next),
        s.pops(result1, after1),
        s.pops(result2, after2),
    ensures
        result1 == result2,
        after1 == after2,
{
    law_pop_never_idles(s, result1, after1);
    law_pop_never_idles(s, result2, after2);
    if result1 is Some {
        law_pop_takes(s, result1->0, after1);
        law_pop_takes(s, result2->0, after2);
        if s.pending.len() == 0 {
            assert(s.goes_before(result1->0.group_id, result2->0.group_id));
            assert(s.goes_before(result2->0.group_id, result1->0.group_id));
        }
        assert(result1->0.id == result2->0.id);
    }
}

} // verus!
