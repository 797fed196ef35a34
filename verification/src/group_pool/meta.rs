//! The bookkeeping of a group pool.
use crate::group_pool::laws;
use crate::group_pool::model::GroupState;
use crate::group_pool::task::TaskMeta;
use crate::heap::Heap;
use crate::queues;
use std::collections::{HashMap, HashSet, VecDeque};
use vstd::multiset::Multiset;
use vstd::prelude::*;

verus! {

/// The tasks of a group pool, and how many of them wait and run.
///
/// The first task of a group that has nothing running stands in a heap. All other queued tasks
/// stand in the queue of their group.
pub struct GroupTaskPoolMeta<J> {
    // how many tasks have been pushed; this is also the number of the next one
    total_tasks_num: u64,
    running_tasks_num: usize,
    waiting_tasks_num: usize,
    // group_id => count
    running_tasks: HashMap<u64, usize>,
    // group_id => tasks
    waiting_tasks: HashMap<u64, VecDeque<TaskMeta<J>>>,
    heap: Heap<TaskMeta<J>>,
    // the groups of the tasks in the heap
    heap_group: HashSet<u64>,
}

/// The task of the group in the heap.
spec fn heap_task<J>(heap: Multiset<TaskMeta<J>>, group_id: u64) -> TaskMeta<J> {
    choose|t: TaskMeta<J>| heap.contains(t) && t.group_id == group_id
}

/// The queue of the group in the heap: one task or none.
spec fn heap_queue<J>(
    heap: Multiset<TaskMeta<J>>,
    heap_group: Set<u64>,
    group_id: u64,
) -> Seq<TaskMeta<J>> {
    if heap_group.contains(group_id) {
        seq![heap_task(heap, group_id)]
    } else {
        Seq::empty()
    }
}

/// The heap holds one task for each of the groups, and no other.
spec fn one_task_each<J>(heap: Multiset<TaskMeta<J>>, heap_group: Set<u64>) -> bool {
    &&& forall|t: TaskMeta<J>| #[trigger]
        heap.contains(t) ==> heap_group.contains(t.group_id) && heap.count(t) == 1
    &&& forall|t: TaskMeta<J>, u: TaskMeta<J>|
        #![trigger heap.contains(t), heap.contains(u)]
        heap.contains(t) && heap.contains(u) && t.group_id == u.group_id ==> t == u
    &&& forall|g: u64| #[trigger]
        heap_group.contains(g) ==> heap.contains(heap_task(heap, g)) && heap_task(heap, g).group_id
            == g
}

/// The queues of all groups: what stands in the heap goes first.
spec fn all_queues<J>(
    heap: Multiset<TaskMeta<J>>,
    heap_group: Set<u64>,
    waiting: Map<u64, Seq<TaskMeta<J>>>,
) -> Map<u64, Seq<TaskMeta<J>>> {
    Map::new(
        |g: u64| heap_group.contains(g) || waiting.contains_key(g),
        |g: u64| heap_queue(heap, heap_group, g) + queues::queue_of(waiting, g),
    )
}

proof fn lemma_heap_insert<J>(
    heap: Multiset<TaskMeta<J>>,
    heap_group: Set<u64>,
    task: TaskMeta<J>,
)
    requires
        one_task_each(heap, heap_group),
        !heap_group.contains(task.group_id),
    ensures
        one_task_each(heap.insert(task), heap_group.insert(task.group_id)),
        forall|g: u64| #[trigger]
            heap_queue(heap.insert(task), heap_group.insert(task.group_id), g) == if g
                == task.group_id {
                seq![task]
            } else {
                heap_queue(heap, heap_group, g)
            },
{
    let heap2 = heap.insert(task);
    let group2 = heap_group.insert(task.group_id);
    assert(!heap.contains(task));
    assert forall|t: TaskMeta<J>| #[trigger] heap2.contains(t) implies (t == task || heap.contains(
        t,
    )) && group2.contains(t.group_id) && heap2.count(t) == 1 by {
        assert(t != task ==> heap.contains(t));
    }
    assert forall|g: u64| #[trigger] group2.contains(g) implies heap2.contains(
        heap_task(heap2, g),
    ) && heap_task(heap2, g).group_id == g && heap_task(heap2, g) == if g == task.group_id {
        task
    } else {
        heap_task(heap, g)
    } by {
        if g == task.group_id {
            assert(heap2.contains(task));
        } else {
            assert(heap_group.contains(g));
            assert(heap2.contains(heap_task(heap, g)));
        }
    }
}

proof fn lemma_heap_remove<J>(
    heap: Multiset<TaskMeta<J>>,
    heap_group: Set<u64>,
    task: TaskMeta<J>,
)
    requires
        one_task_each(heap, heap_group),
        heap.contains(task),
    ensures
        one_task_each(heap.remove(task), heap_group.remove(task.group_id)),
        heap_queue(heap, heap_group, task.group_id) == seq![task],
        forall|g: u64| #[trigger]
            heap_queue(heap.remove(task), heap_group.remove(task.group_id), g) == if g
                == task.group_id {
                Seq::empty()
            } else {
                heap_queue(heap, heap_group, g)
            },
{
    let heap2 = heap.remove(task);
    let group2 = heap_group.remove(task.group_id);
    assert(heap_group.contains(task.group_id));
    assert(heap_task(heap, task.group_id) == task);
    assert forall|t: TaskMeta<J>| #[trigger] heap2.contains(t) implies t != task && heap.contains(
        t,
    ) by {}
    assert forall|g: u64| #[trigger] group2.contains(g) implies heap2.contains(
        heap_task(heap2, g),
    ) && heap_task(heap2, g).group_id == g && heap_task(heap2, g) == heap_task(heap, g) by {
        assert(heap_group.contains(g));
        assert(heap2.contains(heap_task(heap, g)));
    }
}

impl<J> View for GroupTaskPoolMeta<J> {
    type V = GroupState<J>;

    closed spec fn view(&self) -> GroupState<J> {
        GroupState {
            next: self.total_tasks_num as nat,
            queues: all_queues(self.heap@, self.heap_group@, self.waiting()),
            running: self.running_tasks@.map_values(|count: usize| count as nat),
        }
    }
}

impl<J> GroupTaskPoolMeta<J> {
    spec fn waiting(&self) -> Map<u64, Seq<TaskMeta<J>>> {
        self.waiting_tasks@.map_values(|tasks: VecDeque<TaskMeta<J>>| tasks@)
    }

    /// What holds inside, apart from what the view shows. The counters tell how many tasks wait and
    /// run. Groups in the heap have nothing running, and a group outside of it has queued tasks only
    /// while others of its tasks run.
    pub closed spec fn inv(&self) -> bool {
        &&& self.waiting_tasks_num == self@.queued().len()
        &&& self.running_tasks_num == self@.total_running()
        &&& self.heap.wf()
        &&& self.heap_group@.finite()
        &&& one_task_each(self.heap@, self.heap_group@)
        &&& forall|g: u64| #[trigger]
            self.heap_group@.contains(g) ==> !self.running_tasks@.contains_key(g)
        &&& forall|g: u64| #[trigger]
            self.waiting().contains_key(g) ==> {
                &&& self.waiting()[g].len() > 0
                &&& self.heap_group@.contains(g) || self.running_tasks@.contains_key(g)
            }
    }

    /// The bookkeeping is in a state that its operations can leave it in.
    pub open spec fn wf(&self) -> bool {
        &&& self.inv()
        &&& self@.wf()
    }

    pub fn new() -> (meta: GroupTaskPoolMeta<J>)
        ensures
            meta.wf(),
            meta@ == GroupState::<J>::empty(),
            meta@.queued().len() == 0,
            meta@.total_running() == 0,
    {
        let meta = GroupTaskPoolMeta {
            total_tasks_num: 0,
            running_tasks_num: 0,
            waiting_tasks_num: 0,
            running_tasks: HashMap::new(),
            waiting_tasks: HashMap::new(),
            heap: Heap::new(),
            heap_group: HashSet::new(),
        };
        proof {
            assert(meta@ =~= GroupState::<J>::empty());
            laws::law_new_pool::<J>();
        }
        meta
    }

    /// Pushes a new task into the pool.
    pub fn push_task(&mut self, group_id: u64, job: J)
        requires
            old(self).wf(),
            old(self)@.next < u64::MAX,
            old(self)@.queued().len() < usize::MAX,
        ensures
            final(self).wf(),
            final(self)@ == old(self)@.pushed(group_id, job),
            final(self)@.queued() == old(self)@.queued().insert(
                old(self)@.next_task(group_id, job),
            ),
            final(self)@.total_running() == old(self)@.total_running(),
    {
        proof {
            laws::law_push_adds(self@, group_id, job);
        }
        let task = TaskMeta::new(self.total_tasks_num, group_id, job);
        self.waiting_tasks_num = self.waiting_tasks_num + 1;
        self.total_tasks_num = self.total_tasks_num + 1;
        if !self.running_tasks.contains_key(&group_id) && !self.heap_group.contains(&group_id) {
            proof {
                lemma_heap_insert(self.heap@, self.heap_group@, task);
            }
            self.heap_group.insert(group_id);
            self.heap.push(task);
            assert(self@.queues =~= old(self)@.pushed(group_id, job).queues);
            return ;
        }
        let group_tasks = self.waiting_tasks.entry(group_id).or_insert(VecDeque::new());
        group_tasks.push_back(task);
        assert(self.waiting() =~= queues::push_back(old(self).waiting(), group_id, task));
        assert(self@.queues =~= old(self)@.pushed(group_id, job).queues);
    }

    /// The number of tasks that have ever been pushed.
    pub fn pushed_task_num(&self) -> (num: u64)
        requires
            self.wf(),
        ensures
            num == self@.next,
    {
        self.total_tasks_num
    }

    /// The number of tasks that wait.
    pub fn waiting_task_num(&self) -> (num: usize)
        requires
            self.wf(),
        ensures
            num == self@.queued().len(),
    {
        self.waiting_tasks_num
    }

    /// The number of tasks that run.
    pub fn running_task_num(&self) -> (num: usize)
        requires
            self.wf(),
        ensures
            num == self@.total_running(),
    {
        self.running_tasks_num
    }

    /// The number of tasks that wait or run.
    pub fn total_task_num(&self) -> (num: usize)
        requires
            self.wf(),
            self@.queued().len() + self@.total_running() <= usize::MAX,
        ensures
            num == self@.queued().len() + self@.total_running(),
    {
        self.waiting_tasks_num + self.running_tasks_num
    }

    /// To be called when one task of the group has finished in a worker. It cleans up the
    /// remaining information of the task in the pool.
    pub fn finished_task(&mut self, group_id: u64)
        requires
            old(self).wf(),
            old(self)@.running.contains_key(group_id),
        ensures
            final(self).wf(),
            final(self)@ == old(self)@.finished(group_id),
            final(self)@.queued() == old(self)@.queued(),
            final(self)@.total_running() == old(self)@.total_running() - 1,
    {
        proof {
            laws::law_finish_stops_one(self@, group_id);
        }
        self.running_tasks_num = self.running_tasks_num - 1;
        let count: usize = *self.running_tasks.get(&group_id).unwrap();
        // if running tasks exist.
        if count > 1 {
            self.running_tasks.insert(group_id, count - 1);
            assert(self@ =~= old(self)@.finished(group_id));
            return ;
        }
        // if no running tasks left.
        self.running_tasks.remove(&group_id);
        assert(self@ =~= old(self)@.finished(group_id));
        if !self.waiting_tasks.contains_key(&group_id) || self.heap_group.contains(&group_id) {
            return ;
        }
        // if waiting tasks exist && group not in heap.
        let front_task = self.pop_waiting_task(group_id);
        proof {
            assert(old(self)@.queues[group_id] =~= old(self).waiting()[group_id]);
            assert(front_task == old(self)@.queues[group_id][0]);
            lemma_heap_insert(self.heap@, self.heap_group@, front_task);
        }
        self.heap.push(front_task);
        self.heap_group.insert(group_id);
        proof {
            let rest = queues::queue_of(self.waiting(), group_id);
            assert(seq![front_task] + rest =~= old(self).waiting()[group_id]);
            assert forall|g: u64| #[trigger] self@.queues.contains_key(g) implies self@.queues[g]
                == old(self)@.queues[g] by {
                assert(self@.queues[g] =~= heap_queue(self.heap@, self.heap_group@, g)
                    + queues::queue_of(self.waiting(), g));
            }
            assert(self@.queues =~= old(self)@.queues);
        }
    }

    /// Takes the first task out of the queue of the group.
    fn pop_waiting_task(&mut self, group_id: u64) -> (task: TaskMeta<J>)
        requires
            old(self).waiting().contains_key(group_id),
            old(self).waiting()[group_id].len() > 0,
        ensures
            task == old(self).waiting()[group_id][0],
            final(self).waiting() == queues::pop_front(old(self).waiting(), group_id),
            final(self).total_tasks_num == old(self).total_tasks_num,
            final(self).running_tasks_num == old(self).running_tasks_num,
            final(self).waiting_tasks_num == old(self).waiting_tasks_num,
            final(self).running_tasks == old(self).running_tasks,
            final(self).heap == old(self).heap,
            final(self).heap_group == old(self).heap_group,
    {
        let mut tasks = self.waiting_tasks.remove(&group_id).unwrap();
        let task = tasks.pop_front().unwrap();
        // A group without waiting tasks has no queue.
        if tasks.len() > 0 {
            self.waiting_tasks.insert(group_id, tasks);
        }
        assert(self.waiting() =~= queues::pop_front(old(self).waiting(), group_id));
        task
    }

    /// Returns the group whose task is the next one to run, out of those that have tasks both
    /// running and queued:
    /// 1. Choose the groups with least running tasks.
    /// 2. If more than one groups has the least running tasks, choose the one whose task comes
    ///    first (with the minimum task's ID).
    pub fn get_next_group(&self) -> (result: Option<u64>)
        requires
            self.wf(),
            forall|g: u64| #[trigger]
                self@.queues.contains_key(g) && !self@.running.contains_key(g)
                    ==> self@.queues[g].len() == 1,
        ensures
            match result {
                Some(group_id) => {
                    &&& self@.queues.contains_key(group_id)
                    &&& self@.running.contains_key(group_id)
                    &&& forall|h: u64| #[trigger]
                        self@.queues.contains_key(h) && self@.running.contains_key(h)
                            ==> self@.goes_before(group_id, h)
                },
                None => forall|h: u64| #[trigger]
                    self@.queues.contains_key(h) ==> !self@.running.contains_key(h),
            },
    {
        // The best group so far, with its count and the number of its first task.
        let mut next_group: Option<(u64, usize, u64)> = None;
        for (group_id, tasks) in it: self.waiting_tasks.iter()
            invariant
                self.wf(),
                forall|g: u64| #[trigger]
                    self@.queues.contains_key(g) && !self@.running.contains_key(g)
                        ==> self@.queues[g].len() == 1,
                match next_group {
                    Some((g, count, front_task_id)) => {
                        &&& self@.queues.contains_key(g)
                        &&& self@.running.contains_key(g)
                        &&& count == self@.running_of(g)
                        &&& front_task_id == self@.queues[g][0].id
                        &&& forall|j: int|
                            0 <= j < it.index() ==> self@.goes_before(
                                g,
                                *(#[trigger] it.seq()[j]).0,
                            )
                    },
                    None => it.index() == 0,
                },
        {
            proof {
                let g = *group_id;
                assert(self.waiting().contains_key(g));
                assert(self@.queues.contains_key(g));
                assert(self@.queues[g].len() == heap_queue(self.heap@, self.heap_group@, g).len()
                    + tasks@.len());
                assert(!self.heap_group@.contains(g));
                assert(self@.queues[g] =~= tasks@);
            }
            let front_task_id: u64 = tasks[0].id;
            let count: usize = *self.running_tasks.get(group_id).unwrap();
            match next_group {
                None => {
                    next_group = Some((*group_id, count, front_task_id));
                },
                Some((_, pre_count, pre_task_id)) => {
                    if pre_count > count || (pre_count == count && pre_task_id > front_task_id) {
                        next_group = Some((*group_id, count, front_task_id));
                    }
                },
            }
        }
        proof {
            assert forall|h: u64| #[trigger]
                self@.queues.contains_key(h) && self@.running.contains_key(h) implies
                self.waiting_tasks@.contains_key(h) by {
                assert(!self.heap_group@.contains(h));
            }
        }
        match next_group {
            Some((group_id, _, _)) => Some(group_id),
            // no tasks in waiting.
            None => None,
        }
    }

    /// Takes the task that runs next. We choose the task according to the following rules:
    /// 1. Choose one group to run: the one with the least running tasks, and of several such
    ///    groups the one whose task comes first.
    /// 2. For the tasks in the selected group, choose the first one in the queue (which means
    ///    comes first).
    pub fn pop_next_task(&mut self) -> (result: Option<(u64, TaskMeta<J>)>)
        requires
            old(self).wf(),
            old(self)@.queued().len() > 0 ==> old(self)@.total_running() < usize::MAX,
        ensures
            final(self).wf(),
            match result {
                Some((group_id, task)) => {
                    &&& old(self)@.first_group(group_id)
                    &&& task == old(self)@.queues[group_id][0]
                    &&& final(self)@ == old(self)@.popped(group_id)
                    &&& old(self)@.queued().contains(task)
                    &&& final(self)@.queued() == old(self)@.queued().remove(task)
                    &&& final(self)@.total_running() == old(self)@.total_running() + 1
                },
                None => old(self)@.queued().len() == 0 && final(self)@ == old(self)@,
            },
    {
        let group_id: u64;
        let task: TaskMeta<J>;
        match self.heap.pop() {
            Some(front_task) => {
                group_id = front_task.group_id;
                task = front_task;
                self.heap_group.remove(&group_id);
                proof {
                    old(self).lemma_heap_goes_first(task);
                    lemma_heap_remove(old(self).heap@, old(self).heap_group@, task);
                    assert(old(self)@.queues[group_id] =~= seq![task] + queues::queue_of(
                        self.waiting(),
                        group_id,
                    ));
                    assert(old(self)@.queues[group_id].drop_first() =~= queues::queue_of(
                        self.waiting(),
                        group_id,
                    ));
                    assert(self@.queues =~= queues::pop_front(old(self)@.queues, group_id));
                }
            },
            None => {
                proof {
                    old(self).lemma_empty_heap();
                    assert(self@ =~= old(self)@);
                }
                match self.get_next_group() {
                    Some(next_group_id) => {
                        group_id = next_group_id;
                        task = self.pop_waiting_task(group_id);
                        assert(self@.queues =~= queues::pop_front(old(self)@.queues, group_id));
                    },
                    None => {
                        proof {
                            assert(self@.queues.dom() =~= Set::empty());
                        }
                        return None;
                    },
                }
            },
        }
        proof {
            laws::law_pop_takes(old(self)@, group_id);
            assert(Multiset::from_map(old(self)@.running).count(group_id) == old(self)@.running_of(
                group_id,
            ));
        }
        // running tasks for group add 1.
        let running_tasks = self.running_tasks.entry(group_id).or_insert(0);
        *running_tasks += 1;
        self.waiting_tasks_num = self.waiting_tasks_num - 1;
        self.running_tasks_num = self.running_tasks_num + 1;
        assert(self@ =~= old(self)@.popped(group_id));
        Some((group_id, task))
    }

    /// The group of a task with the least number in the heap is the one that goes before all
    /// others.
    proof fn lemma_heap_goes_first(&self, task: TaskMeta<J>)
        requires
            self.wf(),
            self.heap@.contains(task),
            forall|t: TaskMeta<J>| #[trigger] self.heap@.contains(t) ==> task.id <= t.id,
        ensures
            self@.first_group(task.group_id),
            self@.queues[task.group_id][0] == task,
    {
        let s = self@;
        let g = task.group_id;
        assert(self.heap_group@.contains(g));
        assert(heap_task(self.heap@, g) == task);
        assert(s.queues[g][0] == task);
        assert forall|h: u64| #[trigger] s.queues.contains_key(h) implies s.goes_before(g, h) by {
            if !s.running.contains_key(h) {
                assert(self.heap_group@.contains(h));
                assert(s.queues[h][0] == heap_task(self.heap@, h));
            }
        }
    }

    /// While the heap is empty, every group with queued tasks has tasks running, and its tasks
    /// stand in the queue of the group.
    proof fn lemma_empty_heap(&self)
        requires
            self.wf(),
            self.heap@.len() == 0,
        ensures
            self.heap_group@ == Set::<u64>::empty(),
            self@.queues == self.waiting(),
            forall|g: u64| #[trigger]
                self@.queues.contains_key(g) ==> self@.running.contains_key(g),
    {
        assert forall|g: u64| !self.heap_group@.contains(g) by {
            if self.heap_group@.contains(g) {
                assert(self.heap@.contains(heap_task(self.heap@, g)));
            }
        }
        assert(self.heap_group@ =~= Set::<u64>::empty());
        assert forall|g: u64| #[trigger] self@.queues.contains_key(g) implies self@.queues[g]
            == self.waiting()[g] by {
            assert(self@.queues[g] =~= self.waiting()[g]);
        }
        assert(self@.queues =~= self.waiting());
    }
}

} // verus!
