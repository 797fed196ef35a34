//! What a worker of a group pool does around each task.
use crate::group_pool::meta::GroupTaskPoolMeta;
use crate::group_pool::task::TaskMeta;
use vstd::prelude::*;

verus! {

/// One worker of a group pool.
///
/// Whenever it is told that there is a task, it takes one with [`Worker::get_next_task`], runs it
/// and reports it with [`Worker::finish_task`]. It has the lock of the pool for each of the two
/// calls, and not in between.
pub struct Worker {
    /// The group of the task that it runs.
    pub running_task_group: Option<u64>,
}

impl Worker {
    pub fn new() -> (worker: Worker)
        ensures
            worker.running_task_group is None,
    {
        Worker { running_task_group: None }
    }

    /// Takes the task that runs next, if there is one.
    pub fn get_next_task<J>(&mut self, pool_meta: &mut GroupTaskPoolMeta<J>) -> (result: Option<
        TaskMeta<J>,
    >)
        requires
            old(pool_meta).wf(),
            old(pool_meta)@.queued().len() > 0 ==> old(pool_meta)@.total_running() < usize::MAX,
        ensures
            final(pool_meta).wf(),
            match result {
                Some(task) => {
                    &&& old(pool_meta)@.first_group(task.group_id)
                    &&& task == old(pool_meta)@.queues[task.group_id][0]
                    &&& final(pool_meta)@ == old(pool_meta)@.popped(task.group_id)
                    &&& final(self).running_task_group == Some(task.group_id)
                },
                None => {
                    &&& old(pool_meta)@.queued().len() == 0
                    &&& final(pool_meta)@ == old(pool_meta)@
                    &&& final(self).running_task_group is None
                },
            },
    {
        match pool_meta.pop_next_task() {
            Some((group_id, task)) => {
                self.running_task_group = Some(group_id);
                Some(task)
            },
            None => {
                self.running_task_group = None;
                None
            },
        }
    }

    /// Reports that the task of the group which it took has finished.
    pub fn finish_task<J>(&mut self, pool_meta: &mut GroupTaskPoolMeta<J>, group_id: u64)
        requires
            old(pool_meta).wf(),
            old(pool_meta)@.running.contains_key(group_id),
        ensures
            final(pool_meta).wf(),
            final(pool_meta)@ == old(pool_meta)@.finished(group_id),
            final(self).running_task_group is None,
    {
        pool_meta.finished_task(group_id);
        self.running_task_group = None;
    }
}

} // verus!
