//! What a worker does next.
use crate::threadpool::pool::TaskPool;
use crate::threadpool::task::{ScheduleQueue, Task};
use vstd::prelude::*;

verus! {

/// What a worker has to do after it has looked for a task.
pub enum Action<T, J> {
    /// Run the task, then report that it has finished.
    Run(Task<T, J>),
    /// Sleep until it is notified, then look again.
    Wait,
    /// Look again from the start.
    Retry,
    /// End, since the pool has been stopped.
    Exit,
}

/// One worker of a pool.
///
/// To get a task it looks into the pool, sleeps if there is none, and looks once more when it has
/// been woken up. All of this happens under the lock of the pool, which sleeping gives back.
pub struct Worker {
    /// Whether it has slept since it started to look for a task.
    pub woken: bool,
}

impl Worker {
    pub fn new() -> (worker: Worker)
        ensures
            !worker.woken,
    {
        Worker { woken: false }
    }

    /// Looks for a task.
    pub fn get_next_task<Q: ScheduleQueue<T, J>, T, J>(
        &mut self,
        task_pool: &mut TaskPool<Q, T, J>,
    ) -> (action: Action<T, J>)
        requires
            !old(task_pool).stop ==> old(task_pool).pop_task_requires(),
        ensures
            action is Exit <==> old(task_pool).stop,
            final(self).woken <==> action is Wait,
            match action {
                Action::Run(task) => old(task_pool).pop_task_ensures(*final(task_pool), Some(task)),
                Action::Wait => !old(self).woken && old(task_pool).pop_task_ensures(
                    *final(task_pool),
                    None,
                ),
                Action::Retry => old(self).woken && old(task_pool).pop_task_ensures(
                    *final(task_pool),
                    None,
                ),
                Action::Exit => *final(task_pool) == *old(task_pool),
            },
    {
        let woken = self.woken;
        self.woken = false;
        if task_pool.is_stopped() {
            return Action::Exit;
        }
        match task_pool.pop_task() {
            Some(task) => Action::Run(task),
            None => if woken {
                Action::Retry
            } else {
                // wait new task
                self.woken = true;
                Action::Wait
            },
        }
    }

    /// Reports that a task of the group has finished.
    pub fn on_task_finished<Q: ScheduleQueue<T, J>, T, J>(
        &self,
        task_pool: &mut TaskPool<Q, T, J>,
        group_id: &T,
    )
        requires
            old(task_pool).on_task_finished_requires(*group_id),
        ensures
            old(task_pool).on_task_finished_ensures(*group_id, *final(task_pool)),
    {
        task_pool.on_task_finished(group_id);
    }
}

} // verus!
