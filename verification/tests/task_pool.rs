use fair_pool::threadpool::{
    Action, BigGroupThrottledQueue, ScheduleQueue, Task, TaskPool, Worker,
};

type Pool = TaskPool<BigGroupThrottledQueue<u64, u64>, u64, u64>;

fn new_pool(limit: usize) -> Pool {
    TaskPool::new(BigGroupThrottledQueue::new(limit))
}

/// Gives the newest task first.
struct Stack {
    tasks: Vec<Task<u64, u64>>,
    finished: Vec<u64>,
}

impl ScheduleQueue<u64, u64> for Stack {
    fn pop(&mut self) -> Option<Task<u64, u64>> {
        self.tasks.pop()
    }

    fn push(&mut self, task: Task<u64, u64>) {
        self.tasks.push(task);
    }

    fn on_task_finished(&mut self, group_id: &u64) {
        self.finished.push(*group_id);
    }
}

/// Lets workers run tasks until none is left. A job is the time that it takes. Returns the groups
/// of the finished tasks in the order in which they finished.
fn simulate(pool: &mut Pool, workers: usize) -> Vec<u64> {
    let mut running: Vec<(u64, u64)> = Vec::new();
    let mut done = Vec::new();
    let mut now = 0;
    loop {
        while running.len() < workers {
            match pool.pop_task() {
                Some(task) => running.push((now + task.task, task.group_id)),
                None => break,
            }
        }
        if running.is_empty() {
            return done;
        }
        let mut first = 0;
        for i in 0..running.len() {
            if running[i].0 < running[first].0 {
                first = i;
            }
        }
        let (time, group_id) = running.remove(first);
        now = time;
        pool.on_task_finished(&group_id);
        done.push(group_id);
    }
}

#[test]
fn new_pool_has_no_tasks() {
    let mut pool = new_pool(1);
    assert_eq!(pool.get_task_num(), 0);
    assert_eq!(pool.next_task_id, 0);
    assert!(!pool.is_stopped());
    assert!(pool.pop_task().is_none());
}

#[test]
fn counters_follow_the_tasks() {
    let mut pool = new_pool(1);
    pool.push_task(5, 50);
    pool.push_task(5, 51);
    assert_eq!((pool.total_waiting_tasks, pool.total_running_tasks), (2, 0));
    assert_eq!(pool.get_task_num(), 2);
    let task = pool.pop_task().unwrap();
    assert_eq!((task.id, task.group_id, task.task), (0, 5, 50));
    assert_eq!((pool.total_waiting_tasks, pool.total_running_tasks), (1, 1));
    assert_eq!(pool.get_task_num(), 2);
    pool.on_task_finished(&5);
    assert_eq!((pool.total_waiting_tasks, pool.total_running_tasks), (1, 0));
    assert_eq!(pool.get_task_num(), 1);
    let task = pool.pop_task().unwrap();
    assert_eq!((task.id, task.group_id, task.task), (1, 5, 51));
    pool.on_task_finished(&5);
    assert_eq!(pool.get_task_num(), 0);
    assert!(pool.pop_task().is_none());
    assert_eq!((pool.total_waiting_tasks, pool.total_running_tasks), (0, 0));
}

#[test]
fn pool_asks_the_queue_that_it_was_given() {
    let mut pool = TaskPool::new(Stack { tasks: Vec::new(), finished: Vec::new() });
    pool.push_task(1, 10);
    pool.push_task(2, 20);
    assert_eq!(pool.pop_task().unwrap().group_id, 2);
    assert_eq!(pool.pop_task().unwrap().group_id, 1);
    assert!(pool.pop_task().is_none());
    pool.on_task_finished(&2);
    assert_eq!(pool.tasks.finished, vec![2]);
    assert_eq!(pool.get_task_num(), 1);
}

#[test]
fn stopped_pool_stays_stopped() {
    let mut pool = new_pool(1);
    pool.push_task(1, 10);
    pool.stop();
    assert!(pool.is_stopped());
    pool.push_task(1, 11);
    assert!(pool.pop_task().is_some());
    assert!(pool.is_stopped());
    assert_eq!(pool.get_task_num(), 2);
}

#[test]
fn worker_runs_a_task_that_is_there() {
    let mut pool = new_pool(1);
    let mut worker = Worker::new();
    pool.push_task(3, 30);
    match worker.get_next_task(&mut pool) {
        Action::Run(task) => assert_eq!((task.group_id, task.task), (3, 30)),
        _ => panic!("a task was expected"),
    }
    assert_eq!(pool.total_running_tasks, 1);
    worker.on_task_finished(&mut pool, &3);
    assert_eq!(pool.get_task_num(), 0);
}

#[test]
fn worker_sleeps_once_and_looks_again() {
    let mut pool = new_pool(1);
    let mut worker = Worker::new();
    assert!(matches!(worker.get_next_task(&mut pool), Action::Wait));
    // Somebody else was faster.
    assert!(matches!(worker.get_next_task(&mut pool), Action::Retry));
    assert!(matches!(worker.get_next_task(&mut pool), Action::Wait));
    pool.push_task(4, 40);
    assert!(matches!(worker.get_next_task(&mut pool), Action::Run(_)));
    assert!(matches!(worker.get_next_task(&mut pool), Action::Wait));
}

#[test]
fn worker_ends_with_the_pool() {
    let mut pool = new_pool(1);
    let mut worker = Worker::new();
    let mut sleeper = Worker::new();
    assert!(matches!(sleeper.get_next_task(&mut pool), Action::Wait));
    pool.push_task(4, 40);
    pool.stop();
    assert!(matches!(worker.get_next_task(&mut pool), Action::Exit));
    assert!(matches!(sleeper.get_next_task(&mut pool), Action::Exit));
    // The task is still there.
    assert_eq!(pool.get_task_num(), 1);
}

#[test]
fn long_task_holds_up_its_own_group_only() {
    let mut pool = new_pool(1);
    let group_with_big_task = 1001;
    pool.push_task(group_with_big_task, 500);
    for group_id in 0..10 {
        pool.push_task(group_id, 50);
    }
    for _ in 0..10 {
        pool.push_task(group_with_big_task, 50);
    }
    let done = simulate(&mut pool, 2);
    assert_eq!(done.len(), 21);
    for i in 0..9 {
        assert_eq!(done[i], i as u64);
    }
    let mut last = done[9..].to_vec();
    last.retain(|group_id| *group_id == group_with_big_task);
    assert_eq!(last.len(), 11);
    assert_eq!(pool.get_task_num(), 0);
}

#[test]
fn groups_share_the_workers_up_to_the_limit() {
    let mut pool = new_pool(2);
    let (group1, group2, group3) = (1001, 1002, 1003);
    for group_id in 0..4 {
        pool.push_task(group_id, 50);
    }
    for _ in 0..4 {
        pool.push_task(group1, 50);
    }
    for _ in 0..2 {
        pool.push_task(group2, 100);
    }
    for _ in 0..2 {
        pool.push_task(group3, 50);
    }
    let done = simulate(&mut pool, 4);
    assert_eq!(done[..4], [0, 1, 2, 3]);
    assert_eq!(done[4..6], [group1, group1]);
    let mut middle = done[6..10].to_vec();
    middle.sort();
    assert_eq!(middle, vec![group1, group1, group2, group2]);
    assert_eq!(done[10..], [group3, group3]);
}
