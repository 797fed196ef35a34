use fair_pool::group_pool::{GroupTaskPoolMeta, TaskMeta, Worker};
use std::cmp::Ordering;

fn meta_of(groups: &[u64]) -> GroupTaskPoolMeta<char> {
    let mut meta = GroupTaskPoolMeta::new();
    for group_id in groups {
        meta.push_task(*group_id, 'x');
    }
    meta
}

fn pop_id(meta: &mut GroupTaskPoolMeta<char>) -> u64 {
    let (group_id, task) = meta.pop_next_task().unwrap();
    assert_eq!(group_id, task.group_id);
    task.id
}

#[test]
fn task_keeps_its_parts() {
    let task = TaskMeta::new(7, 3, 'j');
    assert_eq!((task.id, task.group_id, task.task), (7, 3, 'j'));
}

#[test]
fn earlier_task_has_priority() {
    let first = TaskMeta::new(1, 9, 'a');
    let second = TaskMeta::new(2, 8, 'b');
    let same = TaskMeta::new(1, 7, 'c');
    assert_eq!(first.cmp(&second), Ordering::Greater);
    assert_eq!(second.cmp(&first), Ordering::Less);
    assert_eq!(first.cmp(&same), Ordering::Equal);
    assert_eq!(first.partial_cmp(&second), Some(Ordering::Greater));
    assert!(second < first);
    assert!(first == same);
    assert!(first != second);
}

#[test]
fn new_meta_has_no_tasks() {
    let mut meta = meta_of(&[]);
    assert_eq!(meta.total_task_num(), 0);
    assert_eq!(meta.pushed_task_num(), 0);
    assert!(meta.get_next_group().is_none());
    assert!(meta.pop_next_task().is_none());
}

#[test]
fn numbers_of_tasks_add_up() {
    let mut meta = meta_of(&[5, 5, 6]);
    assert_eq!((meta.waiting_task_num(), meta.running_task_num()), (3, 0));
    pop_id(&mut meta);
    assert_eq!((meta.waiting_task_num(), meta.running_task_num()), (2, 1));
    assert_eq!(meta.total_task_num(), 3);
    meta.finished_task(5);
    assert_eq!((meta.waiting_task_num(), meta.running_task_num()), (2, 0));
    assert_eq!(meta.total_task_num(), 2);
    assert_eq!(meta.pushed_task_num(), 3);
}

#[test]
fn idle_groups_go_first() {
    let mut meta = meta_of(&[1, 1, 1, 2, 3]);
    assert_eq!(pop_id(&mut meta), 0);
    assert_eq!(pop_id(&mut meta), 3);
    assert_eq!(pop_id(&mut meta), 4);
    assert_eq!(meta.get_next_group(), Some(1));
    assert_eq!(pop_id(&mut meta), 1);
}

#[test]
fn fewest_running_tasks_decide_before_the_number() {
    let mut meta = meta_of(&[1, 1, 1, 2, 2]);
    assert_eq!(pop_id(&mut meta), 0);
    assert_eq!(pop_id(&mut meta), 3);
    // running: 1, 2. The task of 1 came first.
    assert_eq!(pop_id(&mut meta), 1);
    // running: 1, 1, 2
    assert_eq!(meta.get_next_group(), Some(2));
    assert_eq!(pop_id(&mut meta), 4);
    assert_eq!(pop_id(&mut meta), 2);
    assert!(meta.pop_next_task().is_none());
}

#[test]
fn group_is_served_in_the_order_of_arrival() {
    let mut meta = meta_of(&[8, 8, 8, 8, 8, 8]);
    assert_eq!(pop_id(&mut meta), 0);
    assert_eq!(pop_id(&mut meta), 1);
    assert_eq!(pop_id(&mut meta), 2);
    meta.finished_task(8);
    meta.finished_task(8);
    meta.finished_task(8);
    assert_eq!(pop_id(&mut meta), 3);
    meta.push_task(8, 'y');
    assert_eq!(pop_id(&mut meta), 4);
    assert_eq!(pop_id(&mut meta), 5);
    assert_eq!(pop_id(&mut meta), 6);
}

#[test]
fn front_task_is_compared_after_a_pop() {
    let mut meta = meta_of(&[1, 1, 1, 1, 2, 2]);
    assert_eq!(pop_id(&mut meta), 0);
    assert_eq!(pop_id(&mut meta), 4);
    assert_eq!(pop_id(&mut meta), 1);
    meta.finished_task(1);
    // running: 1, 2. The first task of 1 is still older than that of 2.
    assert_eq!(pop_id(&mut meta), 2);
}

#[test]
fn finished_group_gets_back_in_line() {
    let mut meta = meta_of(&[1, 1, 2, 2]);
    assert_eq!(pop_id(&mut meta), 0);
    assert_eq!(pop_id(&mut meta), 2);
    meta.finished_task(2);
    // 2 has nothing running any more.
    assert_eq!(pop_id(&mut meta), 3);
    meta.finished_task(2);
    assert_eq!(pop_id(&mut meta), 1);
    meta.finished_task(1);
    meta.finished_task(1);
    assert_eq!(meta.total_task_num(), 0);
}

#[test]
fn worker_remembers_the_group_it_runs() {
    let mut meta = meta_of(&[6]);
    let mut worker = Worker::new();
    assert_eq!(worker.running_task_group, None);
    let task = worker.get_next_task(&mut meta).unwrap();
    assert_eq!(task.task, 'x');
    assert_eq!(worker.running_task_group, Some(6));
    worker.finish_task(&mut meta, task.group_id);
    assert_eq!(worker.running_task_group, None);
    assert!(worker.get_next_task(&mut meta).is_none());
    assert_eq!(worker.running_task_group, None);
    assert_eq!(meta.total_task_num(), 0);
}

#[test]
fn equal_tasks_of_a_big_group_alternate_with_others() {
    let group_with_many_tasks = 1001;
    let mut meta = meta_of(&[group_with_many_tasks, group_with_many_tasks]);
    // Two workers; whoever started first finishes first.
    let mut running = Vec::new();
    for _ in 0..2 {
        running.push(meta.pop_next_task().unwrap().0);
    }
    for _ in 0..10 {
        meta.push_task(group_with_many_tasks, 'x');
    }
    for group_id in 0..10 {
        meta.push_task(group_id, 'x');
    }
    let mut started = Vec::new();
    for _ in 0..20 {
        let group_id = running.remove(0);
        meta.finished_task(group_id);
        let (next, _) = meta.pop_next_task().unwrap();
        started.push(next);
        running.push(next);
    }
    for id in 0..10 {
        assert_eq!(started[2 * id], id as u64);
        assert_eq!(started[2 * id + 1], group_with_many_tasks);
    }
}

#[test]
fn long_task_lets_the_other_worker_serve_all_groups() {
    let group_with_big_task = 1001;
    let mut meta = meta_of(&[group_with_big_task]);
    assert_eq!(meta.pop_next_task().unwrap().0, group_with_big_task);
    for group_id in 0..10 {
        meta.push_task(group_id, 'x');
    }
    for _ in 0..10 {
        meta.push_task(group_with_big_task, 'x');
    }
    for id in 0..10 {
        let (group_id, _) = meta.pop_next_task().unwrap();
        assert_eq!(group_id, id);
        meta.finished_task(group_id);
    }
    for _ in 0..10 {
        let (group_id, _) = meta.pop_next_task().unwrap();
        assert_eq!(group_id, group_with_big_task);
        meta.finished_task(group_id);
    }
    assert_eq!(meta.total_task_num(), 1);
}

#[test]
fn groups_stay_within_one_task_of_each_other() {
    let groups = [3, 1, 2, 3, 3, 1, 2, 2, 1];
    for _ in 0..20 {
        let mut meta = meta_of(&groups);
        let mut ids = Vec::new();
        for _ in 0..9 {
            ids.push(pop_id(&mut meta));
        }
        assert_eq!(ids, vec![0, 1, 2, 3, 5, 6, 4, 7, 8]);
        assert_eq!(meta.running_task_num(), 9);
    }
}

#[test]
fn finished_task_undoes_its_start() {
    let mut meta = meta_of(&[1, 2]);
    assert_eq!(pop_id(&mut meta), 0);
    meta.finished_task(1);
    assert_eq!(meta.running_task_num(), 0);
    // 1 counts as idle again, so the order of arrival decides.
    meta.push_task(1, 'x');
    assert_eq!(pop_id(&mut meta), 1);
    assert_eq!(pop_id(&mut meta), 2);
}
