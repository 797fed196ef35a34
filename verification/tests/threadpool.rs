use fair_pool::threadpool::{BigGroupThrottledQueue, ScheduleQueue, Task};
use std::cmp::Ordering;

type Job = Box<dyn FnOnce() + Send>;

fn job() -> Job {
    Box::new(move || {})
}

#[test]
fn test_fair_group_queue() {
    let max_pending_task_each_group = 2;
    let mut queue = BigGroupThrottledQueue::new(max_pending_task_each_group);
    // push 4 group1 into queue
    let group1 = 1001;
    let mut id = 0;
    for _ in 0..4 {
        let task = Task::new(id, group1, job());
        id += 1;
        queue.push(task);
    }

    // push 2 group2 into queue.
    let group2 = 1002;
    for _ in 0..2 {
        let task = Task::new(id, group2, job());
        id += 1;
        queue.push(task);
    }
    // push 2 group3 into queue.
    let group3 = 1003;
    for _ in 0..2 {
        let task = Task::new(id, group3, job());
        id += 1;
        queue.push(task);
    }
    // queue:g1, g1, g1, g1, g2, g2, g3, g3
    let task = queue.pop().unwrap();
    assert_eq!(task.group_id, group1);
    // queue: g1, g1, g1, g2, g2, g3, g3; running: g1
    let task = queue.pop().unwrap();
    assert_eq!(task.group_id, group1);
    // queue: g1, g1, g2, g2, g3, g3; running: g1, g1
    let task = queue.pop().unwrap();
    assert_eq!(task.group_id, group2);
    // queue: g1, g1, g2, g3, g3; running: g1, g1, g2
    let task = queue.pop().unwrap();
    assert_eq!(task.group_id, group2);
    // queue: g1, g1, g3, g3 ; running: g1, g1, g2, g2
    // finished one g2
    queue.on_task_finished(&group2);
    // queue: g1, g1, g3, g3; running: g1, g1, g2
    let task = queue.pop().unwrap();
    assert_eq!(task.group_id, group3);
    // queue: g1, g1, g3; running: g1, g1, g2, g3
    // finished g1
    queue.on_task_finished(&group1);
    // queue: g1, g1, g3; running: g1, g2, g3
    let task = queue.pop().unwrap();
    assert_eq!(task.group_id, group1);
    // queue: g1, g3; running: g1, g1, g2, g3
    // finished g2
    queue.on_task_finished(&group2);
    // queue: g1; running: g1, g1, g3, g3
    let task = queue.pop().unwrap();
    assert_eq!(task.group_id, group3);
    // finished g3
    queue.on_task_finished(&group3);
    // queue: g1; running: g1, g1, g3
    let task = queue.pop().unwrap();
    assert_eq!(task.group_id, group1);
}

/// A queue with the given limit and tasks of the given groups, numbered from zero.
fn queue_of(limit: usize, groups: &[u64]) -> BigGroupThrottledQueue<u64, char> {
    let mut queue = BigGroupThrottledQueue::new(limit);
    let mut id = 0;
    for group_id in groups {
        queue.push(Task::new(id, *group_id, 'x'));
        id += 1;
    }
    queue
}

/// The numbers of the next tasks.
fn pop_ids(queue: &mut BigGroupThrottledQueue<u64, char>, n: usize) -> Vec<u64> {
    let mut ids = Vec::new();
    for _ in 0..n {
        ids.push(queue.pop().unwrap().id);
    }
    ids
}

#[test]
fn task_keeps_what_it_is_made_of() {
    let task = Task::new(7, 3u64, 'j');
    assert_eq!(task.id, 7);
    assert_eq!(task.group_id, 3);
    assert_eq!(task.task, 'j');
}

#[test]
fn first_task_is_greatest() {
    let first = Task::new(1, 9u64, 'a');
    let second = Task::new(2, 8u64, 'b');
    let same = Task::new(1, 7u64, 'c');
    assert_eq!(first.cmp(&second), Ordering::Greater);
    assert_eq!(second.cmp(&first), Ordering::Less);
    assert_eq!(first.cmp(&same), Ordering::Equal);
    assert_eq!(second.partial_cmp(&first), Some(Ordering::Less));
    assert!(second < first);
    assert!(first > second);
    assert!(first == same);
    assert!(first != second);
}

#[test]
fn empty_queue_gives_nothing() {
    let mut queue = queue_of(1, &[]);
    assert!(queue.pop().is_none());
    queue.push(Task::new(0, 5, 'a'));
    assert_eq!(queue.pop().unwrap().task, 'a');
    assert!(queue.pop().is_none());
}

#[test]
fn every_pushed_task_comes_out_once() {
    let mut queue = queue_of(2, &[1, 1, 2, 1, 3, 1, 2, 2, 1]);
    let mut ids = pop_ids(&mut queue, 9);
    assert!(queue.pop().is_none());
    ids.sort();
    assert_eq!(ids, vec![0, 1, 2, 3, 4, 5, 6, 7, 8]);
}

#[test]
fn groups_under_the_limit_go_first() {
    // 1 reaches the limit with its first task; the others wait behind 2 and 3.
    let mut queue = queue_of(1, &[1, 1, 1, 2, 3]);
    assert_eq!(pop_ids(&mut queue, 3), vec![0, 3, 4]);
    // All groups run one task now: the one whose task came first goes on.
    assert_eq!(pop_ids(&mut queue, 2), vec![1, 2]);
}

#[test]
fn least_running_group_goes_first_when_all_are_busy() {
    let mut queue = queue_of(1, &[1, 1, 1, 2, 2, 2]);
    assert_eq!(pop_ids(&mut queue, 2), vec![0, 3]);
    // running: 1, 2. Both have waiting tasks; 1 came first.
    assert_eq!(pop_ids(&mut queue, 1), vec![1]);
    // running: 1, 1, 2
    assert_eq!(pop_ids(&mut queue, 1), vec![4]);
    // running: 1, 1, 2, 2
    assert_eq!(pop_ids(&mut queue, 2), vec![2, 5]);
}

#[test]
fn tasks_of_a_group_keep_their_order() {
    let mut queue = queue_of(2, &[4, 4, 4, 4, 4]);
    assert_eq!(pop_ids(&mut queue, 1), vec![0]);
    queue.on_task_finished(&4);
    assert_eq!(pop_ids(&mut queue, 4), vec![1, 2, 3, 4]);
}

#[test]
fn finished_task_makes_room_for_a_waiting_one() {
    let mut queue = queue_of(1, &[1, 1, 2, 2]);
    assert_eq!(pop_ids(&mut queue, 2), vec![0, 2]);
    // 2 is done first, so its waiting task becomes pending and goes before that of 1.
    queue.on_task_finished(&2);
    assert_eq!(pop_ids(&mut queue, 2), vec![3, 1]);
}

#[test]
fn group_beyond_the_limit_has_to_come_down_first() {
    let mut queue = queue_of(1, &[1, 1, 1, 1]);
    // 1 runs three tasks, since there is nobody else.
    assert_eq!(pop_ids(&mut queue, 3), vec![0, 1, 2]);
    queue.push(Task::new(4, 2, 'x'));
    queue.on_task_finished(&1);
    queue.on_task_finished(&1);
    // It still runs one task, so its last one waits behind 2.
    assert_eq!(pop_ids(&mut queue, 1), vec![4]);
    queue.on_task_finished(&1);
    assert_eq!(pop_ids(&mut queue, 1), vec![3]);
}

#[test]
fn limit_of_zero_lets_all_tasks_wait() {
    let mut queue = queue_of(0, &[1, 1, 2]);
    assert_eq!(pop_ids(&mut queue, 2), vec![0, 2]);
    assert_eq!(pop_ids(&mut queue, 1), vec![1]);
    assert!(queue.pop().is_none());
    queue.on_task_finished(&1);
    queue.on_task_finished(&1);
    queue.on_task_finished(&2);
    assert!(queue.pop().is_none());
}

#[test]
fn finished_task_that_was_still_pending_is_taken_as_reported() {
    let mut queue = queue_of(1, &[1, 1]);
    queue.on_task_finished(&1);
    assert_eq!(pop_ids(&mut queue, 2), vec![0, 1]);
}

#[test]
fn later_number_does_not_overtake() {
    let mut queue = BigGroupThrottledQueue::new(5);
    for id in [30u64, 10, 20] {
        queue.push(Task::new(id, id, 'x'));
    }
    assert_eq!(pop_ids(&mut queue, 3), vec![10, 20, 30]);
}

#[test]
fn groups_can_be_named_by_strings() {
    let mut queue = BigGroupThrottledQueue::new(1);
    queue.push(Task::new(0, String::from("a"), 0u8));
    queue.push(Task::new(1, String::from("a"), 1u8));
    queue.push(Task::new(2, String::from("b"), 2u8));
    assert_eq!(queue.pop().unwrap().task, 0);
    assert_eq!(queue.pop().unwrap().task, 2);
    queue.on_task_finished(&String::from("a"));
    assert_eq!(queue.pop().unwrap().task, 1);
}

#[test]
fn same_pushes_give_the_same_order() {
    let groups = [3, 1, 2, 3, 3, 1, 2, 2, 1];
    let ids = pop_ids(&mut queue_of(1, &groups), 9);
    assert_eq!(ids, vec![0, 1, 2, 3, 5, 6, 4, 7, 8]);
    for _ in 0..20 {
        assert_eq!(pop_ids(&mut queue_of(1, &groups), 9), ids);
    }
}
