use fair_pool::heap::Heap;
use fair_pool::threadpool::Task;

#[test]
fn heap_gives_least_numbers_first() {
    let mut heap = Heap::new();
    for id in [5u64, 1, 4, 1, 3] {
        heap.push(Task::new(id, 0u8, 'x'));
    }
    let mut ids = Vec::new();
    while let Some(task) = heap.pop() {
        ids.push(task.id);
    }
    assert_eq!(ids, vec![1, 1, 3, 4, 5]);
    assert!(heap.pop().is_none());
}
