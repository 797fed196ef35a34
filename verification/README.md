# fair_pool

Fair scheduling of tasks that belong to groups, verified with Verus.

* `src/threadpool` - a queue that throttles big groups (`BigGroupThrottledQueue`), the bookkeeping
  of a pool over any schedule queue (`TaskPool`) and the decisions of its workers (`Worker`).
  `model.rs` says what the queue holds and how each operation changes it; `laws.rs` and
  `pool_laws.rs` state what follows for the queue and the pool as a whole.
* `src/group_pool` - the bookkeeping of a pool that always runs the group with the fewest running
  tasks (`GroupTaskPoolMeta`), with its own model, laws and worker.
* `src/heap.rs`, `src/queues.rs` - a priority queue, and the theory of queues kept by key.
* `app` - the pools themselves: threads, locks and notification around the library.
