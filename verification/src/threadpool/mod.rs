//! A pool whose workers draw their tasks from a schedule queue, and the queue that throttles big
//! groups.
pub mod effects;
pub mod history;
pub mod laws;
pub mod model;
pub mod pool;
pub mod pool_effects;
pub mod pool_laws;
pub mod queue;
pub mod task;
pub mod worker;

pub use model::ThrottledState;
pub use pool::TaskPool;
pub use queue::BigGroupThrottledQueue;
pub use task::{ScheduleQueue, Task};
pub use worker::{Action, Worker};
