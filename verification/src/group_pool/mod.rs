//! A pool that always runs the group with the fewest running tasks.
//!
//! When a worker is ready to process a task, it gets one according to the following rules.
//!
//! ## Choose one group
//! 1. Choose the groups with least running tasks.
//! 2. If more than one groups has the least running tasks, choose the one whose task comes first
//!    (with the minimum task's ID).
//!
//! ## Choose a task in the selected group
//! For the tasks in the selected group, choose the first one in the queue (which means comes
//! first).
pub mod effects;
pub mod history;
pub mod laws;
pub mod meta;
pub mod model;
pub mod task;
pub mod worker;

pub use meta::GroupTaskPoolMeta;
pub use model::GroupState;
pub use task::TaskMeta;
pub use worker::Worker;
