//! Fair scheduling of grouped tasks.
//!
//! * [`threadpool`] holds the queue that throttles big groups and the bookkeeping of the pool
//!   that draws from it.
//! * [`group_pool`] holds the bookkeeping of the pool that always runs the group with the fewest
//!   running tasks.
//!
//! Threads, locks and notification live outside of this library: every function here works on a
//! plain value that its caller has exclusive access to.
pub mod group_pool;
pub mod heap;
pub mod queues;
pub mod threadpool;
