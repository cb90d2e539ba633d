//! What executors of schedules are built from.

pub mod gather_queue;
pub mod notify_mutex;
