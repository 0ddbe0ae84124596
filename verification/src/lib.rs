//! A single-threaded cooperative task runtime: producers submit resumable
//! work items to a FIFO queue, and a host-driven pump drains the backlog one
//! cycle at a time, parking items that suspend until a later cycle.

pub mod laws;
pub mod model;
pub mod task;
pub mod runtime;
pub mod tokio_rt;
