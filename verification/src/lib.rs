//! Line-based buffering and reblocking for pipes.
//!
//! The crate splits a byte stream into delimiter-terminated records, carries a
//! partial record across physical reads, and coordinates a bounded FIFO of
//! completed records between a reader and a writer with watermark-driven
//! backpressure.

pub mod scanner;
pub mod records;
pub mod reblock;
pub mod watermark;
pub mod queue_ext;
pub mod coordinator;
pub mod recycler;
pub mod pipeline;
