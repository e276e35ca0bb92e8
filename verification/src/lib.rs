//! A task-batching scheduler: jobs pushed one by one are partitioned
//! round-robin over a fixed number of ordered lanes, and the library computes
//! the execution plans (per-lane sequences, the flattened push order, bounded
//! concurrency chunks, and the lane-major collection order) that an async
//! runtime then drives.

pub mod lanes;
pub mod results;
pub mod worker;

pub use worker::ConfigError;
pub use worker::Worker;
