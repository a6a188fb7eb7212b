//! A verified model of a bounded worker pool: a fixed number of workers pull
//! jobs from one shared first-in-first-out intake and run each to completion,
//! with a one-shot shutdown protocol that drains queued jobs, lets every
//! worker observe closure, and consumes each thread handle exactly once.
//!
//! The model records every lifecycle decision of the pool as an executable
//! transition with a contract: construction, submission, delivery of a job to
//! a worker, completion, intake closure and joining. The thread spawning, the
//! channel and the blocking waits that realise these transitions at run time
//! are ordinary unverified glue around this crate.

pub mod pool;
pub mod worker;

pub use pool::ReceiveOutcome;
pub use pool::ThreadPool;
pub use pool::ThreadPoolCreationError;
pub use worker::HandleState;
pub use worker::Worker;
pub use worker::WorkerState;
