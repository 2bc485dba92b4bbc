//! A fixed-size worker pool, stated as verified bookkeeping.
//!
//! The threads, the lock and the condition variable live with the caller;
//! this library decides what each of them does: which job a waking worker
//! takes, when a worker stops, when a submission is refused, and that each
//! worker thread is handed back for joining once. Beside it stand the pure
//! parts of a small server built on the pool: reading its configuration
//! text, routing a request line and framing a response.

pub mod config;
pub mod error;
pub mod http;
pub mod queue;
pub mod worker;

pub use config::{read_config, ConfigError, ConfigFields};
pub use error::PoolCreationError;
pub use http::{response, route, Route};
pub use queue::{JobQueue, Receipt, WorkerState};
pub use worker::Worker;
