//! A worker pool that drains priority-partitioned queues of an external broker.
//!
//! The library holds the decisions: which physical queues a worker polls and in
//! which order, when a polling pass ends, and how shutdown drains the workers.
//! The broker, the threads and the signal handling live with the caller.

pub mod args;
pub mod config;
pub mod topology;
pub mod shutdown;
pub mod worker;

pub use args::{get_connection_config, get_queue_configs, ArgsError, ConfigError};
pub use config::{ConnectionConfig, ProcessConfig, QueueConfig};
pub use topology::{get_process_configs, get_remaining_queues, schedule_with_order};
pub use worker::{Phase, PollOutcome, Worker};
pub use shutdown::{JoinRecord, Shutdown};
