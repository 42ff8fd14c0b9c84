//! A worker-pool ("hive") task execution library.
//!
//! Inputs are submitted in order, each receiving a monotonically increasing
//! `index`. Every submitted task yields exactly one [`outcome::Outcome`],
//! tagged with that index. Retryable failures are re-attempted up to a
//! configured budget with exponential backoff; the consumer-side reorderer
//! restores submission order over a possibly out-of-order completion stream.

pub mod channel;
pub mod hive;
pub mod iter;
pub mod outcome;
pub mod panic;
pub mod task;
pub mod util;
