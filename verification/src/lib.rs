//! A fixed-size worker pool.
//!
//! Jobs are submitted to a [`ThreadPool`], queued first-in first-out, handed
//! to one of a fixed number of workers, and run at most once; the record of
//! every job can be queried at any time. This crate holds the pool's state
//! and every decision made on it. Threads, locks and sockets are left to the
//! program around it.

pub mod ident;
pub mod job;
pub mod laws;
pub mod model;
pub mod pool;
pub mod registry;
pub mod route;
pub mod worker;

pub use crate::job::{JobMetadata, JobStatus};
pub use crate::model::{Claim, WorkerState};
pub use crate::pool::{PoolCreateError, ThreadPool};
pub use crate::registry::JobRegistry;
pub use crate::worker::Turn;
