//! Correctness-aware load benchmarking: an open-loop scheduler that measures
//! every response against its intended send slot, the counting rules that keep
//! rate limiting apart from correctness, and the fleet arithmetic that merges
//! the reports of many workers into one.
//!
//! The library is pure: clocks, sockets and streams belong to the program
//! around it, which hands in plain values and acts on what comes back.

pub mod bench;
pub mod cliff;
pub mod connection;
pub mod coordinator;
pub mod hist;
pub mod launch;
pub mod mock;
pub mod oracle;
pub mod proto;
pub mod rate;
pub mod response;
pub mod run;
pub mod sched;
pub mod tally;
pub mod target;
pub mod text;
pub mod v2;
pub mod worker;
pub mod worker_node;

pub use hist::{Histos, Summary};
pub use run::{Bucket, PercentilesSoFar, RunReport, ThisTick, Tick};
pub use sched::{ConnSched, RateSchedule};
pub use worker::{RlAction, RunSpec};
