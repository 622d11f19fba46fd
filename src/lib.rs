//! A wait-free simulation engine: turns an algorithm written in normalised
//! lock-free form (generate, execute, wrap up) into one whose operations are
//! completed cooperatively through a help queue.
//!
//! The engine state is owned by one `WaitFreeSimulator`. Racing helpers are
//! expressed as interleavings of `propose` (read a snapshot and compute its
//! successor) and `commit` (compare-and-replace against the snapshot's
//! version tag); `help_step`, `help_op`, `help_first` and `run` are built from
//! them. Each box keeps, as ghost state, the states it has held, and every
//! method preserves that they form a legal path through the state graph.

pub mod capability;
pub mod contention;
pub mod help_queue;
pub mod record;
pub mod simulator;

pub use contention::{ContentionMeasure, CounterContentionMeasure, CONTENTION_THRESHOLD};
pub use capability::{CasDescriptor, CasDescriptors, NormalisedLockFree};
pub use help_queue::HelpQueue;
pub use record::{Change, OperationRecord, OperationRecordBox, OperationState, Proposal};
pub use simulator::{
    after_step, fast_path_next, FastPathDecision, WaitFreeSimulator, HELP_BOUND, RETRY_THRESHOLD,
};
