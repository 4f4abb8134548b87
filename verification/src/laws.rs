//! What the operations of the log are for, in terms of what goes into a call
//! and what comes out of it.
//!
//! Each law takes the arguments and the result of one or more calls and says
//! how they relate, without the vocabulary in which the contracts are written.

pub mod answers;
pub mod appends;
pub mod batches;
pub mod blocking;
pub mod buffers;
pub mod commits;
pub mod configuration;
pub mod draining;
pub mod epochs;
pub mod flushing;
pub mod frames;
pub mod health;
pub mod keyrings;
pub mod logs;
pub mod shutdown;
pub mod texts;
pub mod transactions;
pub mod waiters;
pub mod waiting;
