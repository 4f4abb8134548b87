//! A verified write-ahead-log front end: striped ring buffers, blocking
//! appends with stall deadlines, group commit, and the decisions of the
//! background flusher.
//!
//! Every type here is a plain state machine. Threads, clocks, sleeping and
//! disk I/O belong to the embedding application, which drives the machines one
//! step at a time and hands back what it observed: the time, whether a write
//! succeeded, whether a wait timed out.
//!
//! From the bottom up:
//! - [`ring_buffer`]: the multi-producer ring buffer with its slot protocol;
//! - [`concurrent`]: the log over several stripes, single and batch appends;
//! - [`history`]: what holds of the log over its whole life;
//! - [`group_commit`]: epochs of transactions and the durability frontier;
//! - [`concurrent_system`]: durability modes, commits, health, encryption;
//! - [`flusher`]: flush cycles and the delivery of their outcomes;
//! - [`transaction`]: transactions as frames of operations;
//! - [`laws`]: what the calls are for, in terms of their arguments and results.

pub mod backpressure;
pub mod completion;
pub mod concurrent;
pub mod concurrent_system;
pub mod deadline;
pub mod entry;
pub mod error;
pub mod flusher;
pub mod group_commit;
pub mod history;
pub mod keyring;
pub mod laws;
pub mod lsn;
pub mod operation;
pub mod power;
pub mod ring_buffer;
pub mod sort;
pub mod stripe;
pub mod system_config;
pub mod text;
pub mod transaction;
pub mod wal_config;

pub use backpressure::{BackpressureConfig, SpinBackoff};
pub use completion::{CompletionBoard, CompletionHandle, CompletionNotifier, CompletionState};
pub use concurrent::{
    AppendDrainer, AppendTurn, AppendWait, BatchTurn, BatchWait, BlockedAppend, BlockedBatch,
    ConcurrentWal, ConcurrentWalMetrics, ShutdownOutcome,
};
pub use concurrent_system::{
    heartbeat_staleness_threshold, CommitTurn, ConcurrentWalSystem, FlushNotifier, FlushRequest,
    FlushStats, FrameTurn, FrameWait, KeyringChange, KeyringTurn, RollPhase, SegmentRoll,
};
pub use deadline::{AppendBlockedKind, AppendDeadline};
pub use entry::PendingEntry;
pub use error::{Error, StorageError};
pub use flusher::{
    BackgroundFlusher, CycleNote, CycleTurn, DrainTurn, FlushCycle, FlushStep, OpenOutcome,
};
pub use group_commit::{
    lock_not_acquired, GroupCommitConfig, GroupCommitCoordinator, LockSite,
    DEFAULT_ACQUIRE_TIMEOUT_MS,
};
pub use keyring::{CipherHandle, WalKeyring, INITIAL_WAL_KEY_VERSION};
pub use lsn::{LsnAllocator, LSN};
pub use operation::{ContentId, EntryCodec, VersionId, WalOperation};
pub use ring_buffer::{
    AppendBlocked, BlockedTurn, ClaimOutcome, WalRingBuffer, DEFAULT_RING_BUFFER_CAPACITY,
};
pub use stripe::{StripeMetrics, WalStripe};
pub use system_config::{ConcurrentWalSystemConfig, DurabilityMode, FlushCoordinatorConfig};
pub use transaction::{log_operations_to_wal, BufferedWrite, WriteTransaction};
pub use wal_config::{
    ConcurrentWalConfig, DEFAULT_MAX_APPEND_BLOCK_MS, DEFAULT_NUM_STRIPES, DEFAULT_STRIPE_CAPACITY,
};
