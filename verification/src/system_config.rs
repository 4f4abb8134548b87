//! Durability modes and the configuration of the whole log system.

use vstd::prelude::*;

use crate::group_commit::{GroupCommitConfig, DEFAULT_ACQUIRE_TIMEOUT_MS};
use crate::keyring::CipherHandle;
use crate::power::{is_next_power_of_two, max_rounded, next_power_of_two};
use crate::wal_config::DEFAULT_MAX_APPEND_BLOCK_MS;

verus! {

/// When a commit counts as durable, and who flushes.
#[derive(Debug, Clone, Copy, PartialEq, Eq, Structural)]
pub enum DurabilityMode {
    /// Every commit flushes and syncs on the calling thread.
    Synchronous,
    /// A background thread flushes now and then; nobody waits.
    Async { flush_interval_ms: u64 },
    /// A background thread flushes and syncs batches; commits wait for theirs.
    GroupCommit { max_batch_size: usize, max_delay_ms: u64 },
    /// A background thread flushes batches; commits may wait for theirs.
    AsyncBatched { max_batch_size: usize, max_delay_ms: u64 },
}

/// Whether commits are collected into epochs.
pub open spec fn has_epochs(mode: DurabilityMode) -> bool {
    mode is GroupCommit || mode is AsyncBatched
}

/// The group-commit configuration of a mode that has epochs.
pub open spec fn group_config(mode: DurabilityMode, acquire_timeout_ms: u64) -> Option<
    GroupCommitConfig,
> {
    match mode {
        DurabilityMode::GroupCommit { max_batch_size, max_delay_ms } => Some(
            GroupCommitConfig { max_delay_ms, max_batch_size, acquire_timeout_ms },
        ),
        DurabilityMode::AsyncBatched { max_batch_size, max_delay_ms } => Some(
            GroupCommitConfig { max_delay_ms, max_batch_size, acquire_timeout_ms },
        ),
        _ => None,
    }
}

impl DurabilityMode {
    /// The group-commit configuration, for a mode that has epochs.
    pub fn group_config(&self, acquire_timeout_ms: u64) -> (config: Option<GroupCommitConfig>)
        ensures
            config == group_config(*self, acquire_timeout_ms),
    {
        match *self {
            DurabilityMode::GroupCommit { max_batch_size, max_delay_ms } => Some(
                GroupCommitConfig { max_delay_ms, max_batch_size, acquire_timeout_ms },
            ),
            DurabilityMode::AsyncBatched { max_batch_size, max_delay_ms } => Some(
                GroupCommitConfig { max_delay_ms, max_batch_size, acquire_timeout_ms },
            ),
            _ => None,
        }
    }

    /// Whether a background thread flushes.
    pub fn has_flush_thread(&self) -> (threaded: bool)
        ensures
            threaded == (*self !is Synchronous),
    {
        match *self {
            DurabilityMode::Synchronous => false,
            _ => true,
        }
    }

    /// Whether commits flush and sync on the calling thread.
    pub fn is_synchronous(&self) -> (synchronous: bool)
        ensures
            synchronous == (*self is Synchronous),
    {
        match *self {
            DurabilityMode::Synchronous => true,
            _ => false,
        }
    }

    /// Whether nobody ever waits for a flush.
    pub fn is_async(&self) -> (unwaited: bool)
        ensures
            unwaited == (*self is Async),
    {
        match *self {
            DurabilityMode::Async { .. } => true,
            _ => false,
        }
    }

    /// Whether the mode is group commit proper.
    pub fn is_group_commit(&self) -> (grouped: bool)
        ensures
            grouped == (*self is GroupCommit),
    {
        match *self {
            DurabilityMode::GroupCommit { .. } => true,
            _ => false,
        }
    }
}

/// Configuration for the concurrent WAL system.
#[derive(Clone)]
pub struct ConcurrentWalSystemConfig {
    /// WAL directory path.
    pub wal_dir: String,
    /// Number of stripes.
    pub num_stripes: usize,
    /// Ring buffer capacity per stripe.
    pub stripe_capacity: usize,
    /// Maximum segment size in bytes before rotation.
    pub segment_size: usize,
    /// Number of segments to retain.
    pub segments_to_retain: usize,
    /// Flush interval in milliseconds.
    pub flush_interval_ms: u64,
    /// Durability mode.
    pub durability_mode: DurabilityMode,
    /// Write buffer size for segment files.
    pub write_buffer_size: usize,
    /// Optional cipher for WAL entry encryption.
    pub wal_cipher: Option<CipherHandle>,
    /// Optional provisioned WAL key version; ignored without a cipher.
    pub wal_key_version: Option<u32>,
    /// Whether recovery tolerates an undecodable trailing entry.
    pub tolerate_torn_tail: bool,
    /// Maximum time in milliseconds that a writer blocks on a full ring buffer
    /// without progress; `0` means unbounded.
    pub max_append_block_ms: u64,
    /// Bound in milliseconds on acquiring the group-commit state; `0` means
    /// unbounded.
    pub acquire_timeout_ms: u64,
}

/// The configuration of a log in `wal_dir` where nothing else is said.
pub open spec fn default_system_config(wal_dir: String) -> ConcurrentWalSystemConfig {
    ConcurrentWalSystemConfig {
        wal_dir,
        num_stripes: 16,
        stripe_capacity: 1024,
        segment_size: 0x400_0000,
        segments_to_retain: 10,
        flush_interval_ms: 10,
        durability_mode: DurabilityMode::Synchronous,
        write_buffer_size: 0x1_0000,
        wal_cipher: None,
        wal_key_version: None,
        tolerate_torn_tail: true,
        max_append_block_ms: 30_000,
        acquire_timeout_ms: 120_000,
    }
}

impl Default for ConcurrentWalSystemConfig {
    fn default() -> (config: Self)
        ensures
            config.wal_dir@ == "data/wal"@,
            config == default_system_config(config.wal_dir),
    {
        ConcurrentWalSystemConfig {
            wal_dir: "data/wal".to_string(),
            num_stripes: 16,
            stripe_capacity: 1024,
            segment_size: 64 * 1024 * 1024,
            segments_to_retain: 10,
            flush_interval_ms: 10,
            durability_mode: DurabilityMode::Synchronous,
            write_buffer_size: 64 * 1024,
            wal_cipher: None,
            wal_key_version: None,
            tolerate_torn_tail: true,
            max_append_block_ms: DEFAULT_MAX_APPEND_BLOCK_MS,
            acquire_timeout_ms: DEFAULT_ACQUIRE_TIMEOUT_MS,
        }
    }
}

impl ConcurrentWalSystemConfig {
    /// Whether a log can be made from the configuration.
    pub open spec fn is_valid(&self) -> bool {
        &&& self.num_stripes <= max_rounded()
        &&& 0 < self.stripe_capacity <= max_rounded()
    }

    /// Create a new config with the specified WAL directory.
    pub fn new(wal_dir: String) -> (config: Self)
        ensures
            config == default_system_config(wal_dir),
    {
        let mut config = Self::default();
        config.wal_dir = wal_dir;
        config
    }

    /// Set the durability mode.
    pub fn with_durability_mode(self, mode: DurabilityMode) -> (config: Self)
        ensures
            config == (ConcurrentWalSystemConfig { durability_mode: mode, ..self }),
    {
        let mut config = self;
        config.durability_mode = mode;
        config
    }

    /// Set the number of stripes, rounded up to a power of 2.
    pub fn with_num_stripes(self, num_stripes: usize) -> (config: Self)
        requires
            num_stripes <= max_rounded(),
        ensures
            is_next_power_of_two(config.num_stripes as int, num_stripes as int),
            config.num_stripes <= max_rounded(),
            config == (ConcurrentWalSystemConfig { num_stripes: config.num_stripes, ..self }),
    {
        let mut config = self;
        config.num_stripes = next_power_of_two(num_stripes);
        config
    }

    /// Set the flush interval in milliseconds.
    pub fn with_flush_interval_ms(self, ms: u64) -> (config: Self)
        ensures
            config == (ConcurrentWalSystemConfig { flush_interval_ms: ms, ..self }),
    {
        let mut config = self;
        config.flush_interval_ms = ms;
        config
    }

    /// Set the bound on blocking appends in milliseconds (`0` = unbounded).
    pub fn with_max_append_block_ms(self, ms: u64) -> (config: Self)
        ensures
            config == (ConcurrentWalSystemConfig { max_append_block_ms: ms, ..self }),
    {
        let mut config = self;
        config.max_append_block_ms = ms;
        config
    }

    /// Set the bound on acquiring the group-commit state, in milliseconds
    /// (`0` = unbounded).
    pub fn with_acquire_timeout_ms(self, ms: u64) -> (config: Self)
        ensures
            config == (ConcurrentWalSystemConfig { acquire_timeout_ms: ms, ..self }),
    {
        let mut config = self;
        config.acquire_timeout_ms = ms;
        config
    }
}

/// What the segment writer of a log is configured with.
#[derive(Debug, Clone)]
pub struct FlushCoordinatorConfig {
    pub wal_dir: String,
    pub segment_size: usize,
    pub segments_to_retain: usize,
    pub flush_interval_ms: u64,
    /// Whether a flush is synced by default.
    pub sync_on_flush: bool,
    pub write_buffer_size: usize,
}

} // verus!
