//! Configuration of the striped log.

use vstd::prelude::*;

use crate::power::{is_next_power_of_two, max_rounded, next_power_of_two};

verus! {

/// Default number of stripes.
pub const DEFAULT_NUM_STRIPES: usize = 16;

/// Default ring buffer capacity per stripe.
pub const DEFAULT_STRIPE_CAPACITY: usize = 1024;

/// Default bound on how long a writer blocks on a full ring buffer: generous
/// enough that healthy backpressure is never mistaken for a stall, short
/// enough that a dead flush thread surfaces as a diagnosable error.
pub const DEFAULT_MAX_APPEND_BLOCK_MS: u64 = 30_000;

/// Configuration for the concurrent WAL.
#[derive(Debug, Clone)]
pub struct ConcurrentWalConfig {
    /// WAL directory path.
    pub wal_dir: String,
    /// Number of stripes.
    pub num_stripes: usize,
    /// Ring buffer capacity per stripe.
    pub stripe_capacity: usize,
    /// Maximum segment size in bytes before rotation.
    pub segment_size: usize,
    /// Number of segments to retain.
    pub segments_to_retain: usize,
    /// Maximum time in milliseconds that a writer blocks on a full ring buffer
    /// without progress; `0` means unbounded.
    pub max_append_block_ms: u64,
}

impl Default for ConcurrentWalConfig {
    fn default() -> (config: Self)
        ensures
            config.wal_dir@ == "data/wal"@,
            config == (ConcurrentWalConfig {
                wal_dir: config.wal_dir,
                num_stripes: 16,
                stripe_capacity: 1024,
                segment_size: 0x400_0000,
                segments_to_retain: 10,
                max_append_block_ms: 30_000,
            }),
    {
        ConcurrentWalConfig {
            wal_dir: "data/wal".to_string(),
            num_stripes: DEFAULT_NUM_STRIPES,
            stripe_capacity: DEFAULT_STRIPE_CAPACITY,
            segment_size: 64 * 1024 * 1024,
            segments_to_retain: 10,
            max_append_block_ms: DEFAULT_MAX_APPEND_BLOCK_MS,
        }
    }
}

impl ConcurrentWalConfig {
    /// Whether a log can be made from the configuration: every stripe has a
    /// slot, and the sizes can be rounded up to powers of 2.
    pub open spec fn is_valid(&self) -> bool {
        &&& self.num_stripes <= max_rounded()
        &&& 0 < self.stripe_capacity <= max_rounded()
    }

    /// Create a new config with specified WAL directory.
    pub fn new(wal_dir: String) -> (config: Self)
        ensures
            config == (ConcurrentWalConfig {
                wal_dir,
                num_stripes: 16,
                stripe_capacity: 1024,
                segment_size: 0x400_0000,
                segments_to_retain: 10,
                max_append_block_ms: 30_000,
            }),
    {
        let mut config = Self::default();
        config.wal_dir = wal_dir;
        config
    }

    /// Set the number of stripes, rounded up to a power of 2.
    pub fn with_num_stripes(self, num_stripes: usize) -> (config: Self)
        requires
            num_stripes <= max_rounded(),
        ensures
            is_next_power_of_two(config.num_stripes as int, num_stripes as int),
            config.num_stripes <= max_rounded(),
            config == (ConcurrentWalConfig { num_stripes: config.num_stripes, ..self }),
    {
        let mut config = self;
        config.num_stripes = next_power_of_two(num_stripes);
        config
    }

    /// Set the stripe capacity.
    pub fn with_stripe_capacity(self, capacity: usize) -> (config: Self)
        ensures
            config == (ConcurrentWalConfig { stripe_capacity: capacity, ..self }),
    {
        let mut config = self;
        config.stripe_capacity = capacity;
        config
    }

    /// Set the segment size.
    pub fn with_segment_size(self, size: usize) -> (config: Self)
        ensures
            config == (ConcurrentWalConfig { segment_size: size, ..self }),
    {
        let mut config = self;
        config.segment_size = size;
        config
    }

    /// Set the bound on blocking appends (`0` = unbounded).
    pub fn with_max_append_block_ms(self, ms: u64) -> (config: Self)
        ensures
            config == (ConcurrentWalConfig { max_append_block_ms: ms, ..self }),
    {
        let mut config = self;
        config.max_append_block_ms = ms;
        config
    }
}

} // verus!
