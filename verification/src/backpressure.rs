//! How writers behave when a ring buffer is full.

use vstd::prelude::*;

verus! {

/// Backpressure configuration for ring buffer operations.
///
/// A writer that finds the buffer full first spins, with a number of
/// iterations that doubles from `initial_spins` to `max_spins`, and then
/// sleeps, with a duration that doubles from `base_sleep_us` to
/// `max_sleep_us`.
#[derive(Debug, Clone, Copy, PartialEq, Eq, Structural)]
pub struct BackpressureConfig {
    /// Spin loop iterations on first contention.
    pub initial_spins: u32,
    /// Maximum spin iterations before yielding.
    pub max_spins: u32,
    /// Base sleep duration in microseconds for blocking backoff.
    pub base_sleep_us: u64,
    /// Maximum sleep duration in microseconds.
    pub max_sleep_us: u64,
}

/// The sleep that follows a sleep of `sleep_us`: twice as long, at most `max_us`.
pub open spec fn doubled(sleep_us: int, max_us: int) -> int {
    if 2 * sleep_us < max_us {
        2 * sleep_us
    } else {
        max_us
    }
}

impl BackpressureConfig {
    /// Whether the spin phase starts at one spin at least and never shrinks.
    pub open spec fn is_valid(&self) -> bool {
        0 < self.initial_spins <= self.max_spins
    }

    /// Check that the spin phase makes progress.
    pub fn validate(&self) -> (result: Result<(), String>)
        ensures
            result is Ok <==> self.is_valid(),
            result matches Err(reason) ==> reason@ == if self.initial_spins == 0 {
                "initial_spins must be > 0 to prevent infinite spin loops"@
            } else {
                "max_spins must be >= initial_spins"@
            },
    {
        if self.initial_spins == 0 {
            return Err("initial_spins must be > 0 to prevent infinite spin loops".to_string());
        }
        if self.max_spins < self.initial_spins {
            return Err("max_spins must be >= initial_spins".to_string());
        }
        Ok(())
    }

    /// Configuration for low-latency operations: more spinning, shorter sleeps.
    pub fn low_latency() -> (config: Self)
        ensures
            config == (BackpressureConfig {
                initial_spins: 100,
                max_spins: 10_000,
                base_sleep_us: 1,
                max_sleep_us: 100,
            }),
    {
        BackpressureConfig {
            initial_spins: 100,
            max_spins: 10_000,
            base_sleep_us: 1,
            max_sleep_us: 100,
        }
    }

    /// Configuration for high-throughput batches: less spinning, longer sleeps.
    pub fn high_throughput() -> (config: Self)
        ensures
            config == (BackpressureConfig {
                initial_spins: 5,
                max_spins: 100,
                base_sleep_us: 10,
                max_sleep_us: 10_000,
            }),
    {
        BackpressureConfig {
            initial_spins: 5,
            max_spins: 100,
            base_sleep_us: 10,
            max_sleep_us: 10_000,
        }
    }

    /// The sleep that follows a sleep of `sleep_us`.
    pub fn next_sleep(&self, sleep_us: u64) -> (next: u64)
        ensures
            next == doubled(sleep_us as int, self.max_sleep_us as int),
    {
        if sleep_us <= u64::MAX / 2 && sleep_us * 2 < self.max_sleep_us {
            sleep_us * 2
        } else {
            self.max_sleep_us
        }
    }
}

/// The configuration that ring buffers get when none is named.
pub open spec fn default_backpressure() -> BackpressureConfig {
    BackpressureConfig { initial_spins: 10, max_spins: 1000, base_sleep_us: 1, max_sleep_us: 1000 }
}

impl Default for BackpressureConfig {
    fn default() -> (config: Self)
        ensures
            config == default_backpressure(),
    {
        BackpressureConfig {
            initial_spins: 10,
            max_spins: 1000,
            base_sleep_us: 1,
            max_sleep_us: 1000,
        }
    }
}

/// How often a writer whose current round is `limit` spins long finds the
/// buffer full before it gives up, from the start of that round: the rounds
/// double up to `max`.
pub open spec fn spin_budget(limit: nat, max: nat) -> nat
    decreases max - limit,
{
    let round = if limit == 0 {
        1
    } else {
        limit
    };
    if limit >= max {
        round
    } else if 2 * round < max {
        round + spin_budget(2 * round, max)
    } else {
        round + spin_budget(max, max)
    }
}

/// How often a writer finds a full buffer full before it gives up spinning.
pub open spec fn fresh_spins(config: BackpressureConfig) -> nat {
    spin_budget(config.initial_spins as nat, config.max_spins as nat)
}

/// The spin phase of one append.
#[derive(Debug)]
pub struct SpinBackoff {
    left: u64,
}

impl View for SpinBackoff {
    type V = nat;

    /// How many more times the buffer may be found full, this time included,
    /// before the writer stops spinning.
    closed spec fn view(&self) -> nat {
        self.left as nat
    }
}

impl SpinBackoff {
    /// Start the spin phase of one append.
    pub fn new(config: &BackpressureConfig) -> (backoff: Self)
        ensures
            backoff@ == fresh_spins(*config),
    {
        let max: u32 = config.max_spins;
        let mut limit: u32 = config.initial_spins;
        let mut left: u64 = 0;
        proof {
            lemma_budget_bound(limit as nat, max as nat);
        }
        while limit < max
            invariant
                max == config.max_spins,
                left + spin_budget(limit as nat, max as nat) == fresh_spins(*config),
                fresh_spins(*config) <= 3 * (u32::MAX as nat),
            decreases max - limit,
        {
            let round: u32 = if limit == 0 {
                1
            } else {
                limit
            };
            left = left + round as u64;
            limit = if round <= u32::MAX / 2 && round * 2 < max {
                round * 2
            } else {
                max
            };
        }
        let round: u32 = if limit == 0 {
            1
        } else {
            limit
        };
        SpinBackoff { left: left + round as u64 }
    }

    /// The buffer was found full once more: whether the writer spins on.
    pub fn spin(&mut self) -> (go_on: bool)
        ensures
            go_on <==> old(self)@ > 1,
            final(self)@ == if go_on {
                (old(self)@ - 1) as nat
            } else {
                old(self)@
            },
    {
        if self.left > 1 {
            self.left = self.left - 1;
            true
        } else {
            false
        }
    }
}

proof fn lemma_budget_bound(limit: nat, max: nat)
    ensures
        limit >= max ==> spin_budget(limit, max) <= limit + 1,
        limit < max ==> spin_budget(limit, max) + (if limit == 0 {
            1
        } else {
            limit
        }) <= 3 * max,
    decreases max - limit,
{
    let round = if limit == 0 {
        1
    } else {
        limit
    };
    if limit < max {
        if 2 * round < max {
            lemma_budget_bound(2 * round, max);
        } else {
            lemma_budget_bound(max, max);
        }
    }
}

} // verus!
