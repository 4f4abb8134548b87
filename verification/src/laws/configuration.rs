//! What is configured, and what a log is made of from it.

use vstd::arithmetic::power2::pow2;
use vstd::prelude::*;

use crate::concurrent::{AppendDrainer, ConcurrentWal, WalView};
use crate::concurrent_system::ConcurrentWalSystem;
use crate::error::Error;
use crate::group_commit::GroupCommitConfig;
use crate::system_config::{ConcurrentWalSystemConfig, DurabilityMode};
use crate::wal_config::ConcurrentWalConfig;

verus! {

/// What a log is configured with where nothing else is said.
pub proof fn lemma_default_log_configuration(
    dir: String,
    standard: ConcurrentWalConfig,
    config: ConcurrentWalConfig,
)
    requires
        call_ensures(<ConcurrentWalConfig as Default>::default, (), standard),
        call_ensures(ConcurrentWalConfig::new, (dir,), config),
    ensures
        standard.wal_dir@ == "data/wal"@,
        config.wal_dir == dir,
        config.num_stripes == 16,
        config.stripe_capacity == 1024,
        config.segment_size == 64 * 1024 * 1024,
        config.segments_to_retain == 10,
        config.max_append_block_ms == 30_000,
        standard == (ConcurrentWalConfig { wal_dir: standard.wal_dir, ..config }),
{
}

/// What a log system is configured with where nothing else is said.
pub proof fn lemma_default_system_configuration(
    dir: String,
    standard: ConcurrentWalSystemConfig,
    config: ConcurrentWalSystemConfig,
)
    requires
        call_ensures(<ConcurrentWalSystemConfig as Default>::default, (), standard),
        call_ensures(ConcurrentWalSystemConfig::new, (dir,), config),
    ensures
        standard.wal_dir@ == "data/wal"@,
        config.wal_dir == dir,
        config.num_stripes == 16,
        config.stripe_capacity == 1024,
        config.segment_size == 64 * 1024 * 1024,
        config.segments_to_retain == 10,
        config.flush_interval_ms == 10,
        config.durability_mode == DurabilityMode::Synchronous,
        config.write_buffer_size == 64 * 1024,
        config.wal_cipher is None,
        config.wal_key_version is None,
        config.tolerate_torn_tail,
        config.max_append_block_ms == 30_000,
        config.acquire_timeout_ms == 120_000,
        standard == (ConcurrentWalSystemConfig { wal_dir: standard.wal_dir, ..config }),
{
}

/// Each setting of a log sets what it is named after, and nothing else. The
/// number of stripes is rounded up to a power of two.
pub proof fn lemma_log_settings(
    config: ConcurrentWalConfig,
    stripes: usize,
    striped: ConcurrentWalConfig,
    capacity: usize,
    sized: ConcurrentWalConfig,
    segment: usize,
    segmented: ConcurrentWalConfig,
    bound: u64,
    bounded: ConcurrentWalConfig,
    e: nat,
)
    requires
        call_ensures(ConcurrentWalConfig::with_num_stripes, (config, stripes), striped),
        call_ensures(ConcurrentWalConfig::with_stripe_capacity, (config, capacity), sized),
        call_ensures(ConcurrentWalConfig::with_segment_size, (config, segment), segmented),
        call_ensures(ConcurrentWalConfig::with_max_append_block_ms, (config, bound), bounded),
    ensures
        striped.num_stripes >= stripes,
        exists|k: nat| striped.num_stripes == #[trigger] pow2(k),
        pow2(e) >= stripes ==> striped.num_stripes <= pow2(e),
        striped == (ConcurrentWalConfig { num_stripes: striped.num_stripes, ..config }),
        sized == (ConcurrentWalConfig { stripe_capacity: capacity, ..config }),
        segmented == (ConcurrentWalConfig { segment_size: segment, ..config }),
        bounded == (ConcurrentWalConfig { max_append_block_ms: bound, ..config }),
{
}

/// The same for the settings of a log system.
pub proof fn lemma_system_settings(
    config: ConcurrentWalSystemConfig,
    mode: DurabilityMode,
    moded: ConcurrentWalSystemConfig,
    stripes: usize,
    striped: ConcurrentWalSystemConfig,
    interval: u64,
    timed: ConcurrentWalSystemConfig,
    bound: u64,
    bounded: ConcurrentWalSystemConfig,
    timeout: u64,
    guarded: ConcurrentWalSystemConfig,
    e: nat,
)
    requires
        call_ensures(ConcurrentWalSystemConfig::with_durability_mode, (config, mode), moded),
        call_ensures(ConcurrentWalSystemConfig::with_num_stripes, (config, stripes), striped),
        call_ensures(
            ConcurrentWalSystemConfig::with_flush_interval_ms,
            (config, interval),
            timed,
        ),
        call_ensures(
            ConcurrentWalSystemConfig::with_max_append_block_ms,
            (config, bound),
            bounded,
        ),
        call_ensures(
            ConcurrentWalSystemConfig::with_acquire_timeout_ms,
            (config, timeout),
            guarded,
        ),
    ensures
        moded == (ConcurrentWalSystemConfig { durability_mode: mode, ..config }),
        striped.num_stripes >= stripes,
        exists|k: nat| striped.num_stripes == #[trigger] pow2(k),
        pow2(e) >= stripes ==> striped.num_stripes <= pow2(e),
        striped == (ConcurrentWalSystemConfig { num_stripes: striped.num_stripes, ..config }),
        timed == (ConcurrentWalSystemConfig { flush_interval_ms: interval, ..config }),
        bounded == (ConcurrentWalSystemConfig { max_append_block_ms: bound, ..config }),
        guarded == (ConcurrentWalSystemConfig { acquire_timeout_ms: timeout, ..config }),
{
}

/// What tells the durability modes apart: only the synchronous one has no flush
/// thread, and exactly the two batched ones have a group commit, with their own
/// batch size and delay.
pub proof fn lemma_modes(
    mode: DurabilityMode,
    timeout: u64,
    group: Option<GroupCommitConfig>,
    threaded: bool,
    synchronous: bool,
    unwaited: bool,
    grouped: bool,
)
    requires
        call_ensures(DurabilityMode::group_config, (&mode, timeout), group),
        call_ensures(DurabilityMode::has_flush_thread, (&mode,), threaded),
        call_ensures(DurabilityMode::is_synchronous, (&mode,), synchronous),
        call_ensures(DurabilityMode::is_async, (&mode,), unwaited),
        call_ensures(DurabilityMode::is_group_commit, (&mode,), grouped),
    ensures
        match mode {
            DurabilityMode::Synchronous => {
                synchronous && !unwaited && !grouped && !threaded && group is None
            },
            DurabilityMode::Async { .. } => {
                !synchronous && unwaited && !grouped && threaded && group is None
            },
            DurabilityMode::GroupCommit { max_batch_size, max_delay_ms } => {
                &&& !synchronous && !unwaited && grouped && threaded
                &&& group matches Some(g)
                &&& g.max_batch_size == max_batch_size
                &&& g.max_delay_ms == max_delay_ms
                &&& g.acquire_timeout_ms == timeout
            },
            DurabilityMode::AsyncBatched { max_batch_size, max_delay_ms } => {
                &&& !synchronous && !unwaited && !grouped && threaded
                &&& group matches Some(g)
                &&& g.max_batch_size == max_batch_size
                &&& g.max_delay_ms == max_delay_ms
                &&& g.acquire_timeout_ms == timeout
            },
        },
{
}

/// Whether `wal` is a log without entries, waiters or history, with as many
/// stripes, of as many slots, as asked for, both rounded up to powers of two.
pub open spec fn is_new_log(wal: WalView, stripes: usize, capacity: usize) -> bool {
    &&& wal.next_lsn == 1
    &&& wal.total_appends == 0
    &&& !wal.shutdown_requested
    &&& wal.active_batches == 0
    &&& forall|ticket: u64| !#[trigger] wal.completions.contains_key(ticket)
    &&& wal.next_ticket == 0
    &&& wal.last_batch_arms == 0
    &&& wal.slow_reports == 0
    &&& wal.stripes.len() >= stripes
    &&& exists|k: nat| wal.stripes.len() == #[trigger] pow2(k)
    &&& forall|k: nat| #[trigger] pow2(k) >= stripes ==> wal.stripes.len() <= pow2(k)
    &&& forall|i: int|
        0 <= i < wal.stripes.len() ==> {
            &&& (#[trigger] wal.stripes[i]).pending.len() == 0
            &&& !wal.stripes[i].closed
            &&& wal.stripes[i].read_pos == 0
            &&& wal.stripes[i].capacity >= capacity
            &&& exists|k: nat| wal.stripes[i].capacity == #[trigger] pow2(k)
            &&& forall|k: nat| #[trigger]
                pow2(k) >= capacity ==> wal.stripes[i].capacity <= pow2(k)
        }
}

/// A log starts empty, with what it is configured with.
pub proof fn lemma_new_log(config: ConcurrentWalConfig, result: Result<ConcurrentWal, Error>)
    requires
        call_ensures(ConcurrentWal::new, (config,), result),
    ensures
        result matches Ok(wal) && wal.wf() && wal@.config == config && is_new_log(
            wal@,
            config.num_stripes,
            config.stripe_capacity,
        ) && wal@.async_drainer == AppendDrainer::BackgroundFlusher,
{
}

/// Without a configuration a log has what a configuration has where nothing is
/// said.
pub proof fn lemma_new_default_log(
    dir: String,
    config: ConcurrentWalConfig,
    result: Result<ConcurrentWal, Error>,
)
    requires
        call_ensures(ConcurrentWalConfig::new, (dir,), config),
        call_ensures(ConcurrentWal::with_defaults, (dir,), result),
    ensures
        result matches Ok(wal) && wal.wf() && wal@.config == config && is_new_log(wal@, 16, 1024),
{
}

/// A system starts with an empty log, in the mode it is configured with: with
/// a flush thread unless it is synchronous, with an empty first epoch if it has
/// epochs, syncing by default exactly if it is synchronous or group commit, and
/// with the keyring of its cipher, if it has one.
pub proof fn lemma_new_system(
    config: ConcurrentWalSystemConfig,
    now_micros: u64,
    result: Result<ConcurrentWalSystem, Error>,
)
    requires
        call_ensures(ConcurrentWalSystem::new, (config, now_micros), result),
    ensures
        result matches Ok(system) && system.wf() && {
            let s = system@;
            let mode = config.durability_mode;
            &&& is_new_log(s.wal, config.num_stripes, config.stripe_capacity)
            &&& s.wal.config.wal_dir@ == config.wal_dir@
            &&& s.wal.config.num_stripes == config.num_stripes
            &&& s.wal.config.stripe_capacity == config.stripe_capacity
            &&& s.wal.config.segment_size == config.segment_size
            &&& s.wal.config.segments_to_retain == config.segments_to_retain
            &&& s.wal.config.max_append_block_ms == config.max_append_block_ms
            &&& s.wal.async_drainer == if mode is Synchronous {
                AppendDrainer::CallingThread
            } else {
                AppendDrainer::BackgroundFlusher
            }
            &&& s.segments.wal_dir == config.wal_dir
            &&& s.segments.segment_size == config.segment_size
            &&& s.segments.segments_to_retain == config.segments_to_retain
            &&& s.segments.flush_interval_ms == config.flush_interval_ms
            &&& s.segments.write_buffer_size == config.write_buffer_size
            &&& s.segments.sync_on_flush <==> mode is Synchronous || mode is GroupCommit
            &&& s.mode == mode
            &&& s.has_flush_thread <==> mode !is Synchronous
            &&& !s.shutdown_signal && !s.signaled && !s.membership_held && !s.injected_error
            &&& s.flush_errors == 0 && s.heartbeat == 0 && s.cycle_errors == 0
            &&& s.last_beat_micros == now_micros
            &&& s.flush_interval_ms == config.flush_interval_ms
            &&& s.staleness_override_micros == 0
            &&& s.total_flushed == 0
            &&& s.tolerate_torn_tail == config.tolerate_torn_tail
            &&& s.roll is None
        },
{
}

/// The first epoch of a new system is open and empty, with the batch size, the
/// delay and the timeout that it is configured with.
pub proof fn lemma_first_epoch(
    config: ConcurrentWalSystemConfig,
    now_micros: u64,
    system: ConcurrentWalSystem,
)
    requires
        call_ensures(ConcurrentWalSystem::new, (config, now_micros), Ok::<_, Error>(system)),
    ensures
        match config.durability_mode {
            DurabilityMode::GroupCommit { max_batch_size, max_delay_ms } => is_first_epoch(
                system,
                max_batch_size,
                max_delay_ms,
                config.acquire_timeout_ms,
            ),
            DurabilityMode::AsyncBatched { max_batch_size, max_delay_ms } => is_first_epoch(
                system,
                max_batch_size,
                max_delay_ms,
                config.acquire_timeout_ms,
            ),
            _ => system@.group_commit is None,
        },
        config.wal_cipher is None ==> system@.keyring is None,
        config.wal_cipher matches Some(cipher) ==> (system@.keyring matches Some(keyring)
            && keyring.cipher == cipher && keyring.version == if config.wal_key_version is Some {
            config.wal_key_version->0
        } else {
            1
        }),
{
}

/// Whether the group commit of `system` is in its first epoch, with nothing
/// registered or finished, and configured as given.
pub open spec fn is_first_epoch(
    system: ConcurrentWalSystem,
    max_batch_size: usize,
    max_delay_ms: u64,
    acquire_timeout_ms: u64,
) -> bool {
    &&& system@.group_commit matches Some(gc)
    &&& gc.config == (GroupCommitConfig { max_delay_ms, max_batch_size, acquire_timeout_ms })
    &&& gc.current_epoch == 1
    &&& gc.flushed_epoch == 0
    &&& gc.batch_size == 0
    &&& forall|epoch: u64| !#[trigger] gc.completed.contains(epoch)
    &&& gc.errors.len() == 0
    &&& !gc.poisoned
    &&& gc.refusals.register is None
    &&& gc.refusals.start_flush is None
    &&& gc.refusals.finish_flush is None
    &&& gc.refusals.batch_size is None
    &&& gc.refusals.frontier is None
}

} // verus!
