//! When the log counts as healthy.

use vstd::prelude::*;

use crate::concurrent_system::{heartbeat_staleness_threshold, ConcurrentWalSystem, SystemView};
use crate::error::Error;
use crate::lsn::LSN;
use crate::system_config::{ConcurrentWalSystemConfig, DurabilityMode};

verus! {

broadcast use crate::power::lemma_wrap_near;

/// The threshold is ten flush intervals, but never less than five seconds.
pub proof fn lemma_threshold_is_ten_intervals(flush_interval_ms: u64, threshold_ms: u128)
    requires
        call_ensures(heartbeat_staleness_threshold, (flush_interval_ms,), threshold_ms),
    ensures
        threshold_ms >= 10 * flush_interval_ms,
        threshold_ms >= 5_000,
        threshold_ms == 10 * flush_interval_ms || threshold_ms == 5_000,
{
}

/// A flusher is stale once it has been silent for longer than ten flush
/// intervals, or five seconds if that is more, and not before.
pub proof fn lemma_silence_makes_stale(
    system: &ConcurrentWalSystem,
    now_micros: u64,
    stale: bool,
)
    requires
        system@.has_flush_thread,
        system@.staleness_override_micros == 0,
        10 * system@.flush_interval_ms * 1000 <= u64::MAX,
        call_ensures(ConcurrentWalSystem::heartbeat_stale, (system, now_micros), stale),
    ensures
        stale <==> now_micros - system@.last_beat_micros > if 10 * system@.flush_interval_ms
            <= 5_000 {
            5_000_000
        } else {
            10 * system@.flush_interval_ms * 1000
        },
{
    let ms: int = if 10 * system@.flush_interval_ms <= 5_000 {
        5_000
    } else {
        10 * system@.flush_interval_ms
    };
    assert(0 <= ms * 1000 <= u64::MAX);
    assert((ms * 1000) % 0x1_0000_0000_0000_0000 == ms * 1000) by (nonlinear_arith)
        requires
            0 <= ms * 1000 <= 0xffff_ffff_ffff_ffff,
    ;
    reveal(crate::power::wrap);
}

/// Whatever the interval, what counts is the number of microseconds in the
/// threshold, as a 64-bit counter holds it.
pub proof fn lemma_threshold_is_held_in_a_counter(
    system: &ConcurrentWalSystem,
    now_micros: u64,
    stale: bool,
    threshold_ms: u128,
)
    requires
        system@.has_flush_thread,
        system@.staleness_override_micros == 0,
        call_ensures(
            heartbeat_staleness_threshold,
            (system@.flush_interval_ms,),
            threshold_ms,
        ),
        call_ensures(ConcurrentWalSystem::heartbeat_stale, (system, now_micros), stale),
    ensures
        stale <==> now_micros - system@.last_beat_micros > (threshold_ms as int * 1000)
            % 0x1_0000_0000_0000_0000,
{
    let micros = (threshold_ms as int * 1000) % 0x1_0000_0000_0000_0000;
    assert(0 <= micros <= u64::MAX);
}

/// With a threshold of its own, the flusher is stale once it has been silent
/// for longer than that.
pub proof fn lemma_override_replaces_the_threshold(
    system: &mut ConcurrentWalSystem,
    micros: u64,
    now_micros: u64,
    stale: bool,
)
    requires
        micros > 0,
        call_ensures(
            ConcurrentWalSystem::set_health_staleness_override_micros,
            (system, micros),
            (),
        ),
        call_ensures(ConcurrentWalSystem::heartbeat_stale, (&*final(system), now_micros), stale),
    ensures
        stale <==> old(system)@.has_flush_thread && now_micros - old(system)@.last_beat_micros
            > micros,
        final(system)@ == (SystemView { staleness_override_micros: micros, ..old(system)@ }),
{
}

/// A log without a flush thread is never stale, and only its flush errors
/// count.
pub proof fn lemma_no_thread_no_heartbeat(
    system: &ConcurrentWalSystem,
    now_micros: u64,
    stale: bool,
    healthy: bool,
)
    requires
        !system@.has_flush_thread,
        call_ensures(ConcurrentWalSystem::heartbeat_stale, (system, now_micros), stale),
        call_ensures(ConcurrentWalSystem::is_healthy, (system, now_micros), healthy),
    ensures
        !stale,
        healthy <==> system@.flush_errors == 0,
{
}

/// A log is healthy exactly if its last flush succeeded and its flusher is not
/// stale.
pub proof fn lemma_health_is_flushes_and_heartbeat(
    system: &ConcurrentWalSystem,
    now_micros: u64,
    stale: bool,
    healthy: bool,
    errors: u64,
)
    requires
        call_ensures(ConcurrentWalSystem::heartbeat_stale, (system, now_micros), stale),
        call_ensures(ConcurrentWalSystem::is_healthy, (system, now_micros), healthy),
        call_ensures(ConcurrentWalSystem::consecutive_flush_errors, (system,), errors),
    ensures
        healthy <==> errors == 0 && !stale,
        errors == system@.flush_errors,
{
}

/// Silence never heals, and a flusher that was heard of later is not staler.
pub proof fn lemma_silence_never_heals(
    system: &ConcurrentWalSystem,
    earlier: u64,
    later: u64,
    first: bool,
    second: bool,
)
    requires
        earlier <= later,
        call_ensures(ConcurrentWalSystem::heartbeat_stale, (system, earlier), first),
        call_ensures(ConcurrentWalSystem::heartbeat_stale, (system, later), second),
    ensures
        first ==> second,
        earlier <= system@.last_beat_micros ==> !first,
{
}

/// A heartbeat is counted and dated, and right after it the flusher is not
/// stale. Without a flush thread there is none.
pub proof fn lemma_beat_restarts_the_clock(
    system: &mut ConcurrentWalSystem,
    now_micros: u64,
    stale: bool,
    count: u64,
)
    requires
        call_ensures(ConcurrentWalSystem::beat, (system, now_micros), ()),
        call_ensures(ConcurrentWalSystem::heartbeat_stale, (&*final(system), now_micros), stale),
        call_ensures(ConcurrentWalSystem::flush_heartbeat, (&*final(system),), count),
    ensures
        !stale,
        count == final(system)@.heartbeat,
        old(system)@.has_flush_thread ==> final(system)@.last_beat_micros == now_micros,
        old(system)@.has_flush_thread && old(system)@.heartbeat < u64::MAX ==> count
            == old(system)@.heartbeat + 1,
        old(system)@.has_flush_thread && old(system)@.heartbeat == u64::MAX ==> count == 0,
        !old(system)@.has_flush_thread ==> final(system)@ == old(system)@,
        final(system)@ == (SystemView {
            heartbeat: final(system)@.heartbeat,
            last_beat_micros: final(system)@.last_beat_micros,
            ..old(system)@
        }),
{
}

/// A new log with a flush thread is not stale for the whole threshold after it
/// was made, though its flusher never ran, and is stale from then on.
pub proof fn lemma_startup_gets_the_whole_threshold(
    config: ConcurrentWalSystemConfig,
    made: u64,
    system: &ConcurrentWalSystem,
    now_micros: u64,
    stale: bool,
    healthy: bool,
)
    requires
        config.durability_mode !is Synchronous,
        10 * config.flush_interval_ms * 1000 <= u64::MAX,
        call_ensures(ConcurrentWalSystem::new, (config, made), Ok::<_, Error>(*system)),
        call_ensures(ConcurrentWalSystem::heartbeat_stale, (system, now_micros), stale),
        call_ensures(ConcurrentWalSystem::is_healthy, (system, now_micros), healthy),
    ensures
        stale <==> now_micros - made > if 10 * config.flush_interval_ms <= 5_000 {
            5_000_000
        } else {
            10 * config.flush_interval_ms * 1000
        },
        healthy <==> !stale,
{
    lemma_silence_makes_stale(system, now_micros, stale);
}

/// The reports of the log read what they are named after.
pub proof fn lemma_system_reports(
    system: &ConcurrentWalSystem,
    appended: u64,
    flushed: u64,
    mode: DurabilityMode,
    cycle_errors: u64,
    interval: u64,
    tolerate: bool,
    bound: u64,
    lsn: LSN,
)
    requires
        call_ensures(ConcurrentWalSystem::total_appends, (system,), appended),
        call_ensures(ConcurrentWalSystem::total_flushed, (system,), flushed),
        call_ensures(ConcurrentWalSystem::durability_mode, (system,), mode),
        call_ensures(ConcurrentWalSystem::flush_cycle_errors, (system,), cycle_errors),
        call_ensures(ConcurrentWalSystem::flush_interval_ms, (system,), interval),
        call_ensures(ConcurrentWalSystem::tolerate_torn_tail, (system,), tolerate),
        call_ensures(ConcurrentWalSystem::max_append_block_ms, (system,), bound),
        call_ensures(ConcurrentWalSystem::current_lsn, (system,), lsn),
    ensures
        appended == system@.wal.total_appends,
        flushed == system@.total_flushed,
        mode == system@.mode,
        cycle_errors == system@.cycle_errors,
        interval == system@.flush_interval_ms,
        tolerate == system@.tolerate_torn_tail,
        bound == system@.wal.config.max_append_block_ms,
        lsn.0 == system@.wal.next_lsn,
{
}

} // verus!
