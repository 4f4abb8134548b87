//! How the log comes to an end, and how its flush thread is woken.

use vstd::prelude::*;

use crate::concurrent::{ConcurrentWal, ShutdownOutcome, WalView};
use crate::concurrent_system::{ConcurrentWalSystem, FlushNotifier, FlushRequest, SystemView};
use crate::error::{Error, ErrorView};
use crate::laws::draining::{flushes_everything, lemma_request_takes_everything};
use crate::ring_buffer::RingView;
use crate::text::decimal;

verus! {

/// Whether `after` is `before` with every stripe closed and all entries kept.
pub open spec fn is_shut(before: Seq<RingView>, after: Seq<RingView>) -> bool {
    &&& after.len() == before.len()
    &&& forall|k: int|
        0 <= k < before.len() ==> #[trigger] after[k] == (RingView { closed: true, ..before[k] })
}

/// Whether `limit` is when a shutdown that begins at `now` stops waiting: after
/// the bound on blocking appends, but not before a second, as far as the clock
/// reaches.
pub open spec fn is_shutdown_limit(limit: u64, now: u64, bound_ms: u64) -> bool {
    let wait_ms = if bound_ms < 1000 {
        1000
    } else {
        bound_ms as int
    };
    if now + wait_ms * 1_000_000 <= u64::MAX {
        limit == now + wait_ms * 1_000_000
    } else {
        limit == u64::MAX
    }
}

/// A log that is closed keeps its entries and takes no more.
pub proof fn lemma_closed_log_keeps_its_entries(wal: &mut ConcurrentWal, closed: bool)
    requires
        old(wal).wf(),
        call_ensures(ConcurrentWal::close, (wal,), ()),
        call_ensures(ConcurrentWal::is_closed, (&*final(wal),), closed),
    ensures
        closed,
        is_shut(old(wal)@.stripes, final(wal)@.stripes),
        final(wal)@ == (WalView { stripes: final(wal)@.stripes, ..old(wal)@ }),
{
    old(wal).lemma_stripes();
}

/// A shutdown closes the log and refuses appends from then on.
pub proof fn lemma_shutdown_refuses_appends(
    wal: &mut ConcurrentWal,
    now: u64,
    limit: u64,
    checked: Result<(), Error>,
    before: Result<(), Error>,
)
    requires
        call_ensures(ConcurrentWal::check_not_shutting_down, (&*old(wal),), before),
        call_ensures(ConcurrentWal::shutdown_graceful, (wal, now), limit),
        call_ensures(ConcurrentWal::check_not_shutting_down, (&*final(wal),), checked),
    ensures
        before is Ok <==> !old(wal)@.shutdown_requested,
        checked matches Err(error) && error@ == ErrorView::Wal("WAL is shutting down"@),
        final(wal)@.shutdown_requested,
        is_shut(old(wal)@.stripes, final(wal)@.stripes),
        is_shutdown_limit(limit, now, old(wal)@.config.max_append_block_ms),
        final(wal)@ == (WalView {
            shutdown_requested: true,
            stripes: final(wal)@.stripes,
            ..old(wal)@
        }),
{
}

/// A shutdown is over once no append is in flight, or else when its time is up.
pub proof fn lemma_shutdown_waits_for_appends(
    wal: &ConcurrentWal,
    now: u64,
    limit: u64,
    outcome: Option<ShutdownOutcome>,
)
    requires
        call_ensures(ConcurrentWal::shutdown_poll, (wal, now, limit), outcome),
    ensures
        outcome == Some(ShutdownOutcome::Completed) <==> wal@.active_batches == 0,
        outcome is None <==> wal@.active_batches > 0 && now < limit,
        outcome matches Some(ShutdownOutcome::TimedOut { active_batches })
            ==> active_batches == wal@.active_batches,
{
}

/// The shutdown of a system closes its log, and touches nothing else.
pub proof fn lemma_system_shutdown_closes_the_log(
    system: &mut ConcurrentWalSystem,
    now: u64,
    limit: u64,
)
    requires
        call_ensures(ConcurrentWalSystem::shutdown, (system, now), limit),
    ensures
        final(system)@.wal.shutdown_requested,
        is_shut(old(system)@.wal.stripes, final(system)@.wal.stripes),
        is_shutdown_limit(limit, now, old(system)@.wal.config.max_append_block_ms),
        final(system)@ == (SystemView {
            wal: WalView {
                shutdown_requested: true,
                stripes: final(system)@.wal.stripes,
                ..old(system)@.wal
            },
            ..old(system)@
        }),
{
}

/// The flush thread is told to stop, and woken for it, once the appends are over
/// or their time is up; in that case it is said how many were left.
pub proof fn lemma_shutdown_stops_the_flush_thread(
    system: &mut ConcurrentWalSystem,
    now: u64,
    limit: u64,
    over: Option<Option<String>>,
    told: bool,
)
    requires
        call_ensures(ConcurrentWalSystem::poll_shutdown, (system, now, limit), over),
        call_ensures(ConcurrentWalSystem::is_shutdown_signaled, (&*final(system),), told),
    ensures
        over is Some <==> old(system)@.wal.active_batches == 0 || now >= limit,
        over matches Some(None) <==> old(system)@.wal.active_batches == 0,
        over matches Some(Some(text)) ==> text@ == "WAL shutdown timed out with "@ + decimal(
            old(system)@.wal.active_batches as nat,
        )
            + " appenders still in flight; buffers are closed, they will exit via the Closed path"@,
        over is Some ==> told && final(system)@ == (SystemView {
            shutdown_signal: true,
            signaled: true,
            ..old(system)@
        }),
        over is None ==> final(system)@ == old(system)@,
{
}

/// Once the flush thread has ended, the end of a shutdown flushes and syncs
/// whatever is still buffered, in every mode. Until then there is nothing to do
/// for the caller.
pub proof fn lemma_shutdown_flushes_the_rest(
    system: &mut ConcurrentWalSystem,
    request: Option<FlushRequest>,
    joining: &mut ConcurrentWalSystem,
    rest: Option<FlushRequest>,
    ending: &mut ConcurrentWalSystem,
)
    requires
        old(system).wf(),
        old(system)@.has_flush_thread,
        call_ensures(ConcurrentWalSystem::finish_shutdown, (system,), request),
        old(joining).wf(),
        call_ensures(ConcurrentWalSystem::flush_thread_joined, (joining,), ()),
        *old(ending) == *final(joining),
        call_ensures(ConcurrentWalSystem::finish_shutdown, (ending,), rest),
    ensures
        request is None,
        final(system)@ == old(system)@,
        final(joining)@ == (SystemView { has_flush_thread: false, ..old(joining)@ }),
        flushes_everything(old(joining)@.wal, final(ending)@.wal, rest, true),
        final(ending)@ == (SystemView {
            wal: final(ending)@.wal,
            has_flush_thread: false,
            ..old(joining)@
        }),
{
    old(joining).lemma_epochs();
    lemma_request_takes_everything(old(ending)@.wal, final(ending)@.wal, rest, true);
}

/// A signal to the flush thread is taken once, and is gone then; a wait that
/// timed out was not ended by it, but uses it up.
pub proof fn lemma_signals_are_taken_once(
    fresh: FlushNotifier,
    signaling: &mut FlushNotifier,
    taking: &mut FlushNotifier,
    taken: bool,
    again: &mut FlushNotifier,
    taken_again: bool,
    parked: &mut FlushNotifier,
    timed_out: bool,
    woken: bool,
    started: &mut FlushNotifier,
    none: bool,
)
    requires
        call_ensures(FlushNotifier::new, (), fresh),
        *old(started) == fresh,
        call_ensures(FlushNotifier::take_signal, (started,), none),
        call_ensures(FlushNotifier::notify, (signaling,), ()),
        *old(taking) == *final(signaling),
        call_ensures(FlushNotifier::take_signal, (taking,), taken),
        *old(again) == *final(taking),
        call_ensures(FlushNotifier::take_signal, (again,), taken_again),
        *old(parked) == *final(signaling),
        call_ensures(FlushNotifier::after_wait, (parked, timed_out), woken),
    ensures
        !none,
        taken,
        !taken_again,
        woken <==> !timed_out,
        !final(parked)@,
{
}

/// The same for the signal of a system.
pub proof fn lemma_system_signals_are_taken_once(
    system: &mut ConcurrentWalSystem,
    taken: bool,
    parked: &mut ConcurrentWalSystem,
    timed_out: bool,
    woken: bool,
)
    requires
        call_ensures(ConcurrentWalSystem::take_flush_signal, (system,), taken),
        call_ensures(ConcurrentWalSystem::flush_wait_over, (parked, timed_out), woken),
    ensures
        taken <==> old(system)@.signaled,
        final(system)@ == (SystemView { signaled: false, ..old(system)@ }),
        woken <==> old(parked)@.signaled && !timed_out,
        final(parked)@ == (SystemView { signaled: false, ..old(parked)@ }),
{
}

} // verus!
