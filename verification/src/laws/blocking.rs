//! How long a writer waits for room, and what it does meanwhile.

use vstd::prelude::*;

use crate::backpressure::{spin_budget, BackpressureConfig, SpinBackoff};
use crate::deadline::{AppendBlockedKind, AppendDeadline};
use crate::entry::PendingEntry;
use crate::ring_buffer::{BlockedTurn, WalRingBuffer};

verus! {

broadcast use crate::power::lemma_wrap_near;

/// Any number of milliseconds other than zero is a bound; zero is none.
pub proof fn lemma_zero_means_unbounded(ms: u64, deadline: AppendDeadline, open: AppendDeadline)
    requires
        call_ensures(AppendDeadline::from_millis, (ms,), deadline),
        call_ensures(AppendDeadline::unbounded, (), open),
    ensures
        ms > 0 ==> deadline@.bound_ms == Some(ms),
        ms == 0 ==> deadline@.bound_ms is None && deadline@ == open@,
        deadline@.armed is None,
        deadline@.arms == 0,
        open@.bound_ms is None,
        open@.armed is None,
{
}

/// A deadline that has run out has a bound of nothing, and ends the wait at
/// once; a deadline says how many windows it has opened.
pub proof fn lemma_elapsed_deadline_has_run_out(
    now: u64,
    deadline: AppendDeadline,
    asked: &mut AppendDeadline,
    later: u64,
    limit: Option<u64>,
    count: u32,
)
    requires
        call_ensures(AppendDeadline::already_elapsed, (now,), deadline),
        *old(asked) == deadline,
        call_ensures(AppendDeadline::limit, (asked, later), limit),
        call_ensures(AppendDeadline::arm_count, (&deadline,), count),
    ensures
        limit == Some(now),
        count == deadline@.arms,
        count == 1,
{
}

/// A stall window ends the bound after it opened: at the instant in which the
/// writer first had to wait, plus the bound. Without a bound it never ends, nor
/// if that instant cannot be told.
pub proof fn lemma_stall_window_ends_with_the_bound(
    deadline: &mut AppendDeadline,
    now: u64,
    limit: Option<u64>,
)
    requires
        call_ensures(AppendDeadline::limit, (deadline, now), limit),
    ensures
        old(deadline)@.bound_ms is None ==> limit is None && final(deadline)@ == old(deadline)@,
        final(deadline)@.bound_ms == old(deadline)@.bound_ms,
        old(deadline)@.bound_ms matches Some(bound_ms) ==> ({
            let opened = match old(deadline)@.armed {
                Some(at) => at,
                None => now,
            };
            &&& final(deadline)@.armed == Some(opened)
            &&& opened + bound_ms * 1_000_000 <= u64::MAX ==> limit == Some(
                (opened + bound_ms * 1_000_000) as u64,
            )
            &&& opened + bound_ms * 1_000_000 > u64::MAX ==> limit is None
            &&& old(deadline)@.armed is Some ==> final(deadline)@.arms == old(deadline)@.arms
            &&& old(deadline)@.armed is None && old(deadline)@.arms < u32::MAX
                ==> final(deadline)@.arms == old(deadline)@.arms + 1
        }),
{
}

/// A writer with a bound of `ms` milliseconds that blocks first at `now` has to
/// give up at `now` plus `ms` milliseconds, and asking again later does not
/// move that instant.
pub proof fn lemma_every_bound_is_kept(
    ms: u64,
    fresh: AppendDeadline,
    deadline: &mut AppendDeadline,
    now: u64,
    limit: Option<u64>,
    again: &mut AppendDeadline,
    later: u64,
    second: Option<u64>,
)
    requires
        0 < ms,
        now + ms * 1_000_000 <= u64::MAX,
        call_ensures(AppendDeadline::from_millis, (ms,), fresh),
        *old(deadline) == fresh,
        call_ensures(AppendDeadline::limit, (deadline, now), limit),
        *old(again) == *final(deadline),
        call_ensures(AppendDeadline::limit, (again, later), second),
    ensures
        limit == Some((now + ms * 1_000_000) as u64),
        second == limit,
        final(again)@.armed == Some(now),
        final(again)@.arms == 1,
{
}

/// Progress ends the stall window: the next one opens when the writer blocks
/// again, and has the whole bound before it.
pub proof fn lemma_progress_opens_a_new_window(
    deadline: &mut AppendDeadline,
    again: &mut AppendDeadline,
    now: u64,
    limit: Option<u64>,
)
    requires
        call_ensures(AppendDeadline::note_progress, (deadline,), ()),
        *old(again) == *final(deadline),
        call_ensures(AppendDeadline::limit, (again, now), limit),
    ensures
        final(deadline)@.armed is None,
        final(deadline)@.bound_ms == old(deadline)@.bound_ms,
        final(deadline)@.arms == old(deadline)@.arms,
        old(deadline)@.bound_ms matches Some(bound_ms) ==> final(again)@.armed == Some(now) && (now
            + bound_ms * 1_000_000 <= u64::MAX ==> limit == Some(
            (now + bound_ms * 1_000_000) as u64,
        )),
{
}

/// The wait is counted from the opening of the stall window.
pub proof fn lemma_wait_is_counted_from_the_window(
    deadline: AppendDeadline,
    now: u64,
    waited: u64,
    at: Option<u64>,
    armed: bool,
)
    requires
        call_ensures(AppendDeadline::waited, (&deadline, now), waited),
        call_ensures(AppendDeadline::armed_at, (&deadline,), at),
        call_ensures(AppendDeadline::is_armed, (&deadline,), armed),
    ensures
        armed <==> at is Some,
        at == deadline@.armed,
        at matches Some(opened) ==> waited == if opened <= now {
            now - opened
        } else {
            0
        },
        at is None ==> waited == 0,
{
}

/// On a closed buffer a blocked writer is refused at once, and gets its entry
/// back.
pub proof fn lemma_closed_buffer_refuses(
    ring: WalRingBuffer,
    entry: PendingEntry,
    deadline: &mut AppendDeadline,
    backoff: &mut SpinBackoff,
    sleep_us: u64,
    now: u64,
    turn: BlockedTurn,
)
    requires
        call_ensures(
            WalRingBuffer::blocked_turn,
            (&ring, entry, deadline, backoff, sleep_us, now),
            turn,
        ),
        ring@.closed,
    ensures
        turn matches BlockedTurn::Refused(refused) && refused.entry == entry && refused.kind
            == AppendBlockedKind::Closed,
        final(deadline)@ == old(deadline)@,
{
}

/// On an open buffer a blocked writer spins while it may, once less each time,
/// and does not start its clock.
pub proof fn lemma_writer_spins_first(
    ring: WalRingBuffer,
    entry: PendingEntry,
    deadline: &mut AppendDeadline,
    backoff: &mut SpinBackoff,
    sleep_us: u64,
    now: u64,
    turn: BlockedTurn,
)
    requires
        call_ensures(
            WalRingBuffer::blocked_turn,
            (&ring, entry, deadline, backoff, sleep_us, now),
            turn,
        ),
        !ring@.closed,
        old(backoff)@ > 1,
    ensures
        turn == (BlockedTurn::Spin { entry }),
        final(deadline)@ == old(deadline)@,
        final(backoff)@ == old(backoff)@ - 1,
{
}

/// A writer that has spun out is refused with a timeout from the end of its
/// stall window on, and never before: until then it sleeps. A stall window that
/// opened at `t` with a bound of `b` milliseconds ends at `t + b * 1_000_000`.
pub proof fn lemma_writer_is_refused_from_the_end_of_its_window(
    ring: WalRingBuffer,
    entry: PendingEntry,
    deadline: &mut AppendDeadline,
    backoff: &mut SpinBackoff,
    sleep_us: u64,
    now: u64,
    turn: BlockedTurn,
)
    requires
        call_ensures(
            WalRingBuffer::blocked_turn,
            (&ring, entry, deadline, backoff, sleep_us, now),
            turn,
        ),
        !ring@.closed,
        old(backoff)@ <= 1,
    ensures
        ({
            let bound_ms = old(deadline)@.bound_ms;
            let t = match old(deadline)@.armed {
                Some(at) => at,
                None => now,
            };
            let end = t + bound_ms->0 * 1_000_000;
            &&& bound_ms is Some && end <= u64::MAX && now >= end ==> (turn
                matches BlockedTurn::Refused(refused) && refused.entry == entry && refused.kind
                == (AppendBlockedKind::TimedOut { waited_ns: (now - t) as u64 }))
            &&& bound_ms is Some && end <= u64::MAX && now < end ==> turn is Wait
            &&& bound_ms is Some && end > u64::MAX ==> turn is Wait
            &&& bound_ms is None ==> turn is Wait
            &&& bound_ms is Some ==> final(deadline)@.armed == Some(t)
            &&& bound_ms is None ==> final(deadline)@ == old(deadline)@
            &&& final(deadline)@.bound_ms == bound_ms
        }),
{
}

/// A writer sleeps for as long as it was told, but not past the end of its
/// stall window, and twice as long the next time, up to the maximum. A writer
/// that was told not to sleep only yields.
pub proof fn lemma_sleeps_double_and_end_with_the_window(
    ring: WalRingBuffer,
    entry: PendingEntry,
    deadline: &mut AppendDeadline,
    backoff: &mut SpinBackoff,
    sleep_us: u64,
    now: u64,
    turn: BlockedTurn,
)
    requires
        call_ensures(
            WalRingBuffer::blocked_turn,
            (&ring, entry, deadline, backoff, sleep_us, now),
            turn,
        ),
        turn is Wait,
    ensures
        turn matches BlockedTurn::Wait { entry: back, nap_ns, next_sleep_us } && {
            let max = ring.config().max_sleep_us;
            let t = match old(deadline)@.armed {
                Some(at) => at,
                None => now,
            };
            let end = t + old(deadline)@.bound_ms->0 * 1_000_000;
            &&& back == entry
            &&& sleep_us == 0 ==> nap_ns is None && next_sleep_us == 0
            &&& sleep_us > 0 ==> nap_ns is Some
            &&& sleep_us > 0 && 2 * sleep_us < max ==> next_sleep_us == 2 * sleep_us
            &&& sleep_us > 0 && 2 * sleep_us >= max ==> next_sleep_us == max
            &&& sleep_us > 0 && sleep_us * 1000 <= u64::MAX && (old(deadline)@.bound_ms is None
                || end > u64::MAX || now + sleep_us * 1000 <= end) ==> nap_ns == Some(
                (sleep_us * 1000) as u64,
            )
            &&& sleep_us > 0 && old(deadline)@.bound_ms is Some && end <= u64::MAX && now + sleep_us
                * 1000 > end ==> nap_ns == Some((end - now) as u64)
            &&& sleep_us * 1000 > u64::MAX && (old(deadline)@.bound_ms is None || end > u64::MAX)
                ==> nap_ns == Some(u64::MAX)
        },
{
}

/// Every sleep is followed by a whole spin phase.
pub proof fn lemma_spin_phase_follows_each_sleep(
    ring: WalRingBuffer,
    entry: PendingEntry,
    deadline: &mut AppendDeadline,
    backoff: &mut SpinBackoff,
    sleep_us: u64,
    now: u64,
    turn: BlockedTurn,
    fresh: SpinBackoff,
)
    requires
        call_ensures(
            WalRingBuffer::blocked_turn,
            (&ring, entry, deadline, backoff, sleep_us, now),
            turn,
        ),
        call_ensures(SpinBackoff::new, (&ring.config(),), fresh),
        turn is Wait,
    ensures
        final(backoff)@ == fresh@,
{
}

/// An append that finds room is placed behind what is there, and asks for
/// nothing else; one that finds none leaves the buffer as it is.
pub proof fn lemma_blocking_append_places_if_there_is_room(
    ring: &mut WalRingBuffer,
    entry: PendingEntry,
    deadline: &mut AppendDeadline,
    backoff: &mut SpinBackoff,
    sleep_us: u64,
    now: u64,
    result: Result<(), BlockedTurn>,
)
    requires
        call_ensures(
            WalRingBuffer::append_blocking_until,
            (ring, entry, deadline, backoff, sleep_us, now),
            result,
        ),
    ensures
        result is Ok <==> !old(ring)@.closed && old(ring)@.pending.len() < old(ring)@.capacity,
        result is Ok ==> final(ring)@.pending == old(ring)@.pending.push(Some(entry)),
        result is Err ==> final(ring)@ == old(ring)@,
        final(ring)@.capacity == old(ring)@.capacity,
        final(ring)@.closed == old(ring)@.closed,
        old(ring)@.closed ==> (result matches Err(BlockedTurn::Refused(refused)) && refused.kind
            == AppendBlockedKind::Closed && refused.entry == entry),
{
}

/// An append without a bound is refused on a closed buffer only: however long
/// it has waited, it goes on spinning and sleeping.
pub proof fn lemma_unbounded_append_never_times_out(
    ring: &mut WalRingBuffer,
    entry: PendingEntry,
    backoff: &mut SpinBackoff,
    sleep_us: u64,
    result: Result<(), BlockedTurn>,
)
    requires
        call_ensures(WalRingBuffer::append_blocking, (ring, entry, backoff, sleep_us), result),
    ensures
        result is Ok <==> !old(ring)@.closed && old(ring)@.pending.len() < old(ring)@.capacity,
        result is Ok ==> final(ring)@.pending == old(ring)@.pending.push(Some(entry)),
        result is Err ==> final(ring)@ == old(ring)@,
        result matches Err(turn) ==> (turn is Refused <==> old(ring)@.closed),
{
}

/// A spin phase is counted down to its end, and ends there.
pub proof fn lemma_spin_phase_counts_down(backoff: &mut SpinBackoff, go_on: bool)
    requires
        call_ensures(SpinBackoff::spin, (backoff,), go_on),
    ensures
        go_on <==> old(backoff)@ >= 2,
        go_on ==> final(backoff)@ == old(backoff)@ - 1,
        !go_on ==> final(backoff)@ == old(backoff)@,
{
}

/// The rounds of a spin phase double from the first to the last: a phase whose
/// first round is `n` long is `n` longer than one that begins with the next
/// round, and the last round is the longest.
pub proof fn lemma_spin_rounds_double(
    config: BackpressureConfig,
    next: BackpressureConfig,
    phase: SpinBackoff,
    rest: SpinBackoff,
)
    requires
        call_ensures(SpinBackoff::new, (&config,), phase),
        call_ensures(SpinBackoff::new, (&next,), rest),
        next.max_spins == config.max_spins,
        config.initial_spins > 0,
    ensures
        config.initial_spins >= config.max_spins ==> phase@ == config.initial_spins,
        config.initial_spins < config.max_spins <= 2 * config.initial_spins ==> phase@
            == config.initial_spins + config.max_spins,
        2 * config.initial_spins < config.max_spins && next.initial_spins == 2
            * config.initial_spins ==> phase@ == config.initial_spins + rest@,
{
    reveal_with_fuel(spin_budget, 2);
}

/// A spin configuration is in order if it spins at all and never spins less.
pub proof fn lemma_only_progressing_spins_are_valid(
    config: BackpressureConfig,
    result: Result<(), String>,
)
    requires
        call_ensures(BackpressureConfig::validate, (&config,), result),
    ensures
        config.initial_spins == 0 ==> (result matches Err(reason) && reason@
            == "initial_spins must be > 0 to prevent infinite spin loops"@),
        config.initial_spins > config.max_spins ==> (result matches Err(reason) && reason@
            == "max_spins must be >= initial_spins"@),
        0 < config.initial_spins <= config.max_spins ==> result is Ok,
{
}

/// Sleeps double until they reach the maximum, and stay there.
pub proof fn lemma_sleep_doubles_up_to_the_maximum(
    config: BackpressureConfig,
    sleep_us: u64,
    next: u64,
)
    requires
        call_ensures(BackpressureConfig::next_sleep, (&config, sleep_us), next),
    ensures
        2 * sleep_us <= config.max_sleep_us ==> next == 2 * sleep_us,
        2 * sleep_us >= config.max_sleep_us ==> next == config.max_sleep_us,
{
}

/// The configurations that come with a name: the standard one spins 10 to 1000
/// times and sleeps a microsecond to a millisecond; one for low latency spins
/// more and sleeps less, and one for high throughput the other way round.
pub proof fn lemma_named_configurations(
    standard: BackpressureConfig,
    fast: BackpressureConfig,
    bulk: BackpressureConfig,
)
    requires
        call_ensures(<BackpressureConfig as Default>::default, (), standard),
        call_ensures(BackpressureConfig::low_latency, (), fast),
        call_ensures(BackpressureConfig::high_throughput, (), bulk),
    ensures
        standard.initial_spins == 10 && standard.max_spins == 1000,
        standard.base_sleep_us == 1 && standard.max_sleep_us == 1000,
        fast.initial_spins == 100 && fast.max_spins == 10_000,
        fast.base_sleep_us == 1 && fast.max_sleep_us == 100,
        bulk.initial_spins == 5 && bulk.max_spins == 100,
        bulk.base_sleep_us == 10 && bulk.max_sleep_us == 10_000,
{
}

} // verus!
