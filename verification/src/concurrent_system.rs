//! The whole log system: the striped log, its durability mode, group commit,
//! flusher health and encryption state.
//!
//! Whatever has to reach the disk leaves as a [`FlushRequest`]; the embedding
//! application writes it and reports back how that went.

use vstd::prelude::*;

use crate::completion::{pending_completion, seen_on, CompletionHandle, CompletionState};
use crate::concurrent::{
    all_closed, all_drained, all_durable, answers_batch, answers_waiter, append_started,
    attempted, batch_attempted, batch_started, batch_waited_on, is_fresh,
    lemma_all_pending_is_ready, lemma_closing_keeps_what_is_pending,
    lemma_drain_leaves_nothing_behind, lemma_drained_stripes_are_empty, lemma_no_holes_appear,
    lemma_no_holes_are_made, lemma_placed_entries_are_drained, no_holes, pending_total,
    ready_of_all, shutdown_limit, stripe_of, waited_on, without_handles, AppendDrainer,
    AppendTurn, AppendWait, BatchTurn, BatchView, BatchWait, BlockedAppend, BlockedBatch,
    ConcurrentWal, ShutdownOutcome, WalView,
};
use crate::entry::{
    all_completed, all_discarded, lemma_completed_entries_are_answered,
    lemma_discarded_entries_are_answered, lemma_discarding_acknowledges_nobody, PendingEntry,
};
use crate::error::{message_of, Error, ErrorView, StorageError};
use crate::group_commit::{fresh_group_commit, GroupCommitCoordinator, GroupCommitView, LockSite};
use crate::keyring::{
    build_initial_keyring, initial_keyring, keyring_in, KeyringCell, WalKeyring,
};
use crate::lsn::LSN;
use crate::operation::{EntryCodec, WalOperation};
use crate::power::wrap;
use crate::sort::{is_stable_sort, lemma_sort_is_a_permutation};
use crate::system_config::{
    group_config, has_epochs, ConcurrentWalSystemConfig, DurabilityMode, FlushCoordinatorConfig,
};
use crate::text::{concat2, concat3, decimal, show_usize};
use crate::wal_config::ConcurrentWalConfig;

verus! {

broadcast use crate::power::lemma_wrap_near;

/// Floor for the heartbeat staleness threshold, in milliseconds: even a very
/// short flush interval gets this much slack before the flush thread is judged
/// stalled, so that a scheduling hiccup never reads as a dead flusher.
pub const MIN_HEARTBEAT_STALENESS_MS: u128 = 5_000;

/// How long the flush heartbeat may go unchanged before the log is considered
/// unhealthy, in milliseconds: ten flush intervals, but not less than the floor.
pub open spec fn staleness_threshold(flush_interval_ms: u64) -> int {
    if flush_interval_ms * 10 < 5_000 {
        5_000
    } else {
        flush_interval_ms * 10
    }
}

/// How long the flush heartbeat may go unchanged before the log is considered
/// unhealthy, in milliseconds.
pub fn heartbeat_staleness_threshold(flush_interval_ms: u64) -> (threshold_ms: u128)
    ensures
        threshold_ms == staleness_threshold(flush_interval_ms),
{
    let ten: u128 = flush_interval_ms as u128 * 10;
    if ten < MIN_HEARTBEAT_STALENESS_MS {
        MIN_HEARTBEAT_STALENESS_MS
    } else {
        ten
    }
}

/// Signal for waking up the flush thread before its interval is over.
#[derive(Debug)]
pub struct FlushNotifier {
    signaled: bool,
}

impl View for FlushNotifier {
    type V = bool;

    /// Whether a signal is pending.
    closed spec fn view(&self) -> bool {
        self.signaled
    }
}

impl FlushNotifier {
    /// A notifier without a signal.
    pub fn new() -> (notifier: Self)
        ensures
            !notifier@,
    {
        FlushNotifier { signaled: false }
    }

    /// Signal the flush thread to wake up.
    pub fn notify(&mut self)
        ensures
            final(self)@,
    {
        self.signaled = true;
    }

    /// Before the flush thread parks: take a signal that came in the meantime,
    /// so that it is not slept through.
    pub fn take_signal(&mut self) -> (was_signaled: bool)
        ensures
            was_signaled == old(self)@,
            !final(self)@,
    {
        let was_signaled = self.signaled;
        self.signaled = false;
        was_signaled
    }

    /// After the flush thread was parked: whether a signal woke it. The signal
    /// is used up either way.
    pub fn after_wait(&mut self, timed_out: bool) -> (was_signaled: bool)
        ensures
            was_signaled == (old(self)@ && !timed_out),
            !final(self)@,
    {
        let was_signaled = self.signaled && !timed_out;
        self.signaled = false;
        was_signaled
    }
}

/// What one flush did.
#[derive(Debug, Clone, Copy, PartialEq, Eq, Structural)]
pub struct FlushStats {
    /// How many entries were written.
    pub entries_flushed: usize,
}

/// Entries that are to be written, in order.
#[derive(Debug)]
pub struct FlushRequest {
    pub entries: Vec<PendingEntry>,
    /// Whether they have to be synced before they count as written.
    pub sync: bool,
}

/// What happens between sealing the active segment and opening the next.
#[derive(Debug, Clone, Copy, PartialEq, Eq, Structural)]
pub enum KeyringChange {
    /// From plaintext to encrypted.
    Install(WalKeyring),
    /// From encrypted to plaintext.
    Uninstall,
    /// On to the next generation of the keyring, if the caller has one.
    Rotate,
}

/// How far a roll of the active segment has come.
#[derive(Debug, Clone, Copy, PartialEq, Eq, Structural)]
pub enum RollPhase {
    /// What was buffered is being written into the old segment.
    Flushing,
    /// Everything is in the old segment, which can be sealed.
    Flushed,
    /// The change was carried out.
    Advanced,
}

/// A roll of the active segment that is under way.
#[derive(Debug, Clone, Copy, PartialEq, Eq, Structural)]
pub struct SegmentRoll {
    pub change: KeyringChange,
    pub phase: RollPhase,
}

/// How a commit goes on.
pub enum CommitTurn {
    /// It is over: the epoch to wait for, if the mode has epochs.
    Done(Result<Option<u64>, Error>),
    /// It is over once the entries are written.
    Flush(FlushRequest),
}

/// How an append of a whole transaction goes on.
pub enum FrameTurn {
    /// It is over: the lowest LSN of the frame, and the epoch to wait for.
    Done(Result<(Option<LSN>, Option<u64>), Error>),
    /// It is over once the entries are written.
    Flush { base_lsn: Option<LSN>, request: FlushRequest },
    /// The stripe is full.
    Blocked(BlockedBatch),
    /// Another transaction is between its append and its registration: the
    /// caller waits and comes back with the same operations.
    Busy(Vec<WalOperation>),
}

/// How a blocked append of a transaction goes on.
pub enum FrameWait {
    /// It gave up.
    Refused(Error),
    /// It spins once and tries again.
    Spin { blocked: BlockedBatch },
    /// It sleeps for `nap_ns` nanoseconds, or yields if that is `None`, and
    /// then tries again.
    Nap { blocked: BlockedBatch, nap_ns: Option<u64> },
}

/// How a roll of the active segment goes on.
pub enum KeyringTurn {
    /// Another roll is under way: the caller waits and asks again.
    Busy,
    /// The change is not possible.
    Refused(Error),
    /// The entries, if there are any, go into the old segment, which is then
    /// sealed.
    Seal(Option<FlushRequest>),
}

/// The value of a [`ConcurrentWalSystem`].
#[verifier::ext_equal]
pub ghost struct SystemView {
    pub wal: WalView,
    pub mode: DurabilityMode,
    pub group_commit: Option<GroupCommitView>,
    /// What the segment writer is configured with.
    pub segments: FlushCoordinatorConfig,
    pub has_flush_thread: bool,
    /// Whether the flush thread was told to stop.
    pub shutdown_signal: bool,
    /// Whether the flush thread was told to wake up.
    pub signaled: bool,
    /// Whether a transaction is between its append and its registration.
    pub membership_held: bool,
    /// How many flushes failed in a row.
    pub flush_errors: u64,
    /// How many cycles the flusher has completed.
    pub heartbeat: u64,
    /// When it completed the last one, on a monotonic clock.
    pub last_beat_micros: u64,
    /// How many errors of the coordinator the flusher has survived.
    pub cycle_errors: u64,
    pub flush_interval_ms: u64,
    /// The staleness threshold that is used in place of the computed one,
    /// unless it is zero.
    pub staleness_override_micros: u64,
    /// Whether the next reading of the batch size is to fail.
    pub injected_error: bool,
    /// How many entries were written.
    pub total_flushed: u64,
    pub tolerate_torn_tail: bool,
    pub keyring: Option<WalKeyring>,
    /// The roll of the active segment that is under way.
    pub roll: Option<SegmentRoll>,
}

/// The configuration that the striped log of a system gets.
pub open spec fn wal_config_of(config: ConcurrentWalSystemConfig, wal_dir: String) -> ConcurrentWalConfig {
    ConcurrentWalConfig {
        wal_dir,
        num_stripes: config.num_stripes,
        stripe_capacity: config.stripe_capacity,
        segment_size: config.segment_size,
        segments_to_retain: config.segments_to_retain,
        max_append_block_ms: config.max_append_block_ms,
    }
}

/// Who drains the appends without a handle: only a mode with a flush thread
/// can blame one.
pub open spec fn async_drainer_of(mode: DurabilityMode) -> AppendDrainer {
    if mode is Synchronous {
        AppendDrainer::CallingThread
    } else {
        AppendDrainer::BackgroundFlusher
    }
}

/// Whether `system` is freshly made from `config` at `now_micros`.
pub open spec fn is_fresh_system(
    system: SystemView,
    config: ConcurrentWalSystemConfig,
    now_micros: u64,
) -> bool {
    &&& system.wal.config.wal_dir@ == config.wal_dir@
    &&& is_fresh(
        WalView { async_drainer: AppendDrainer::BackgroundFlusher, ..system.wal },
        wal_config_of(config, system.wal.config.wal_dir),
    )
    &&& system.wal.async_drainer == async_drainer_of(config.durability_mode)
    &&& system.segments == (FlushCoordinatorConfig {
        wal_dir: config.wal_dir,
        segment_size: config.segment_size,
        segments_to_retain: config.segments_to_retain,
        flush_interval_ms: config.flush_interval_ms,
        sync_on_flush: config.durability_mode is Synchronous
            || config.durability_mode is GroupCommit,
        write_buffer_size: config.write_buffer_size,
    })
    &&& system == (SystemView {
        wal: system.wal,
        mode: config.durability_mode,
        group_commit: match group_config(config.durability_mode, config.acquire_timeout_ms) {
            Some(group) => Some(fresh_group_commit(group)),
            None => None,
        },
        segments: system.segments,
        has_flush_thread: config.durability_mode !is Synchronous,
        shutdown_signal: false,
        signaled: false,
        membership_held: false,
        flush_errors: 0,
        heartbeat: 0,
        last_beat_micros: now_micros,
        cycle_errors: 0,
        flush_interval_ms: config.flush_interval_ms,
        staleness_override_micros: 0,
        injected_error: false,
        total_flushed: 0,
        tolerate_torn_tail: config.tolerate_torn_tail,
        keyring: initial_keyring(config.wal_cipher, config.wal_key_version),
        roll: None,
    })
}

impl SystemView {
    /// The system after its stripes were drained.
    pub open spec fn drained(self) -> SystemView {
        SystemView {
            wal: WalView { stripes: all_drained(self.wal.stripes), ..self.wal },
            ..self
        }
    }

    /// The system after it was told to accept no more appends.
    pub open spec fn closed(self) -> SystemView {
        SystemView {
            wal: WalView {
                shutdown_requested: true,
                stripes: all_closed(self.wal.stripes),
                ..self.wal
            },
            ..self
        }
    }

    /// The system after `entries` were written, or not.
    pub open spec fn settled(self, entries: Seq<PendingEntry>, written: bool) -> SystemView {
        if written {
            SystemView {
                wal: WalView {
                    completions: all_completed(self.wal.completions, entries),
                    ..self.wal
                },
                total_flushed: wrap(self.total_flushed + entries.len()),
                ..self
            }
        } else {
            SystemView {
                wal: WalView {
                    completions: all_discarded(self.wal.completions, entries),
                    ..self.wal
                },
                ..self
            }
        }
    }

    /// The system after what its roll had to flush is in the old segment.
    pub open spec fn roll_flushed(self) -> SystemView {
        match self.roll {
            Some(SegmentRoll { change, phase: RollPhase::Flushing }) => SystemView {
                roll: Some(SegmentRoll { change, phase: RollPhase::Flushed }),
                ..self
            },
            _ => self,
        }
    }

    /// Whether the change of its roll is to be carried out now: after the
    /// flush, and once.
    pub open spec fn may_advance(self) -> bool {
        self.roll matches Some(roll) && roll.phase == RollPhase::Flushed
    }

    /// The system after the change of its roll was carried out, if it is time.
    pub open spec fn advanced(self) -> SystemView {
        if self.may_advance() {
            let change = self.roll->0.change;
            SystemView {
                keyring: keyring_after(change, self.keyring),
                roll: Some(SegmentRoll { change, phase: RollPhase::Advanced }),
                ..self
            }
        } else {
            self
        }
    }

    /// Whether the keyring is to move on to its next generation now: the roll
    /// is a rotation, its flush is done, and there is a keyring.
    pub open spec fn may_rotate(self) -> bool {
        self.may_advance() && self.roll->0.change is Rotate && self.keyring is Some
    }

    /// The system after a rotation moved the keyring on to `next`, if it is
    /// time.
    pub open spec fn rotated_to(self, next: WalKeyring) -> SystemView {
        if self.may_rotate() {
            SystemView { keyring: Some(next), ..self.advanced() }
        } else {
            self
        }
    }

    /// How long the heartbeat may go unchanged, in microseconds.
    pub open spec fn staleness_limit_micros(self) -> u64 {
        if self.staleness_override_micros == 0 {
            ((staleness_threshold(self.flush_interval_ms) * 1000)
                % crate::power::counter_span()) as u64
        } else {
            self.staleness_override_micros
        }
    }

    /// Whether the flusher has stopped publishing its heartbeat at `now`.
    pub open spec fn is_stale(self, now_micros: u64) -> bool {
        self.has_flush_thread && now_micros - self.last_beat_micros
            > self.staleness_limit_micros()
    }
}

/// Whether `request` is what draining `stripes` gives the writer: everything
/// that is ready, in LSN order, if there is anything.
pub open spec fn is_request(
    request: Option<FlushRequest>,
    stripes: Seq<crate::ring_buffer::RingView>,
    sync: bool,
) -> bool {
    match request {
        None => ready_of_all(stripes).len() == 0,
        Some(request) => {
            &&& request.sync == sync
            &&& request.entries@.len() > 0
            &&& is_stable_sort(request.entries@, ready_of_all(stripes))
        },
    }
}

/// What a commit does to the system.
pub open spec fn committed(before: SystemView, after: SystemView, turn: CommitTurn) -> bool {
    if before.mode is Synchronous {
        &&& after == before.drained()
        &&& match turn {
            CommitTurn::Flush(request) => is_request(Some(request), before.wal.stripes, true),
            CommitTurn::Done(result) => result == Ok::<Option<u64>, Error>(None) && is_request(
                None,
                before.wal.stripes,
                true,
            ),
        }
    } else if before.mode is Async {
        turn == CommitTurn::Done(Ok(None)) && after == before
    } else {
        let gc = before.group_commit->0;
        match gc.refusal(LockSite::Register) {
            Some(refusal) => {
                &&& turn matches CommitTurn::Done(Err(error))
                &&& error@ == refusal
                &&& after == (SystemView {
                    group_commit: Some(gc.acquired(LockSite::Register)),
                    ..before
                })
            },
            None => {
                let registered = gc.acquired(LockSite::Register).registered();
                &&& turn == CommitTurn::Done(Ok(Some(gc.current_epoch)))
                &&& after == (SystemView {
                    group_commit: Some(registered),
                    signaled: before.signaled || registered.batch_size
                        >= gc.config.max_batch_size,
                    ..before
                })
            },
        }
    }
}

/// The first of `lsns`, if there is one.
pub open spec fn first_of(lsns: Seq<LSN>) -> Option<LSN> {
    if lsns.len() > 0 {
        Some(lsns[0])
    } else {
        None
    }
}

/// How the append of a transaction goes on after an attempt to place its
/// frame: once all of it is placed it is committed, with nothing in between.
pub open spec fn frame_goes_on(
    before: SystemView,
    after: SystemView,
    turn: FrameTurn,
    placed: BatchTurn,
) -> bool {
    let free = SystemView { membership_held: false, ..before };
    match placed {
        BatchTurn::Refused(error) => turn == FrameTurn::Done(Err(error)) && after == free,
        BatchTurn::Blocked(blocked) => turn == FrameTurn::Blocked(blocked) && after == (
        SystemView { membership_held: before.group_commit is Some, ..before }),
        BatchTurn::Placed { lsns, handles } => exists|commit: CommitTurn| #[trigger]
            committed(free, after, commit) && match commit {
                CommitTurn::Done(Ok(epoch)) => turn == FrameTurn::Done(
                    Ok((first_of(lsns@), epoch)),
                ),
                CommitTurn::Done(Err(error)) => turn == FrameTurn::Done(Err(error)),
                CommitTurn::Flush(request) => turn == (FrameTurn::Flush {
                    base_lsn: first_of(lsns@),
                    request,
                }),
            },
    }
}

/// What the first attempt to append a transaction does to the system.
pub open spec fn frame_started<E, S>(
    before: SystemView,
    after: SystemView,
    turn: FrameTurn,
    operations: Vec<WalOperation>,
    codec: EntryCodec<E, S>,
    stripe: int,
) -> bool where
    E: Fn(&WalOperation) -> usize,
    S: Fn(LSN, &WalOperation) -> Result<Vec<u8>, Error>,
 {
    if before.group_commit is Some && before.membership_held {
        turn == FrameTurn::Busy(operations) && after == before
    } else {
        exists|wal: WalView, placed: BatchTurn| #[trigger]
            batch_started(
                before.wal,
                wal,
                placed,
                operations@,
                codec,
                stripe,
                before.wal.async_drainer,
                false,
            ) && frame_goes_on(SystemView { wal, ..before }, after, turn, placed)
    }
}

/// What a further attempt to append a transaction does to the system.
pub open spec fn frame_attempted(
    before: SystemView,
    after: SystemView,
    turn: FrameTurn,
    diagnostic: Option<String>,
    batch: BatchView,
    now: u64,
) -> bool {
    exists|wal: WalView, placed: BatchTurn| #[trigger]
        batch_attempted(before.wal, wal, placed, diagnostic, batch, now) && frame_goes_on(
            SystemView { wal, ..before },
            after,
            turn,
            placed,
        )
}

/// What a blocked append of a transaction decides at `now`.
pub open spec fn frame_waited_on(
    before: SystemView,
    after: SystemView,
    wait: FrameWait,
    batch: BatchView,
    now: u64,
) -> bool {
    exists|wal: WalView, waited: BatchWait| #[trigger]
        batch_waited_on(before.wal, wal, waited, batch, now) && match waited {
            BatchWait::Refused(error) => wait == FrameWait::Refused(error) && after == (
            SystemView { wal, membership_held: false, ..before }),
            BatchWait::Spin { blocked } => wait == (FrameWait::Spin { blocked }) && after == (
            SystemView { wal, ..before }),
            BatchWait::Nap { blocked, nap_ns } => wait == (FrameWait::Nap { blocked, nap_ns })
                && after == (SystemView { wal, ..before }),
        }
}

/// The bound on waiting for a flush that the caller performed, in nanoseconds.
pub const FLUSH_WAIT_TIMEOUT_NS: u64 = 120_000_000_000;

/// The error of a keyring install on an encrypted log.
pub open spec fn already_installed() -> ErrorView {
    ErrorView::KeyringAlreadyInstalled(
        "a WAL keyring is already installed; runtime install only supports the plaintext → encrypted (None → Some) transition (key rotation is a separate operation)"@,
    )
}

/// The error of a keyring removal on a plaintext log.
pub open spec fn not_installed() -> ErrorView {
    ErrorView::KeyringNotInstalled(
        "no WAL keyring is installed; runtime uninstall only supports the encrypted → plaintext (Some → None) transition (a plaintext WAL is already un-encrypted)"@,
    )
}

/// The keyring after a change was carried out. A rotation without a next
/// generation leaves it as it is.
pub open spec fn keyring_after(
    change: KeyringChange,
    before: Option<WalKeyring>,
) -> Option<WalKeyring> {
    match change {
        KeyringChange::Install(keyring) => Some(keyring),
        KeyringChange::Uninstall => None,
        KeyringChange::Rotate => before,
    }
}

/// What the request for a roll of the active segment does to the system. A roll
/// without anything to flush is flushed from the start.
pub open spec fn roll_started(
    before: SystemView,
    after: SystemView,
    turn: KeyringTurn,
    change: KeyringChange,
) -> bool {
    if before.roll is Some {
        turn is Busy && after == before
    } else if before.keyring is Some && change is Install {
        &&& turn matches KeyringTurn::Refused(error)
        &&& error@ == already_installed()
        &&& after == before
    } else if before.keyring is None && change is Uninstall {
        &&& turn matches KeyringTurn::Refused(error)
        &&& error@ == not_installed()
        &&& after == before
    } else {
        &&& turn matches KeyringTurn::Seal(request)
        &&& is_request(request, before.wal.stripes, true)
        &&& after == (SystemView {
            roll: Some(
                SegmentRoll {
                    change,
                    phase: if request is Some {
                        RollPhase::Flushing
                    } else {
                        RollPhase::Flushed
                    },
                },
            ),
            ..before.drained()
        })
    }
}

/// The text of a shutdown that left appends in flight.
pub open spec fn shutdown_text(active: usize) -> Seq<char> {
    "WAL shutdown timed out with "@ + decimal(active as nat)
        + " appenders still in flight; buffers are closed, they will exit via the Closed path"@
}

/// Why the size of the current batch cannot be read, if so.
pub open spec fn batch_size_error(system: SystemView) -> Option<ErrorView> {
    if system.injected_error {
        Some(ErrorView::Wal("injected test error"@))
    } else {
        system.group_commit->0.refusal(LockSite::BatchSize)
    }
}

/// The system after an attempt to read the size of the current batch.
pub open spec fn batch_size_read(system: SystemView) -> SystemView {
    if system.injected_error {
        SystemView { injected_error: false, ..system }
    } else {
        SystemView {
            group_commit: Some(system.group_commit->0.acquired(LockSite::BatchSize)),
            ..system
        }
    }
}

/// Unified concurrent WAL system.
pub struct ConcurrentWalSystem {
    wal: ConcurrentWal,
    durability_mode: DurabilityMode,
    group_commit: Option<GroupCommitCoordinator>,
    segments: FlushCoordinatorConfig,
    has_flush_thread: bool,
    shutdown_signal: bool,
    flush_notifier: FlushNotifier,
    membership_held: bool,
    consecutive_flush_errors: u64,
    flush_heartbeat: u64,
    last_beat_micros: u64,
    flush_cycle_errors: u64,
    flush_interval_ms: u64,
    staleness_override_micros: u64,
    injected_error: bool,
    total_flushed: u64,
    tolerate_torn_tail: bool,
    wal_keyring: KeyringCell,
    roll: Option<SegmentRoll>,
}

impl View for ConcurrentWalSystem {
    type V = SystemView;

    closed spec fn view(&self) -> SystemView {
        SystemView {
            wal: self.wal@,
            mode: self.durability_mode,
            group_commit: match self.group_commit {
                Some(gc) => Some(gc@),
                None => None,
            },
            segments: self.segments,
            has_flush_thread: self.has_flush_thread,
            shutdown_signal: self.shutdown_signal,
            signaled: self.flush_notifier@,
            membership_held: self.membership_held,
            flush_errors: self.consecutive_flush_errors,
            heartbeat: self.flush_heartbeat,
            last_beat_micros: self.last_beat_micros,
            cycle_errors: self.flush_cycle_errors,
            flush_interval_ms: self.flush_interval_ms,
            staleness_override_micros: self.staleness_override_micros,
            injected_error: self.injected_error,
            total_flushed: self.total_flushed,
            tolerate_torn_tail: self.tolerate_torn_tail,
            keyring: keyring_in(self.wal_keyring),
            roll: self.roll,
        }
    }
}

impl ConcurrentWalSystem {
    /// The log is in order, exactly the modes with epochs have a group-commit
    /// coordinator, and the mode without a flush thread has no heartbeat.
    pub closed spec fn wf(&self) -> bool {
        &&& self.wal.wf()
        &&& has_epochs(self.durability_mode) <==> self.group_commit is Some
        &&& self.durability_mode is Synchronous ==> !self.has_flush_thread && self.flush_heartbeat
            == 0
    }

    /// What the invariant says of the value.
    pub proof fn lemma_epochs(&self)
        requires
            self.wf(),
        ensures
            has_epochs(self@.mode) <==> self@.group_commit is Some,
            0 < self@.wal.stripes.len(),
            no_holes(self@.wal.stripes),
            self@.mode is Synchronous ==> !self@.has_flush_thread && self@.heartbeat == 0,
    {
        self.wal.lemma_stripes();
    }

    /// Create a new concurrent WAL system at `now_micros` of a monotonic clock.
    /// The clock seeds the heartbeat, so that startup is a grace period.
    pub fn new(config: ConcurrentWalSystemConfig, now_micros: u64) -> (result: Result<Self, Error>)
        requires
            config.is_valid(),
        ensures
            result matches Ok(system) && system.wf() && is_fresh_system(
                system@,
                config,
                now_micros,
            ),
    {
        let wal_config = ConcurrentWalConfig {
            wal_dir: config.wal_dir.clone(),
            num_stripes: config.num_stripes,
            stripe_capacity: config.stripe_capacity,
            segment_size: config.segment_size,
            segments_to_retain: config.segments_to_retain,
            max_append_block_ms: config.max_append_block_ms,
        };
        let mode = config.durability_mode;
        let mut wal = match ConcurrentWal::new(wal_config) {
            Ok(wal) => wal,
            Err(error) => {
                return Err(error);
            },
        };
        let ghost fresh = wal@;
        let drainer = if mode.is_synchronous() {
            AppendDrainer::CallingThread
        } else {
            AppendDrainer::BackgroundFlusher
        };
        wal.set_async_drainer(drainer);
        assert(WalView { async_drainer: AppendDrainer::BackgroundFlusher, ..wal@ } =~= fresh);
        let group_commit = match mode.group_config(config.acquire_timeout_ms) {
            Some(group) => Some(GroupCommitCoordinator::with_config(group)),
            None => None,
        };
        let keyring = build_initial_keyring(config.wal_cipher, config.wal_key_version);
        Ok(
            ConcurrentWalSystem {
                wal,
                durability_mode: mode,
                group_commit,
                segments: FlushCoordinatorConfig {
                    wal_dir: config.wal_dir,
                    segment_size: config.segment_size,
                    segments_to_retain: config.segments_to_retain,
                    flush_interval_ms: config.flush_interval_ms,
                    sync_on_flush: mode.is_synchronous() || mode.is_group_commit(),
                    write_buffer_size: config.write_buffer_size,
                },
                has_flush_thread: mode.has_flush_thread(),
                shutdown_signal: false,
                flush_notifier: FlushNotifier::new(),
                membership_held: false,
                consecutive_flush_errors: 0,
                flush_heartbeat: 0,
                last_beat_micros: now_micros,
                flush_cycle_errors: 0,
                flush_interval_ms: config.flush_interval_ms,
                staleness_override_micros: 0,
                injected_error: false,
                total_flushed: 0,
                tolerate_torn_tail: config.tolerate_torn_tail,
                wal_keyring: KeyringCell::new(keyring),
                roll: None,
            },
        )
    }

    /// Drain everything that is ready into a request for the writer.
    fn drain_request(&mut self, sync: bool) -> (request: Option<FlushRequest>)
        requires
            old(self).wf(),
        ensures
            final(self).wf(),
            final(self)@ == old(self)@.drained(),
            is_request(request, old(self)@.wal.stripes, sync),
            pending_total(final(self)@.wal.stripes) == 0,
    {
        let entries = self.wal.drain_all();
        if entries.is_empty() {
            None
        } else {
            Some(FlushRequest { entries, sync })
        }
    }

    /// Take in how the writing of a request went: waiters of entries that were
    /// written are told so, and waiters of entries that were lost are told that.
    pub fn settle_flush(&mut self, request: FlushRequest, written: Result<(), Error>) -> (result:
        Result<FlushStats, Error>)
        requires
            old(self).wf(),
        ensures
            final(self).wf(),
            final(self)@ == old(self)@.settled(request.entries@, written is Ok),
            match written {
                Ok(_) => result == Ok::<FlushStats, Error>(
                    FlushStats { entries_flushed: request.entries@.len() as usize },
                ),
                Err(error) => result == Err::<FlushStats, Error>(error),
            },
    {
        let FlushRequest { entries, sync } = request;
        match written {
            Ok(()) => {
                let count: usize = entries.len();
                self.wal.complete_entries(&entries);
                self.total_flushed = self.total_flushed.wrapping_add(count as u64);
                Ok(FlushStats { entries_flushed: count })
            },
            Err(error) => {
                self.wal.discard_entries(entries);
                Err(error)
            },
        }
    }

    /// Append an operation, as the durability mode asks for: with a handle that
    /// the caller flushes and waits for in synchronous mode, and without one
    /// otherwise.
    pub fn append<E, S>(
        &mut self,
        operation: WalOperation,
        codec: &EntryCodec<E, S>,
        thread_hash: u64,
    ) -> (turn: AppendTurn) where
        E: Fn(&WalOperation) -> usize,
        S: Fn(LSN, &WalOperation) -> Result<Vec<u8>, Error>,

        requires
            old(self).wf(),
            codec.total(),
        ensures
            final(self).wf(),
            append_started(
                old(self)@.wal,
                final(self)@.wal,
                turn,
                operation,
                *codec,
                stripe_of(thread_hash, old(self)@.wal.stripes.len()),
                if old(self)@.mode is Synchronous {
                    AppendDrainer::CallingThread
                } else {
                    old(self)@.wal.async_drainer
                },
                old(self)@.mode is Synchronous,
            ),
            final(self)@ == (SystemView { wal: final(self)@.wal, ..old(self)@ }),
    {
        if self.durability_mode.is_synchronous() {
            self.append_sync(operation, codec, thread_hash)
        } else {
            self.append_async(operation, codec, thread_hash)
        }
    }

    /// Append an operation that nobody waits for.
    pub fn append_async<E, S>(
        &mut self,
        operation: WalOperation,
        codec: &EntryCodec<E, S>,
        thread_hash: u64,
    ) -> (turn: AppendTurn) where
        E: Fn(&WalOperation) -> usize,
        S: Fn(LSN, &WalOperation) -> Result<Vec<u8>, Error>,

        requires
            old(self).wf(),
            codec.total(),
        ensures
            final(self).wf(),
            append_started(
                old(self)@.wal,
                final(self)@.wal,
                turn,
                operation,
                *codec,
                stripe_of(thread_hash, old(self)@.wal.stripes.len()),
                old(self)@.wal.async_drainer,
                false,
            ),
            final(self)@ == (SystemView { wal: final(self)@.wal, ..old(self)@ }),
    {
        self.wal.append_async(operation, codec, thread_hash)
    }

    /// Append an operation that the caller makes durable. Once it is placed,
    /// the caller drains with [`Self::flush_now`], writes, reports that with
    /// [`Self::finish_sync_append`], and waits with [`Self::wait_flushed`].
    pub fn append_sync<E, S>(
        &mut self,
        operation: WalOperation,
        codec: &EntryCodec<E, S>,
        thread_hash: u64,
    ) -> (turn: AppendTurn) where
        E: Fn(&WalOperation) -> usize,
        S: Fn(LSN, &WalOperation) -> Result<Vec<u8>, Error>,

        requires
            old(self).wf(),
            codec.total(),
        ensures
            final(self).wf(),
            append_started(
                old(self)@.wal,
                final(self)@.wal,
                turn,
                operation,
                *codec,
                stripe_of(thread_hash, old(self)@.wal.stripes.len()),
                AppendDrainer::CallingThread,
                true,
            ),
            final(self)@ == (SystemView { wal: final(self)@.wal, ..old(self)@ }),
    {
        self.wal.append_with_handle(operation, codec, thread_hash)
    }

    /// Drain everything into a request that has to be synced.
    pub fn flush_now(&mut self) -> (request: Option<FlushRequest>)
        requires
            old(self).wf(),
        ensures
            final(self).wf(),
            final(self)@ == old(self)@.drained(),
            is_request(request, old(self)@.wal.stripes, true),
    {
        self.drain_request(true)
    }

    /// Take in how the flush of a synchronous append went. If it failed, the
    /// append has failed and nobody waits for it any more.
    pub fn finish_sync_append(
        &mut self,
        handle: CompletionHandle,
        request: FlushRequest,
        written: Result<(), Error>,
    ) -> (result: Result<(), Error>)
        requires
            old(self).wf(),
        ensures
            final(self).wf(),
            match written {
                Ok(_) => result is Ok,
                Err(error) => result == Err::<(), Error>(error),
            },
            final(self)@ == ({
                let settled = old(self)@.settled(request.entries@, written is Ok);
                if written is Ok {
                    settled
                } else {
                    SystemView {
                        wal: WalView {
                            completions: settled.wal.completions.remove(handle.0),
                            ..settled.wal
                        },
                        ..settled
                    }
                }
            }),
    {
        match self.settle_flush(request, written) {
            Ok(_) => Ok(()),
            Err(error) => {
                self.wal.forget(handle);
                Err(error)
            },
        }
    }

    /// One turn of waiting for an entry of a synchronous append, bounded to
    /// detect a deadlock.
    pub fn wait_flushed(&mut self, handle: CompletionHandle, elapsed_ns: u64) -> (answer: Option<
        Result<(), Error>,
    >)
        requires
            old(self).wf(),
        ensures
            final(self).wf(),
            answers_waiter(
                answer,
                seen_on(old(self)@.wal.completions, handle.0),
                elapsed_ns,
                FLUSH_WAIT_TIMEOUT_NS,
            ),
            final(self)@ == if answer is Some {
                SystemView {
                    wal: WalView {
                        completions: old(self)@.wal.completions.remove(handle.0),
                        ..old(self)@.wal
                    },
                    ..old(self)@
                }
            } else {
                old(self)@
            },
    {
        self.wal.wait_durable(handle, elapsed_ns, FLUSH_WAIT_TIMEOUT_NS)
    }

    /// Append a batch of operations without flushing.
    pub fn append_batch_async<E, S>(
        &mut self,
        operations: Vec<WalOperation>,
        codec: &EntryCodec<E, S>,
        thread_hash: u64,
    ) -> (turn: BatchTurn) where
        E: Fn(&WalOperation) -> usize,
        S: Fn(LSN, &WalOperation) -> Result<Vec<u8>, Error>,

        requires
            old(self).wf(),
            codec.total(),
        ensures
            final(self).wf(),
            batch_started(
                old(self)@.wal,
                final(self)@.wal,
                turn,
                operations@,
                *codec,
                stripe_of(thread_hash, old(self)@.wal.stripes.len()),
                old(self)@.wal.async_drainer,
                false,
            ),
            final(self)@ == (SystemView { wal: final(self)@.wal, ..old(self)@ }),
    {
        self.wal.append_batch(operations, codec, thread_hash)
    }

    /// Append a batch of operations, as the durability mode asks for: with
    /// handles that the caller flushes and waits for in synchronous mode, and
    /// without any otherwise. An empty batch is placed in any case.
    pub fn append_batch<E, S>(
        &mut self,
        operations: Vec<WalOperation>,
        codec: &EntryCodec<E, S>,
        thread_hash: u64,
    ) -> (turn: BatchTurn) where
        E: Fn(&WalOperation) -> usize,
        S: Fn(LSN, &WalOperation) -> Result<Vec<u8>, Error>,

        requires
            old(self).wf(),
            codec.total(),
        ensures
            final(self).wf(),
            if operations@.len() == 0 {
                &&& turn matches BatchTurn::Placed { lsns, handles }
                &&& lsns@.len() == 0
                &&& handles@.len() == 0
                &&& final(self)@ == old(self)@
            } else {
                &&& batch_started(
                    old(self)@.wal,
                    final(self)@.wal,
                    turn,
                    operations@,
                    *codec,
                    stripe_of(thread_hash, old(self)@.wal.stripes.len()),
                    if old(self)@.mode is Synchronous {
                        AppendDrainer::CallingThread
                    } else {
                        old(self)@.wal.async_drainer
                    },
                    old(self)@.mode is Synchronous,
                )
                &&& final(self)@ == (SystemView { wal: final(self)@.wal, ..old(self)@ })
            },
    {
        if operations.is_empty() {
            return BatchTurn::Placed { lsns: Vec::new(), handles: Vec::new() };
        }
        if self.durability_mode.is_synchronous() {
            self.wal.append_batch_with_handles(operations, codec, thread_hash)
        } else {
            self.wal.append_batch(operations, codec, thread_hash)
        }
    }

    /// Take in how the flush of a synchronous batch went. If it failed, the
    /// batch has failed and nobody waits for it any more.
    pub fn finish_sync_batch(
        &mut self,
        handles: &Vec<CompletionHandle>,
        request: FlushRequest,
        written: Result<(), Error>,
    ) -> (result: Result<(), Error>)
        requires
            old(self).wf(),
        ensures
            final(self).wf(),
            match written {
                Ok(_) => result is Ok && final(self)@ == old(self)@.settled(request.entries@, true),
                Err(cause) => {
                    let settled = old(self)@.settled(request.entries@, false);
                    &&& result matches Err(error)
                    &&& error@ == ErrorView::Wal(
                        "Failed to flush batch after drain: "@ + message_of(cause@),
                    )
                    &&& final(self)@ == (SystemView {
                        wal: WalView {
                            completions: without_handles(settled.wal.completions, handles@),
                            ..settled.wal
                        },
                        ..settled
                    })
                },
            },
    {
        match self.settle_flush(request, written) {
            Ok(_) => Ok(()),
            Err(cause) => {
                self.wal.forget_all(handles);
                let text = cause.message();
                Err(Error::wal(concat2("Failed to flush batch after drain: ", text.as_str())))
            },
        }
    }

    /// One turn of waiting for a synchronous batch: it is durable once all of
    /// its entries are, and it has failed as soon as one of them has. Once
    /// there is an answer, nobody waits for the batch any more.
    pub fn wait_batch_flushed(&mut self, handles: &Vec<CompletionHandle>, elapsed_ns: u64) -> (
    answer: Option<Result<(), Error>>)
        requires
            old(self).wf(),
        ensures
            final(self).wf(),
            answers_batch(
                answer,
                old(self)@.wal.completions,
                handles@,
                elapsed_ns,
                FLUSH_WAIT_TIMEOUT_NS,
            ),
            answer == Some(Ok::<(), Error>(())) <==> all_durable(
                old(self)@.wal.completions,
                handles@,
            ),
            final(self)@ == if answer is Some {
                SystemView {
                    wal: WalView {
                        completions: without_handles(old(self)@.wal.completions, handles@),
                        ..old(self)@.wal
                    },
                    ..old(self)@
                }
            } else {
                old(self)@
            },
    {
        self.wal.wait_all_durable(handles, elapsed_ns, FLUSH_WAIT_TIMEOUT_NS)
    }

    /// Start a flush of all pending entries. `None` means that there was
    /// nothing to flush. Only the async mode does without a sync.
    pub fn flush(&mut self) -> (request: Option<FlushRequest>)
        requires
            old(self).wf(),
        ensures
            final(self).wf(),
            final(self)@ == old(self)@.drained(),
            is_request(request, old(self)@.wal.stripes, !(old(self)@.mode is Async)),
    {
        let sync = !self.durability_mode.is_async();
        self.drain_request(sync)
    }

    /// Commit with the configured durability mode: flush in synchronous mode,
    /// nothing in async mode, and register for the current epoch otherwise. A
    /// registration that fills the batch wakes the flush thread.
    pub fn commit(&mut self) -> (turn: CommitTurn)
        requires
            old(self).wf(),
        ensures
            final(self).wf(),
            committed(old(self)@, final(self)@, turn),
    {
        if self.durability_mode.is_async() {
            return CommitTurn::Done(Ok(None));
        }
        match &mut self.group_commit {
            Some(gc) => match gc.register_transaction() {
                Err(error) => CommitTurn::Done(Err(error)),
                Ok((epoch, should_trigger)) => {
                    if should_trigger {
                        self.flush_notifier.notify();
                    }
                    CommitTurn::Done(Ok(Some(epoch)))
                },
            },
            None => match self.drain_request(true) {
                None => CommitTurn::Done(Ok(None)),
                Some(request) => CommitTurn::Flush(request),
            },
        }
    }

    /// Take in how the flush of a commit went.
    pub fn finish_commit(&mut self, request: FlushRequest, written: Result<(), Error>) -> (result:
        Result<Option<u64>, Error>)
        requires
            old(self).wf(),
        ensures
            final(self).wf(),
            final(self)@ == old(self)@.settled(request.entries@, written is Ok),
            match written {
                Ok(_) => result == Ok::<Option<u64>, Error>(None),
                Err(error) => result == Err::<Option<u64>, Error>(error),
            },
    {
        match self.settle_flush(request, written) {
            Ok(_) => Ok(None),
            Err(error) => Err(error),
        }
    }

    /// Go on with the append of a transaction after an attempt to place it.
    fn frame_placed(&mut self, placed: BatchTurn) -> (turn: FrameTurn)
        requires
            old(self).wf(),
        ensures
            final(self).wf(),
            frame_goes_on(old(self)@, final(self)@, turn, placed),
    {
        self.membership_held = false;
        match placed {
            BatchTurn::Refused(error) => FrameTurn::Done(Err(error)),
            BatchTurn::Blocked(blocked) => {
                self.membership_held = self.group_commit.is_some();
                FrameTurn::Blocked(blocked)
            },
            BatchTurn::Placed { lsns, handles } => {
                let base_lsn = if lsns.len() > 0 {
                    Some(lsns[0])
                } else {
                    None
                };
                let ghost free = self@;
                let commit = self.commit();
                assert(committed(free, self@, commit));
                match commit {
                    CommitTurn::Done(Ok(epoch)) => FrameTurn::Done(Ok((base_lsn, epoch))),
                    CommitTurn::Done(Err(error)) => FrameTurn::Done(Err(error)),
                    CommitTurn::Flush(request) => FrameTurn::Flush { base_lsn, request },
                }
            },
        }
    }

    /// Append a batch and commit it as one step.
    ///
    /// In the modes with epochs no flush cycle can drain between the append
    /// and the registration: while the append is blocked, the membership is
    /// held, and the flusher keeps out. Otherwise a cycle could drain the
    /// frame into an earlier epoch, fail, and leave the transaction to be
    /// acknowledged by the success of a later one.
    pub fn append_batch_and_commit<E, S>(
        &mut self,
        operations: Vec<WalOperation>,
        codec: &EntryCodec<E, S>,
        thread_hash: u64,
    ) -> (turn: FrameTurn) where
        E: Fn(&WalOperation) -> usize,
        S: Fn(LSN, &WalOperation) -> Result<Vec<u8>, Error>,

        requires
            old(self).wf(),
            codec.total(),
        ensures
            final(self).wf(),
            frame_started(
                old(self)@,
                final(self)@,
                turn,
                operations,
                *codec,
                stripe_of(thread_hash, old(self)@.wal.stripes.len()),
            ),
    {
        if self.group_commit.is_some() && self.membership_held {
            return FrameTurn::Busy(operations);
        }
        let placed = self.wal.append_batch(operations, codec, thread_hash);
        let ghost wal = self@.wal;
        proof {
            assert(batch_started(
                old(self)@.wal,
                wal,
                placed,
                operations@,
                *codec,
                stripe_of(thread_hash, old(self)@.wal.stripes.len()),
                old(self)@.wal.async_drainer,
                false,
            ));
            assert(self@ =~= SystemView { wal, ..old(self)@ });
        }
        self.frame_placed(placed)
    }

    /// Try again to place a blocked transaction.
    pub fn frame_retry(&mut self, batch: BlockedBatch, now: u64) -> (result: (
        FrameTurn,
        Option<String>,
    ))
        requires
            old(self).wf(),
            batch@.wf(),
            0 <= batch@.stripe < old(self)@.wal.stripes.len(),
        ensures
            final(self).wf(),
            frame_attempted(old(self)@, final(self)@, result.0, result.1, batch@, now),
    {
        let (placed, diagnostic) = self.wal.batch_retry(batch, now);
        let ghost wal = self@.wal;
        proof {
            assert(batch_attempted(old(self)@.wal, wal, placed, diagnostic, batch@, now));
            assert(self@ =~= SystemView { wal, ..old(self)@ });
        }
        let turn = self.frame_placed(placed);
        (turn, diagnostic)
    }

    /// Decide what a blocked transaction does at `now`.
    pub fn frame_blocked(&mut self, batch: BlockedBatch, now: u64) -> (wait: FrameWait)
        requires
            old(self).wf(),
            batch@.wf(),
            batch@.rest.len() > 0,
            0 <= batch@.stripe < old(self)@.wal.stripes.len(),
        ensures
            final(self).wf(),
            frame_waited_on(old(self)@, final(self)@, wait, batch@, now),
    {
        let waited = self.wal.batch_blocked(batch, now);
        let ghost wal = self@.wal;
        proof {
            assert(batch_waited_on(old(self)@.wal, wal, waited, batch@, now));
        }
        match waited {
            BatchWait::Refused(error) => {
                self.membership_held = false;
                FrameWait::Refused(error)
            },
            BatchWait::Spin { blocked } => FrameWait::Spin { blocked },
            BatchWait::Nap { blocked, nap_ns } => FrameWait::Nap { blocked, nap_ns },
        }
    }

    /// Take in how the flush of a transaction went.
    pub fn finish_frame(
        &mut self,
        base_lsn: Option<LSN>,
        request: FlushRequest,
        written: Result<(), Error>,
    ) -> (result: Result<(Option<LSN>, Option<u64>), Error>)
        requires
            old(self).wf(),
        ensures
            final(self).wf(),
            final(self)@ == old(self)@.settled(request.entries@, written is Ok),
            match written {
                Ok(_) => result == Ok::<(Option<LSN>, Option<u64>), Error>((base_lsn, None)),
                Err(error) => result == Err::<(Option<LSN>, Option<u64>), Error>(error),
            },
    {
        match self.finish_commit(request, written) {
            Ok(epoch) => Ok((base_lsn, epoch)),
            Err(error) => Err(error),
        }
    }

    /// Whether this log is encrypted at rest.
    pub fn is_encrypted(&self) -> (encrypted: bool)
        ensures
            encrypted == (self@.keyring is Some),
    {
        self.wal_keyring.load().is_some()
    }

    /// The keyring, if this log is encrypted.
    pub fn wal_keyring(&self) -> (keyring: Option<WalKeyring>)
        ensures
            keyring == self@.keyring,
    {
        self.wal_keyring.load()
    }

    /// Begin a roll that is possible.
    fn begin_roll(&mut self, change: KeyringChange) -> (turn: KeyringTurn)
        requires
            old(self).wf(),
            old(self)@.roll is None,
            change is Install ==> old(self)@.keyring is None,
            change is Uninstall ==> old(self)@.keyring is Some,
        ensures
            final(self).wf(),
            roll_started(old(self)@, final(self)@, turn, change),
    {
        let request = self.drain_request(true);
        let phase = if request.is_some() {
            RollPhase::Flushing
        } else {
            RollPhase::Flushed
        };
        self.roll = Some(SegmentRoll { change, phase });
        KeyringTurn::Seal(request)
    }

    /// Begin to flip a plaintext log to encrypted.
    ///
    /// Encrypted frames cannot go into an open plaintext segment, so the
    /// keyring is stored between sealing the old segment and opening the next:
    /// what is returned is written and synced into the old one, as
    /// [`Self::finish_seal_flush`] is told, and the old one is sealed;
    /// [`Self::advance_keyring`] flips the keyring; the next segment is
    /// opened; and [`Self::finish_keyring_change`] lets the next roll begin.
    ///
    /// An installed keyring is never replaced.
    pub fn install_wal_keyring(&mut self, keyring: WalKeyring) -> (turn: KeyringTurn)
        requires
            old(self).wf(),
        ensures
            final(self).wf(),
            roll_started(
                old(self)@,
                final(self)@,
                turn,
                KeyringChange::Install(keyring),
            ),
    {
        if self.roll.is_some() {
            return KeyringTurn::Busy;
        }
        if self.is_encrypted() {
            return KeyringTurn::Refused(
                Error::Storage(
                    StorageError::WalKeyringAlreadyInstalled {
                        reason:
                            "a WAL keyring is already installed; runtime install only supports the plaintext → encrypted (None → Some) transition (key rotation is a separate operation)".to_string(),
                    },
                ),
            );
        }
        self.begin_roll(KeyringChange::Install(keyring))
    }

    /// Begin to flip an encrypted log back to plaintext, in the same steps as
    /// [`Self::install_wal_keyring`].
    pub fn uninstall_wal_keyring(&mut self) -> (turn: KeyringTurn)
        requires
            old(self).wf(),
        ensures
            final(self).wf(),
            roll_started(old(self)@, final(self)@, turn, KeyringChange::Uninstall),
    {
        if self.roll.is_some() {
            return KeyringTurn::Busy;
        }
        if !self.is_encrypted() {
            return KeyringTurn::Refused(
                Error::Storage(
                    StorageError::WalKeyringNotInstalled {
                        reason:
                            "no WAL keyring is installed; runtime uninstall only supports the encrypted → plaintext (Some → None) transition (a plaintext WAL is already un-encrypted)".to_string(),
                    },
                ),
            );
        }
        self.begin_roll(KeyringChange::Uninstall)
    }

    /// Begin to roll the active segment for a key rotation, in the same steps
    /// as [`Self::install_wal_keyring`]: everything that is buffered is written
    /// and synced into the active segment before that is sealed, and
    /// [`Self::advance_keyring_to`] moves the keyring on before the next one is
    /// opened.
    pub fn seal_active_segment_for_rotation(&mut self) -> (turn: KeyringTurn)
        requires
            old(self).wf(),
        ensures
            final(self).wf(),
            roll_started(old(self)@, final(self)@, turn, KeyringChange::Rotate),
    {
        if self.roll.is_some() {
            return KeyringTurn::Busy;
        }
        self.begin_roll(KeyringChange::Rotate)
    }

    /// Take in how the flush before a roll went. If it failed, the roll is off
    /// and the keyring stays as it is.
    pub fn finish_seal_flush(&mut self, request: FlushRequest, written: Result<(), Error>) -> (
    result: Result<(), Error>)
        requires
            old(self).wf(),
        ensures
            final(self).wf(),
            match written {
                Ok(_) => result is Ok && final(self)@ == old(self)@.settled(
                    request.entries@,
                    true,
                ).roll_flushed(),
                Err(error) => result == Err::<(), Error>(error) && final(self)@ == (SystemView {
                    roll: None,
                    ..old(self)@.settled(request.entries@, false)
                }),
            },
    {
        match self.settle_flush(request, written) {
            Ok(_) => {
                match self.roll {
                    Some(SegmentRoll { change, phase: RollPhase::Flushing }) => {
                        self.roll = Some(SegmentRoll { change, phase: RollPhase::Flushed });
                    },
                    _ => {},
                }
                Ok(())
            },
            Err(error) => {
                self.roll = None;
                Err(error)
            },
        }
    }

    /// Carry out the change of a roll, between sealing the old segment and
    /// opening the next. This happens once, and not before the flush is done:
    /// at any other time nothing changes and the answer is no. For a rotation
    /// this means that there is no next generation.
    pub fn advance_keyring(&mut self) -> (advanced: bool)
        requires
            old(self).wf(),
        ensures
            final(self).wf(),
            advanced == old(self)@.may_advance(),
            final(self)@ == old(self)@.advanced(),
    {
        match self.roll {
            Some(SegmentRoll { change, phase: RollPhase::Flushed }) => {
                match change {
                    KeyringChange::Install(keyring) => self.wal_keyring.store(Some(keyring)),
                    KeyringChange::Uninstall => self.wal_keyring.store(None),
                    KeyringChange::Rotate => {},
                }
                self.roll = Some(SegmentRoll { change, phase: RollPhase::Advanced });
                true
            },
            _ => false,
        }
    }

    /// Carry out a rotation, between sealing the old segment and opening the
    /// next: from now on the keyring is `next`, for whoever looks at it. This
    /// happens once, not before the flush is done, and only to a log that is
    /// encrypted: otherwise nothing changes and the answer is no.
    pub fn advance_keyring_to(&mut self, next: WalKeyring) -> (advanced: bool)
        requires
            old(self).wf(),
        ensures
            final(self).wf(),
            advanced == (old(self)@.may_advance() && old(self)@.roll->0.change is Rotate
                && old(self)@.keyring is Some),
            final(self)@ == old(self)@.rotated_to(next),
    {
        match self.roll {
            Some(SegmentRoll { change: KeyringChange::Rotate, phase: RollPhase::Flushed }) => {
                if self.wal_keyring.load().is_none() {
                    return false;
                }
                self.wal_keyring.store(Some(next));
                self.roll = Some(
                    SegmentRoll { change: KeyringChange::Rotate, phase: RollPhase::Advanced },
                );
                true
            },
            _ => false,
        }
    }

    /// The roll is over, whether its change was carried out or not.
    pub fn finish_keyring_change(&mut self)
        requires
            old(self).wf(),
        ensures
            final(self).wf(),
            final(self)@ == (SystemView { roll: None, ..old(self)@ }),
    {
        self.roll = None;
    }

    /// Get the group commit coordinator for waiting on epochs. Modes without
    /// epochs have none.
    pub fn group_commit_coordinator(&self) -> (gc: Option<&GroupCommitCoordinator>)
        ensures
            match gc {
                Some(gc) => self@.group_commit == Some(gc@),
                None => self@.group_commit is None,
            },
    {
        match &self.group_commit {
            Some(gc) => Some(gc),
            None => None,
        }
    }

    /// Get the group commit coordinator for changing its state.
    pub fn group_commit_mut(&mut self) -> (gc: Option<&mut GroupCommitCoordinator>)
        requires
            old(self).wf(),
        ensures
            final(self).wf(),
            match gc {
                Some(gc) => {
                    &&& old(self)@.group_commit == Some(gc@)
                    &&& final(self)@ == (SystemView {
                        group_commit: Some(final(gc)@),
                        ..old(self)@
                    })
                },
                None => old(self)@.group_commit is None && final(self)@ == old(self)@,
            },
    {
        match &mut self.group_commit {
            Some(gc) => Some(gc),
            None => None,
        }
    }

    /// Try again to place the entry of a blocked append.
    pub fn append_retry(&mut self, blocked: BlockedAppend) -> (turn: AppendTurn)
        requires
            old(self).wf(),
            0 <= blocked@.stripe < old(self)@.wal.stripes.len(),
        ensures
            final(self).wf(),
            attempted(old(self)@.wal, final(self)@.wal, turn, blocked@),
            final(self)@ == (SystemView { wal: final(self)@.wal, ..old(self)@ }),
    {
        self.wal.append_retry(blocked)
    }

    /// Decide what a blocked append does at `now`.
    pub fn append_blocked(&mut self, blocked: BlockedAppend, now: u64) -> (wait: AppendWait)
        requires
            old(self).wf(),
            0 <= blocked@.stripe < old(self)@.wal.stripes.len(),
        ensures
            final(self).wf(),
            waited_on(old(self)@.wal, final(self)@.wal, wait, blocked@, now),
            final(self)@ == (SystemView { wal: final(self)@.wal, ..old(self)@ }),
    {
        self.wal.append_blocked(blocked, now)
    }

    /// Try again to place the rest of a blocked batch.
    pub fn batch_retry(&mut self, batch: BlockedBatch, now: u64) -> (result: (
        BatchTurn,
        Option<String>,
    ))
        requires
            old(self).wf(),
            batch@.wf(),
            0 <= batch@.stripe < old(self)@.wal.stripes.len(),
        ensures
            final(self).wf(),
            batch_attempted(old(self)@.wal, final(self)@.wal, result.0, result.1, batch@, now),
            final(self)@ == (SystemView { wal: final(self)@.wal, ..old(self)@ }),
    {
        self.wal.batch_retry(batch, now)
    }

    /// Decide what a blocked batch does at `now`.
    pub fn batch_blocked(&mut self, batch: BlockedBatch, now: u64) -> (wait: BatchWait)
        requires
            old(self).wf(),
            batch@.wf(),
            batch@.rest.len() > 0,
            0 <= batch@.stripe < old(self)@.wal.stripes.len(),
        ensures
            final(self).wf(),
            batch_waited_on(old(self)@.wal, final(self)@.wal, wait, batch@, now),
            final(self)@ == (SystemView { wal: final(self)@.wal, ..old(self)@ }),
    {
        self.wal.batch_blocked(batch, now)
    }

    /// The striped log.
    pub fn wal(&self) -> (wal: &ConcurrentWal)
        requires
            self.wf(),
        ensures
            wal.wf(),
            wal@ == self@.wal,
    {
        &self.wal
    }

    /// Get the current (next to be allocated) LSN.
    pub fn current_lsn(&self) -> (lsn: LSN)
        ensures
            lsn == LSN(self@.wal.next_lsn),
    {
        self.wal.current_lsn()
    }

    /// Set the next LSN to allocate, past every LSN that is durable already.
    /// Recovery only: it must run before any append. An LSN that was passed is
    /// ignored.
    pub fn set_next_lsn(&mut self, lsn: LSN)
        requires
            old(self).wf(),
            old(self)@.wal.total_appends == 0,
        ensures
            final(self).wf(),
            final(self)@ == (SystemView {
                wal: WalView {
                    next_lsn: if lsn.0 > old(self)@.wal.next_lsn {
                        lsn.0
                    } else {
                        old(self)@.wal.next_lsn
                    },
                    ..old(self)@.wal
                },
                ..old(self)@
            }),
    {
        self.wal.set_next_lsn(lsn);
    }

    /// Get total entries appended.
    pub fn total_appends(&self) -> (count: u64)
        ensures
            count == self@.wal.total_appends,
    {
        self.wal.total_appends()
    }

    /// Get total entries flushed to disk.
    pub fn total_flushed(&self) -> (count: u64)
        ensures
            count == self@.total_flushed,
    {
        self.total_flushed
    }

    /// Get the durability mode.
    pub fn durability_mode(&self) -> (mode: DurabilityMode)
        ensures
            mode == self@.mode,
    {
        self.durability_mode
    }

    /// Get the number of consecutive flush errors. It resets to 0 after a
    /// successful flush.
    pub fn consecutive_flush_errors(&self) -> (count: u64)
        ensures
            count == self@.flush_errors,
    {
        self.consecutive_flush_errors
    }

    /// Completed background-flusher cycles. A value that stops advancing tells
    /// that the flusher died or wedged.
    pub fn flush_heartbeat(&self) -> (count: u64)
        ensures
            count == self@.heartbeat,
    {
        self.flush_heartbeat
    }

    /// Errors of the coordinator that the background flusher survived. This
    /// never resets.
    pub fn flush_cycle_errors(&self) -> (count: u64)
        ensures
            count == self@.cycle_errors,
    {
        self.flush_cycle_errors
    }

    /// Override the heartbeat staleness threshold, in microseconds; `0` means
    /// that the computed one is used.
    pub fn set_health_staleness_override_micros(&mut self, micros: u64)
        requires
            old(self).wf(),
        ensures
            final(self).wf(),
            final(self)@ == (SystemView { staleness_override_micros: micros, ..old(self)@ }),
    {
        self.staleness_override_micros = micros;
    }

    /// Whether the background flusher's heartbeat has gone stale. A log without
    /// a flush thread has no heartbeat that could.
    pub fn heartbeat_stale(&self, now_micros: u64) -> (stale: bool)
        ensures
            stale == self@.is_stale(now_micros),
    {
        if !self.has_flush_thread {
            return false;
        }
        let limit: u64 = if self.staleness_override_micros == 0 {
            let threshold: u128 = heartbeat_staleness_threshold(self.flush_interval_ms) * 1000;
            (threshold % 0x1_0000_0000_0000_0000) as u64
        } else {
            self.staleness_override_micros
        };
        now_micros.saturating_sub(self.last_beat_micros) > limit
    }

    /// Whether the last flush succeeded and the background flusher is still
    /// publishing its heartbeat.
    pub fn is_healthy(&self, now_micros: u64) -> (healthy: bool)
        ensures
            healthy == (self@.flush_errors == 0 && !self@.is_stale(now_micros)),
    {
        self.consecutive_flush_errors() == 0 && !self.heartbeat_stale(now_micros)
    }

    /// Get the WAL directory path.
    pub fn wal_dir(&self) -> (dir: &str)
        ensures
            dir@ == self@.segments.wal_dir@,
    {
        self.segments.wal_dir.as_str()
    }

    /// What the segment writer is configured with.
    pub fn flush_coordinator_config(&self) -> (config: &FlushCoordinatorConfig)
        ensures
            *config == self@.segments,
    {
        &self.segments
    }

    /// The flush interval, in milliseconds.
    pub fn flush_interval_ms(&self) -> (ms: u64)
        ensures
            ms == self@.flush_interval_ms,
    {
        self.flush_interval_ms
    }

    /// Whether recovery tolerates an undecodable trailing entry.
    pub fn tolerate_torn_tail(&self) -> (tolerate: bool)
        ensures
            tolerate == self@.tolerate_torn_tail,
    {
        self.tolerate_torn_tail
    }

    /// The bound on blocking appends in force, in milliseconds (`0` =
    /// unbounded).
    pub fn max_append_block_ms(&self) -> (ms: u64)
        ensures
            ms == self@.wal.config.max_append_block_ms,
    {
        self.wal.config().max_append_block_ms
    }

    /// Begin a shutdown at `now`: no append is accepted any more, and whoever is
    /// blocked gets out. Returns when [`Self::poll_shutdown`] gives up.
    pub fn shutdown(&mut self, now: u64) -> (limit: u64)
        requires
            old(self).wf(),
        ensures
            final(self).wf(),
            final(self)@ == old(self)@.closed(),
            limit == shutdown_limit(now, old(self)@.wal.config.max_append_block_ms),
    {
        self.wal.shutdown_graceful(now)
    }

    /// Ask whether the appends in flight are over. Once they are, or once the
    /// time is up, the flush thread is told to stop, and the diagnostic of a
    /// shutdown that left appends in flight is handed out. `None` means that
    /// the caller yields and asks again.
    pub fn poll_shutdown(&mut self, now: u64, limit: u64) -> (over: Option<Option<String>>)
        requires
            old(self).wf(),
        ensures
            final(self).wf(),
            if old(self)@.wal.active_batches == 0 {
                &&& over == Some(None::<String>)
                &&& final(self)@ == (SystemView {
                    shutdown_signal: true,
                    signaled: true,
                    ..old(self)@
                })
            } else if now >= limit {
                &&& over matches Some(Some(text))
                &&& text@ == shutdown_text(old(self)@.wal.active_batches)
                &&& final(self)@ == (SystemView {
                    shutdown_signal: true,
                    signaled: true,
                    ..old(self)@
                })
            } else {
                over is None && final(self)@ == old(self)@
            },
    {
        match self.wal.shutdown_poll(now, limit) {
            None => None,
            Some(outcome) => {
                self.shutdown_signal = true;
                self.flush_notifier.notify();
                match outcome {
                    ShutdownOutcome::Completed => Some(None),
                    ShutdownOutcome::TimedOut { active_batches } => {
                        let active = show_usize(active_batches);
                        Some(
                            Some(
                                concat3(
                                    "WAL shutdown timed out with ",
                                    active.as_str(),
                                    " appenders still in flight; buffers are closed, they will exit via the Closed path",
                                ),
                            ),
                        )
                    },
                }
            },
        }
    }

    /// Whether the flush thread was told to stop.
    pub fn is_shutdown_signaled(&self) -> (signaled: bool)
        ensures
            signaled == self@.shutdown_signal,
    {
        self.shutdown_signal
    }

    /// The flush thread has ended.
    pub fn flush_thread_joined(&mut self)
        requires
            old(self).wf(),
        ensures
            final(self).wf(),
            final(self)@ == (SystemView { has_flush_thread: false, ..old(self)@ }),
    {
        self.has_flush_thread = false;
    }

    /// The end of a shutdown: whatever is still buffered, in whichever mode, is
    /// to be written and synced. A flush thread that has not ended yet does that
    /// itself, and there is nothing to do for the caller.
    pub fn finish_shutdown(&mut self) -> (request: Option<FlushRequest>)
        requires
            old(self).wf(),
        ensures
            final(self).wf(),
            if old(self)@.has_flush_thread {
                request is None && final(self)@ == old(self)@
            } else {
                &&& final(self)@ == old(self)@.drained()
                &&& is_request(request, old(self)@.wal.stripes, true)
                &&& pending_total(final(self)@.wal.stripes) == 0
            },
    {
        if self.has_flush_thread {
            None
        } else {
            self.drain_request(true)
        }
    }

    /// Take the signal that the flush thread is to wake up, if there is one.
    pub fn take_flush_signal(&mut self) -> (was_signaled: bool)
        requires
            old(self).wf(),
        ensures
            final(self).wf(),
            was_signaled == old(self)@.signaled,
            final(self)@ == (SystemView { signaled: false, ..old(self)@ }),
    {
        self.flush_notifier.take_signal()
    }

    /// After the flush thread was parked: whether a signal woke it.
    pub fn flush_wait_over(&mut self, timed_out: bool) -> (was_signaled: bool)
        requires
            old(self).wf(),
        ensures
            final(self).wf(),
            was_signaled == (old(self)@.signaled && !timed_out),
            final(self)@ == (SystemView { signaled: false, ..old(self)@ }),
    {
        self.flush_notifier.after_wait(timed_out)
    }

    /// Let the next reading of the batch size fail, as a coordinator that is
    /// out of order for a moment would.
    pub fn inject_cycle_error(&mut self)
        requires
            old(self).wf(),
        ensures
            final(self).wf(),
            final(self)@ == (SystemView { injected_error: true, ..old(self)@ }),
    {
        self.injected_error = true;
    }

    /// Read the size of the current batch of a mode with epochs.
    pub(crate) fn current_batch_size(&mut self) -> (result: Result<usize, Error>)
        requires
            old(self).wf(),
            old(self)@.group_commit is Some,
        ensures
            final(self).wf(),
            final(self)@ == batch_size_read(old(self)@),
            match batch_size_error(old(self)@) {
                Some(cause) => result matches Err(error) && error@ == cause,
                None => result == Ok::<usize, Error>(old(self)@.group_commit->0.batch_size),
            },
    {
        if self.injected_error {
            self.injected_error = false;
            return Err(Error::wal("injected test error".to_string()));
        }
        match &mut self.group_commit {
            Some(gc) => gc.current_batch_size(),
            None => Ok(0),
        }
    }

    /// Drain everything that is ready, in LSN order.
    pub(crate) fn drain_ready(&mut self) -> (entries: Vec<PendingEntry>)
        requires
            old(self).wf(),
        ensures
            final(self).wf(),
            final(self)@ == old(self)@.drained(),
            is_stable_sort(entries@, ready_of_all(old(self)@.wal.stripes)),
    {
        self.wal.drain_all()
    }

    /// Throw away entries that were drained and will not be written.
    pub(crate) fn discard_drained(&mut self, entries: Vec<PendingEntry>)
        requires
            old(self).wf(),
        ensures
            final(self).wf(),
            final(self)@ == old(self)@.settled(entries@, false),
    {
        self.wal.discard_entries(entries);
    }

    /// Whether a transaction is between its append and its registration.
    pub fn is_membership_held(&self) -> (held: bool)
        ensures
            held == self@.membership_held,
    {
        self.membership_held
    }

    /// Count an error of the coordinator that the flusher survives.
    pub(crate) fn count_cycle_error(&mut self)
        requires
            old(self).wf(),
        ensures
            final(self).wf(),
            final(self)@ == (SystemView {
                cycle_errors: wrap(old(self)@.cycle_errors + 1),
                ..old(self)@
            }),
    {
        self.flush_cycle_errors = self.flush_cycle_errors.wrapping_add(1);
    }

    /// The last flush succeeded.
    pub(crate) fn reset_flush_errors(&mut self)
        requires
            old(self).wf(),
        ensures
            final(self).wf(),
            final(self)@ == (SystemView { flush_errors: 0, ..old(self)@ }),
    {
        self.consecutive_flush_errors = 0;
    }

    /// The last flush failed. Returns how many have failed in a row.
    pub(crate) fn count_flush_error(&mut self) -> (errors: u64)
        requires
            old(self).wf(),
        ensures
            final(self).wf(),
            errors == wrap(old(self)@.flush_errors + 1),
            final(self)@ == (SystemView { flush_errors: errors, ..old(self)@ }),
    {
        self.consecutive_flush_errors = self.consecutive_flush_errors.wrapping_add(1);
        self.consecutive_flush_errors
    }

    /// Publish that the flusher has completed a cycle at `now_micros`, before
    /// it parks: a flusher that is stuck, or parked for too long, stops
    /// publishing, and that is what makes it observable. Without a flush thread
    /// there is nothing to publish.
    pub fn beat(&mut self, now_micros: u64)
        requires
            old(self).wf(),
        ensures
            final(self).wf(),
            final(self)@ == if old(self)@.has_flush_thread {
                SystemView {
                    heartbeat: wrap(old(self)@.heartbeat + 1),
                    last_beat_micros: now_micros,
                    ..old(self)@
                }
            } else {
                old(self)@
            },
    {
        if self.has_flush_thread {
            self.flush_heartbeat = self.flush_heartbeat.wrapping_add(1);
            self.last_beat_micros = now_micros;
        }
    }
}

/// Registering a transaction drains nothing, and it registers into the epoch
/// that the next flush closes.
pub proof fn lemma_commit_registers_into_the_open_epoch(
    before: SystemView,
    after: SystemView,
    epoch: u64,
)
    requires
        committed(before, after, CommitTurn::Done(Ok(Some(epoch)))),
        has_epochs(before.mode),
        before.group_commit is Some,
    ensures
        after.wal == before.wal,
        after.group_commit matches Some(gc) && gc.current_epoch == epoch,
{
}

/// A synchronous commit makes everything durable that was buffered before it:
/// all of that is to be written and synced before the commit is over, and
/// nothing is pending afterwards.
pub proof fn lemma_synchronous_commit_writes_everything(
    before: SystemView,
    after: SystemView,
    turn: CommitTurn,
)
    requires
        committed(before, after, turn),
        before.mode is Synchronous,
        no_holes(before.wal.stripes),
    ensures
        pending_total(after.wal.stripes) == 0,
        match turn {
            CommitTurn::Flush(request) => {
                &&& request.sync
                &&& request.entries@.to_multiset() == ready_of_all(
                    before.wal.stripes,
                ).to_multiset()
                &&& request.entries@.len() == pending_total(before.wal.stripes)
            },
            CommitTurn::Done(_) => pending_total(before.wal.stripes) == 0,
        },
{
    lemma_all_pending_is_ready(before.wal.stripes);
    lemma_drained_stripes_are_empty(before.wal.stripes);
    if let CommitTurn::Flush(request) = turn {
        lemma_sort_is_a_permutation(request.entries@, ready_of_all(before.wal.stripes));
    }
}

/// An installed keyring is never replaced, and a missing one never removed: a
/// change begins only from the other state, and carrying it out flips the
/// state.
pub proof fn lemma_keyring_changes_flip(
    before: SystemView,
    after: SystemView,
    turn: KeyringTurn,
    change: KeyringChange,
)
    requires
        roll_started(before, after, turn, change),
        turn is Seal,
        change !is Rotate,
    ensures
        before.roll is None,
        after.keyring == before.keyring,
        after.roll matches Some(roll) && roll.change == change,
        keyring_after(change, before.keyring) is Some <==> before.keyring is None,
{
}

/// Two rolls never overlap: while one is under way, another is told to wait.
pub proof fn lemma_rolls_are_serialized(
    before: SystemView,
    after: SystemView,
    turn: KeyringTurn,
    change: KeyringChange,
)
    requires
        roll_started(before, after, turn, change),
        before.roll is Some,
    ensures
        turn is Busy,
        after == before,
{
}

/// Everything is flushed before the keyring moves on: a roll with something to
/// flush cannot be advanced until the flush has succeeded, and if the flush
/// fails it never is. What goes to the old segment is synced. After the flush
/// the change is carried out exactly once.
pub proof fn lemma_flush_comes_before_advance(
    before: SystemView,
    after: SystemView,
    request: FlushRequest,
    change: KeyringChange,
)
    requires
        roll_started(before, after, KeyringTurn::Seal(Some(request)), change),
    ensures
        request.sync,
        !after.may_advance(),
        after.advanced() == after,
        ({
            let written = after.settled(request.entries@, true).roll_flushed();
            let lost = SystemView { roll: None, ..after.settled(request.entries@, false) };
            &&& lost.keyring == before.keyring
            &&& !lost.may_advance()
            &&& lost.advanced() == lost
            &&& written.keyring == before.keyring
            &&& written.may_advance()
            &&& written.advanced().keyring == keyring_after(change, before.keyring)
            &&& !written.advanced().may_advance()
            &&& written.advanced().advanced() == written.advanced()
        }),
{
}

/// A roll with nothing to flush is advanced exactly once.
pub proof fn lemma_empty_roll_advances_once(
    before: SystemView,
    after: SystemView,
    change: KeyringChange,
)
    requires
        roll_started(before, after, KeyringTurn::Seal(None), change),
    ensures
        after.may_advance(),
        after.advanced().keyring == keyring_after(change, before.keyring),
        !after.advanced().may_advance(),
        after.advanced().advanced() == after.advanced(),
{
}

/// A rotation moves the keyring on exactly once, after everything that was
/// buffered is in the old segment: not while that is being flushed, and never
/// if the flush fails. Afterwards the keyring is the next generation, also once
/// the roll is over, and further attempts change nothing.
pub proof fn lemma_rotation_moves_the_keyring_on(
    before: SystemView,
    after: SystemView,
    request: Option<FlushRequest>,
    next: WalKeyring,
    again: WalKeyring,
)
    requires
        roll_started(before, after, KeyringTurn::Seal(request), KeyringChange::Rotate),
        before.keyring is Some,
    ensures
        ({
            let flushed = match request {
                Some(r) => after.settled(r.entries@, true).roll_flushed(),
                None => after,
            };
            let rotated = flushed.rotated_to(next);
            &&& flushed.keyring == before.keyring
            &&& flushed.may_rotate()
            &&& rotated.keyring == Some(next)
            &&& (SystemView { roll: None, ..rotated }).keyring == Some(next)
            &&& !rotated.may_rotate()
            &&& rotated.rotated_to(again) == rotated
            &&& rotated.advanced() == rotated
        }),
        request matches Some(r) ==> {
            let lost = SystemView { roll: None, ..after.settled(r.entries@, false) };
            &&& r.sync
            &&& after.rotated_to(next) == after
            &&& lost.keyring == before.keyring
            &&& lost.rotated_to(next) == lost
        },
{
}

/// Only a rotation of an encrypted log moves its keyring on to a next
/// generation: it is no way around the install and removal of a keyring.
pub proof fn lemma_only_rotation_replaces_a_keyring(system: SystemView, next: WalKeyring)
    ensures
        system.keyring is None ==> system.rotated_to(next) == system,
        system.roll is None ==> system.rotated_to(next) == system,
        system.roll matches Some(roll) && roll.change !is Rotate ==> system.rotated_to(next)
            == system,
        system.rotated_to(next).keyring is Some <==> system.keyring is Some,
{
}

/// A shutdown leaves nothing behind, whatever the durability mode: once the
/// system was told to shut down, what the final flush takes out is all that
/// was buffered, and nothing is pending afterwards. No stripe takes another
/// entry either.
pub proof fn lemma_shutdown_leaves_nothing_pending(
    before: SystemView,
    request: Option<FlushRequest>,
)
    requires
        no_holes(before.wal.stripes),
        is_request(request, before.closed().wal.stripes, true),
    ensures
        pending_total(before.closed().drained().wal.stripes) == 0,
        match request {
            Some(r) => r.sync && r.entries@.len() == pending_total(before.wal.stripes),
            None => pending_total(before.wal.stripes) == 0,
        },
        before.closed().drained().wal.shutdown_requested,
        forall|i: int|
            0 <= i < before.wal.stripes.len() ==> (
            #[trigger] before.closed().drained().wal.stripes[i]).closed,
{
    let stripes = before.wal.stripes;
    let shut = all_closed(stripes);
    lemma_no_holes_appear(stripes);
    lemma_drained_stripes_are_empty(shut);
    lemma_all_pending_is_ready(shut);
    lemma_closing_keeps_what_is_pending(stripes);
}

/// A log without a flush thread is never stale, whatever the threshold.
pub proof fn lemma_no_thread_is_never_stale(system: SystemView, now_micros: u64)
    requires
        !system.has_flush_thread,
    ensures
        !system.is_stale(now_micros),
{
}

/// Startup is a grace period: a system that was made at `made` is not stale
/// before the whole threshold has passed, though its flusher never ran.
pub proof fn lemma_startup_is_a_grace_period(
    system: SystemView,
    config: ConcurrentWalSystemConfig,
    made: u64,
    now_micros: u64,
)
    requires
        is_fresh_system(system, config, made),
        now_micros - made <= system.staleness_limit_micros(),
    ensures
        !system.is_stale(now_micros),
{
}

/// The threshold grows with the interval and never falls below the floor.
pub proof fn lemma_staleness_threshold(a: u64, b: u64)
    requires
        a <= b,
    ensures
        5_000 <= staleness_threshold(a) <= staleness_threshold(b),
        staleness_threshold(a) >= 10 * a,
{
}

/// A synchronous append flushes its own entry: whatever else is drained with
/// it, the entry is among what is written before the append is answered. The
/// answer is a success if the write succeeded, and never if it failed.
pub proof fn lemma_synchronous_append_is_durable(
    before: SystemView,
    placed: SystemView,
    stripe: int,
    entry: PendingEntry,
    handle: CompletionHandle,
    request: Option<FlushRequest>,
)
    requires
        no_holes(before.wal.stripes),
        0 <= stripe < before.wal.stripes.len(),
        placed.wal.stripes == before.wal.placed(stripe, seq![entry]).stripes,
        entry.completion == Some(handle),
        placed.wal.completions.contains_key(handle.0),
        placed.wal.completions[handle.0] == pending_completion(),
        is_request(request, placed.wal.stripes, true),
    ensures
        request matches Some(r) && r.entries@.contains(entry) && r.sync && ({
            let written = placed.drained().settled(r.entries@, true);
            let lost = placed.drained().settled(r.entries@, false);
            &&& seen_on(written.wal.completions, handle.0).state == CompletionState::Complete
            &&& seen_on(lost.wal.completions, handle.0).state == CompletionState::Error
        }),
{
    let stripes = before.wal.stripes;
    lemma_no_holes_are_made(stripes, stripe, seq![entry]);
    lemma_placed_entries_are_drained(stripes, stripe, seq![entry]);
    let after = placed.wal.stripes;
    let k = stripes[stripe].pending.len() as int;
    assert(after[stripe].pending[k] == Some(entry)) by {
        assert(seq![entry].map_values(|e: PendingEntry| Some(e))[0] == Some(entry));
    }
    match request {
        None => {
            assert(is_stable_sort(Seq::empty(), ready_of_all(after))) by {
                assert(ready_of_all(after) =~= Seq::empty());
            }
            lemma_drain_leaves_nothing_behind(after, Seq::empty(), stripe, k);
        },
        Some(r) => {
            lemma_drain_leaves_nothing_behind(after, r.entries@, stripe, k);
            let i = choose|i: int| 0 <= i < r.entries@.len() && r.entries@[i] == entry;
            lemma_completed_entries_are_answered(placed.wal.completions, r.entries@, i);
            lemma_discarded_entries_are_answered(placed.wal.completions, r.entries@, i);
            let lost = all_discarded(placed.wal.completions, r.entries@);
            if seen_on(lost, handle.0).state == CompletionState::Complete {
                lemma_discarding_acknowledges_nobody(
                    placed.wal.completions,
                    r.entries@,
                    handle.0,
                );
            }
        },
    }
}

} // verus!
