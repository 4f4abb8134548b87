//! Group commit: transactions register into the current epoch and wait until
//! that epoch was flushed.
//!
//! A flush closes the current epoch, opens the next one, and later reports how
//! the flush of the closed epoch went. Epochs may be finished in any order;
//! the durability frontier only moves over a contiguous run of finished ones.

use std::collections::HashSet;
use vstd::prelude::*;

use crate::error::{message_of, Error, ErrorView, StorageError};
use crate::text::{concat3, decimal, show_u64};

verus! {

broadcast use vstd::std_specs::hash::group_hash_axioms;

/// Default bound on acquiring the coordinator's state, and on waiting for an
/// epoch, in milliseconds: deadlock detection, not a promise.
pub const DEFAULT_ACQUIRE_TIMEOUT_MS: u64 = 120_000;

/// Configuration of a [`GroupCommitCoordinator`].
#[derive(Debug, Clone, Copy, PartialEq, Eq, Structural)]
pub struct GroupCommitConfig {
    /// How long a batch may wait before it is flushed, in milliseconds.
    pub max_delay_ms: u64,
    /// How many transactions make a batch full.
    pub max_batch_size: usize,
    /// The bound on acquiring the state, in milliseconds; `0` means unbounded.
    pub acquire_timeout_ms: u64,
}

/// The configuration that is used where none is named.
pub open spec fn default_group_commit() -> GroupCommitConfig {
    GroupCommitConfig { max_delay_ms: 10, max_batch_size: 100, acquire_timeout_ms: 120_000 }
}

impl Default for GroupCommitConfig {
    fn default() -> (config: Self)
        ensures
            config == default_group_commit(),
    {
        GroupCommitConfig {
            max_delay_ms: 10,
            max_batch_size: 100,
            acquire_timeout_ms: DEFAULT_ACQUIRE_TIMEOUT_MS,
        }
    }
}

/// The places at which the coordinator's state is acquired.
#[derive(Debug, Clone, Copy, PartialEq, Eq, Structural)]
pub enum LockSite {
    Register,
    StartFlush,
    FinishFlush,
    BatchSize,
    Frontier,
}

/// For each place, how many acquisitions pass there before one fails; `None`
/// means that none fails.
#[derive(Debug, Clone, Copy, PartialEq, Eq, Structural)]
pub struct Refusals {
    pub register: Option<u64>,
    pub start_flush: Option<u64>,
    pub finish_flush: Option<u64>,
    pub batch_size: Option<u64>,
    pub frontier: Option<u64>,
}

/// How many acquisitions pass at `site` before one fails.
pub open spec fn passes_at(refusals: Refusals, site: LockSite) -> Option<u64> {
    match site {
        LockSite::Register => refusals.register,
        LockSite::StartFlush => refusals.start_flush,
        LockSite::FinishFlush => refusals.finish_flush,
        LockSite::BatchSize => refusals.batch_size,
        LockSite::Frontier => refusals.frontier,
    }
}

/// `refusals` with another number of acquisitions that pass at `site`.
pub open spec fn with_passes(
    refusals: Refusals,
    site: LockSite,
    passes: Option<u64>,
) -> Refusals {
    match site {
        LockSite::Register => Refusals { register: passes, ..refusals },
        LockSite::StartFlush => Refusals { start_flush: passes, ..refusals },
        LockSite::FinishFlush => Refusals { finish_flush: passes, ..refusals },
        LockSite::BatchSize => Refusals { batch_size: passes, ..refusals },
        LockSite::Frontier => Refusals { frontier: passes, ..refusals },
    }
}

/// What is left of `passes` after one more acquisition; a refusal comes once.
pub open spec fn one_less(passes: Option<u64>) -> Option<u64> {
    match passes {
        Some(n) => if n > 0 {
            Some((n - 1) as u64)
        } else {
            None
        },
        None => None,
    }
}

/// The value of a [`GroupCommitCoordinator`].
#[verifier::ext_equal]
pub ghost struct GroupCommitView {
    pub config: GroupCommitConfig,
    /// The epoch that transactions register into.
    pub current_epoch: u64,
    /// The durability frontier: every epoch up to this one was finished.
    pub flushed_epoch: u64,
    /// The epochs past the frontier that were finished.
    pub completed: Set<u64>,
    /// The errors that flushes ended with, each with its epoch.
    pub errors: Seq<(u64, Seq<char>)>,
    /// How many transactions registered into the current epoch.
    pub batch_size: usize,
    /// At which places an acquisition of the state will fail.
    pub refusals: Refusals,
    /// Whether a thread died while it held the state.
    pub poisoned: bool,
}

/// A coordinator that nobody has used.
pub open spec fn fresh_group_commit(config: GroupCommitConfig) -> GroupCommitView {
    GroupCommitView {
        config,
        current_epoch: 1,
        flushed_epoch: 0,
        completed: Set::empty(),
        errors: Seq::empty(),
        batch_size: 0,
        refusals: Refusals {
            register: None,
            start_flush: None,
            finish_flush: None,
            batch_size: None,
            frontier: None,
        },
        poisoned: false,
    }
}

/// How far the frontier climbs from `flushed` over finished epochs.
pub open spec fn frontier(flushed: u64, completed: Set<u64>) -> u64
    decreases u64::MAX - flushed,
{
    if flushed < u64::MAX && completed.contains((flushed + 1) as u64) {
        frontier((flushed + 1) as u64, completed)
    } else {
        flushed
    }
}

/// The first error that was recorded for `epoch`.
pub open spec fn error_for(errors: Seq<(u64, Seq<char>)>, epoch: u64) -> Option<Seq<char>>
    decreases errors.len(),
{
    if errors.len() == 0 {
        None
    } else {
        match error_for(errors.drop_last(), epoch) {
            Some(text) => Some(text),
            None => if errors.last().0 == epoch {
                Some(errors.last().1)
            } else {
                None
            },
        }
    }
}

/// The error of a state that could not be acquired within its bound.
pub open spec fn not_acquired(bound_ms: u64) -> ErrorView {
    ErrorView::Wal(
        "GroupCommitCoordinator state lock was not acquired within "@ + decimal(bound_ms as nat)
            + " ms"@,
    )
}

/// The error of a state that could not be acquired within `bound_ms`, for
/// whoever guards the coordinator and gives up on it.
pub fn lock_not_acquired(bound_ms: u64) -> (error: Error)
    ensures
        error@ == not_acquired(bound_ms),
{
    let bound = show_u64(bound_ms);
    Error::wal(
        concat3(
            "GroupCommitCoordinator state lock was not acquired within ",
            bound.as_str(),
            " ms",
        ),
    )
}

impl GroupCommitView {
    /// Why the state cannot be acquired at `site`, if so.
    pub open spec fn refusal(self, site: LockSite) -> Option<ErrorView> {
        if self.poisoned {
            Some(ErrorView::LockPoisoned("GroupCommitCoordinator state lock poisoned"@))
        } else if passes_at(self.refusals, site) == Some(0u64) {
            Some(not_acquired(self.config.acquire_timeout_ms))
        } else {
            None
        }
    }

    /// The coordinator after an attempt to acquire its state at `site`: a
    /// refusal is used up, a poisoned lock stays poisoned.
    pub open spec fn acquired(self, site: LockSite) -> GroupCommitView {
        if self.poisoned {
            self
        } else {
            GroupCommitView {
                refusals: with_passes(
                    self.refusals,
                    site,
                    one_less(passes_at(self.refusals, site)),
                ),
                ..self
            }
        }
    }

    /// The coordinator after `n` attempts to acquire its state at `site`.
    pub open spec fn acquired_times(self, site: LockSite, n: nat) -> GroupCommitView
        decreases n,
    {
        if n == 0 {
            self
        } else {
            self.acquired_times(site, (n - 1) as nat).acquired(site)
        }
    }

    /// How many of the next `n` acquisitions at `site` pass before one fails.
    pub open spec fn passing(self, site: LockSite, n: nat) -> nat {
        if self.poisoned {
            0
        } else {
            match passes_at(self.refusals, site) {
                Some(passes) => if passes < n {
                    passes as nat
                } else {
                    n
                },
                None => n,
            }
        }
    }

    /// The coordinator after one more transaction registered.
    pub open spec fn registered(self) -> GroupCommitView {
        GroupCommitView {
            batch_size: if self.batch_size < usize::MAX {
                (self.batch_size + 1) as usize
            } else {
                usize::MAX
            },
            ..self
        }
    }

    /// The coordinator after the current epoch was closed.
    pub open spec fn started(self) -> GroupCommitView {
        GroupCommitView {
            current_epoch: (self.current_epoch + 1) as u64,
            batch_size: 0,
            ..self
        }
    }

    /// The coordinator after `epoch` was finished, with an error or without.
    pub open spec fn finished(self, epoch: u64, error: Option<Seq<char>>) -> GroupCommitView {
        let completed = self.completed.insert(epoch);
        let flushed = frontier(self.flushed_epoch, completed);
        GroupCommitView {
            flushed_epoch: flushed,
            completed: completed.difference(
                Set::new(|e: u64| self.flushed_epoch < e <= flushed),
            ),
            errors: match error {
                Some(text) => self.errors.push((epoch, text)),
                None => self.errors,
            },
            ..self
        }
    }

    /// What a waiter on `epoch` is told: nothing while the frontier has not
    /// reached it, and then how its own epoch went.
    pub open spec fn verdict(self, epoch: u64) -> Option<Result<(), Seq<char>>> {
        if self.flushed_epoch < epoch {
            None
        } else {
            match error_for(self.errors, epoch) {
                Some(text) => Some(Err(text)),
                None => Some(Ok(())),
            }
        }
    }
}

/// The error of a coordinator that has no epoch left to open.
pub open spec fn epochs_exhausted() -> ErrorView {
    ErrorView::Other("group-commit epochs are exhausted"@)
}

/// The error of a wait for an epoch that was never finished.
pub open spec fn epoch_wait_timed_out(epoch: u64, waited_ms: u64) -> ErrorView {
    ErrorView::Wal(
        "Group commit wait for epoch "@ + decimal(epoch as nat) + " timed out after "@ + decimal(
            waited_ms as nat,
        ) + " ms"@,
    )
}

/// The value of an outcome of a flush.
pub open spec fn outcome_text(outcome: Result<(), Error>) -> Option<Seq<char>> {
    match outcome {
        Ok(_) => None,
        Err(error) => Some(message_of(error@)),
    }
}

/// Coordinates the transactions of a batch with its flush.
pub struct GroupCommitCoordinator {
    config: GroupCommitConfig,
    current_epoch: u64,
    flushed_epoch: u64,
    completed_epochs: HashSet<u64>,
    recent_errors: Vec<(u64, String)>,
    batch_size: usize,
    refusals: Refusals,
    poisoned: bool,
}

impl View for GroupCommitCoordinator {
    type V = GroupCommitView;

    closed spec fn view(&self) -> GroupCommitView {
        GroupCommitView {
            config: self.config,
            current_epoch: self.current_epoch,
            flushed_epoch: self.flushed_epoch,
            completed: self.completed_epochs@,
            errors: self.recent_errors@.map_values(|p: (u64, String)| (p.0, p.1@)),
            batch_size: self.batch_size,
            refusals: self.refusals,
            poisoned: self.poisoned,
        }
    }
}

impl GroupCommitCoordinator {
    /// Create a coordinator with the given configuration.
    pub fn with_config(config: GroupCommitConfig) -> (coordinator: Self)
        ensures
            coordinator@ == fresh_group_commit(config),
    {
        let coordinator = GroupCommitCoordinator {
            config,
            current_epoch: 1,
            flushed_epoch: 0,
            completed_epochs: HashSet::new(),
            recent_errors: Vec::new(),
            batch_size: 0,
            refusals: Refusals {
                register: None,
                start_flush: None,
                finish_flush: None,
                batch_size: None,
                frontier: None,
            },
            poisoned: false,
        };
        assert(coordinator@ =~= fresh_group_commit(config));
        coordinator
    }

    /// Let the next acquisition at `site` fail: whoever guards the coordinator
    /// does not get hold of it in time.
    pub fn refuse_next(&mut self, site: LockSite)
        ensures
            final(self)@ == (GroupCommitView {
                refusals: with_passes(old(self)@.refusals, site, Some(0)),
                ..old(self)@
            }),
    {
        self.set_passes(site, Some(0));
    }

    /// Let `passes` acquisitions at `site` pass and the one after them fail.
    pub fn refuse_after(&mut self, site: LockSite, passes: u64)
        ensures
            final(self)@ == (GroupCommitView {
                refusals: with_passes(old(self)@.refusals, site, Some(passes)),
                ..old(self)@
            }),
    {
        self.set_passes(site, Some(passes));
    }

    /// Let every acquisition fail from now on: a thread died while it held the
    /// state.
    pub fn poison(&mut self)
        ensures
            final(self)@ == (GroupCommitView { poisoned: true, ..old(self)@ }),
    {
        self.poisoned = true;
    }

    fn set_passes(&mut self, site: LockSite, passes: Option<u64>)
        ensures
            final(self)@ == (GroupCommitView {
                refusals: with_passes(old(self)@.refusals, site, passes),
                ..old(self)@
            }),
    {
        match site {
            LockSite::Register => {
                self.refusals.register = passes;
            },
            LockSite::StartFlush => {
                self.refusals.start_flush = passes;
            },
            LockSite::FinishFlush => {
                self.refusals.finish_flush = passes;
            },
            LockSite::BatchSize => {
                self.refusals.batch_size = passes;
            },
            LockSite::Frontier => {
                self.refusals.frontier = passes;
            },
        }
    }

    /// Acquire the state at `site`.
    fn acquire(&mut self, site: LockSite) -> (result: Result<(), Error>)
        ensures
            final(self)@ == old(self)@.acquired(site),
            match old(self)@.refusal(site) {
                Some(refusal) => result matches Err(error) && error@ == refusal,
                None => result is Ok,
            },
    {
        if self.poisoned {
            return Err(
                Error::Storage(
                    StorageError::LockPoisoned {
                        reason: "GroupCommitCoordinator state lock poisoned".to_string(),
                    },
                ),
            );
        }
        let passes: Option<u64> = match site {
            LockSite::Register => self.refusals.register,
            LockSite::StartFlush => self.refusals.start_flush,
            LockSite::FinishFlush => self.refusals.finish_flush,
            LockSite::BatchSize => self.refusals.batch_size,
            LockSite::Frontier => self.refusals.frontier,
        };
        let (refused, left): (bool, Option<u64>) = match passes {
            None => (false, None),
            Some(n) => if n > 0 {
                (false, Some(n - 1))
            } else {
                (true, None)
            },
        };
        self.set_passes(site, left);
        if refused {
            return Err(lock_not_acquired(self.config.acquire_timeout_ms));
        }
        Ok(())
    }

    /// Register a transaction. Returns its epoch and whether the batch is full,
    /// so that the flush should be triggered at once.
    pub fn register_transaction(&mut self) -> (result: Result<(u64, bool), Error>)
        ensures
            match old(self)@.refusal(LockSite::Register) {
                Some(refusal) => {
                    &&& result matches Err(error)
                    &&& error@ == refusal
                    &&& final(self)@ == old(self)@.acquired(LockSite::Register)
                },
                None => {
                    &&& final(self)@ == old(self)@.acquired(LockSite::Register).registered()
                    &&& result == Ok::<(u64, bool), Error>(
                        (
                            old(self)@.current_epoch,
                            final(self)@.batch_size >= old(self)@.config.max_batch_size,
                        ),
                    )
                },
            },
    {
        match self.acquire(LockSite::Register) {
            Err(error) => Err(error),
            Ok(()) => {
                self.batch_size = self.batch_size.saturating_add(1);
                Ok((self.current_epoch, self.batch_size >= self.config.max_batch_size))
            },
        }
    }

    /// Close the current epoch and open the next one. Returns the closed epoch.
    /// Nothing is opened if this fails.
    pub fn start_flush(&mut self) -> (result: Result<u64, Error>)
        ensures
            match old(self)@.refusal(LockSite::StartFlush) {
                Some(refusal) => {
                    &&& result matches Err(error)
                    &&& error@ == refusal
                    &&& final(self)@ == old(self)@.acquired(LockSite::StartFlush)
                },
                None => if old(self)@.current_epoch == u64::MAX {
                    &&& result matches Err(error)
                    &&& error@ == epochs_exhausted()
                    &&& final(self)@ == old(self)@.acquired(LockSite::StartFlush)
                } else {
                    &&& result == Ok::<u64, Error>(old(self)@.current_epoch)
                    &&& final(self)@ == old(self)@.acquired(LockSite::StartFlush).started()
                },
            },
    {
        match self.acquire(LockSite::StartFlush) {
            Err(error) => Err(error),
            Ok(()) => {
                let epoch: u64 = self.current_epoch;
                if epoch == u64::MAX {
                    return Err(Error::other("group-commit epochs are exhausted".to_string()));
                }
                self.current_epoch = epoch + 1;
                self.batch_size = 0;
                Ok(epoch)
            },
        }
    }

    /// Finish `epoch` with the outcome of its flush, and let the frontier climb
    /// as far as finished epochs reach.
    pub fn finish_flush(&mut self, epoch: u64, outcome: Result<(), Error>) -> (result: Result<
        (),
        Error,
    >)
        ensures
            match old(self)@.refusal(LockSite::FinishFlush) {
                Some(refusal) => {
                    &&& result matches Err(error)
                    &&& error@ == refusal
                    &&& final(self)@ == old(self)@.acquired(LockSite::FinishFlush)
                },
                None => {
                    &&& result is Ok
                    &&& final(self)@ == old(self)@.acquired(LockSite::FinishFlush).finished(
                        epoch,
                        outcome_text(outcome),
                    )
                },
            },
    {
        match self.acquire(LockSite::FinishFlush) {
            Err(error) => {
                return Err(error);
            },
            Ok(()) => {},
        }
        let ghost before = self@;
        match outcome {
            Ok(()) => {},
            Err(error) => {
                let text = error.message();
                self.recent_errors.push((epoch, text));
                assert(self@.errors =~= before.errors.push((epoch, text@)));
            },
        }
        let ghost errors = self@.errors;
        self.completed_epochs.insert(epoch);
        let ghost completed = before.completed.insert(epoch);
        let ghost f0 = self.flushed_epoch;
        proof {
            assert(self@.completed =~= completed.difference(
                Set::new(|e: u64| f0 < e <= self.flushed_epoch),
            ));
        }
        while self.flushed_epoch < u64::MAX && self.completed_epochs.contains(
            &(self.flushed_epoch + 1),
        )
            invariant
                f0 <= self.flushed_epoch,
                f0 == before.flushed_epoch,
                frontier(self.flushed_epoch, completed) == frontier(f0, completed),
                self@ == (GroupCommitView {
                    flushed_epoch: self.flushed_epoch,
                    completed: completed.difference(
                        Set::new(|e: u64| f0 < e <= self.flushed_epoch),
                    ),
                    errors,
                    ..before
                }),
            decreases u64::MAX - self.flushed_epoch,
        {
            let next: u64 = self.flushed_epoch + 1;
            self.completed_epochs.remove(&next);
            self.flushed_epoch = next;
            proof {
                assert(self@.completed =~= completed.difference(
                    Set::new(|e: u64| f0 < e <= self.flushed_epoch),
                ));
            }
        }
        Ok(())
    }

    /// One turn of waiting for `epoch` to be flushed, `waited_ms` milliseconds
    /// into the wait: `None` means that the caller parks.
    pub fn wait_for_flush(&self, epoch: u64, waited_ms: u64) -> (answer: Option<Result<(), Error>>)
        ensures
            match self@.verdict(epoch) {
                Some(Ok(_)) => answer == Some(Ok::<(), Error>(())),
                Some(Err(text)) => answer matches Some(Err(error)) && error@ == ErrorView::Other(
                    text,
                ),
                None => if self@.config.acquire_timeout_ms != 0 && waited_ms
                    >= self@.config.acquire_timeout_ms {
                    answer matches Some(Err(error)) && error@ == epoch_wait_timed_out(
                        epoch,
                        waited_ms,
                    )
                } else {
                    answer is None
                },
            },
    {
        if self.flushed_epoch >= epoch {
            let mut i: usize = 0;
            proof {
                assert(self@.errors.take(0) =~= Seq::empty());
            }
            while i < self.recent_errors.len()
                invariant
                    i <= self.recent_errors.len(),
                    self.flushed_epoch >= epoch,
                    error_for(self@.errors.take(i as int), epoch) is None,
                decreases self.recent_errors.len() - i,
            {
                proof {
                    assert(self@.errors.take(i + 1).drop_last() =~= self@.errors.take(i as int));
                }
                if self.recent_errors[i].0 == epoch {
                    proof {
                        lemma_first_error_stays(self@.errors, epoch, i + 1);
                    }
                    return Some(Err(Error::other(self.recent_errors[i].1.clone())));
                }
                i = i + 1;
            }
            proof {
                assert(self@.errors.take(i as int) =~= self@.errors);
            }
            return Some(Ok(()));
        }
        if self.config.acquire_timeout_ms != 0 && waited_ms >= self.config.acquire_timeout_ms {
            let shown_epoch = show_u64(epoch);
            let shown_wait = show_u64(waited_ms);
            let reason = concat3(
                "Group commit wait for epoch ",
                shown_epoch.as_str(),
                " timed out after ",
            );
            return Some(Err(Error::wal(concat3(reason.as_str(), shown_wait.as_str(), " ms"))));
        }
        None
    }

    /// How many transactions registered into the current epoch.
    pub fn current_batch_size(&mut self) -> (result: Result<usize, Error>)
        ensures
            final(self)@ == old(self)@.acquired(LockSite::BatchSize),
            match old(self)@.refusal(LockSite::BatchSize) {
                Some(refusal) => result matches Err(error) && error@ == refusal,
                None => result == Ok::<usize, Error>(old(self)@.batch_size),
            },
    {
        match self.acquire(LockSite::BatchSize) {
            Err(error) => Err(error),
            Ok(()) => Ok(self.batch_size),
        }
    }

    /// The durability frontier.
    pub fn flushed_epoch(&mut self) -> (result: Result<u64, Error>)
        ensures
            final(self)@ == old(self)@.acquired(LockSite::Frontier),
            match old(self)@.refusal(LockSite::Frontier) {
                Some(refusal) => result matches Err(error) && error@ == refusal,
                None => result == Ok::<u64, Error>(old(self)@.flushed_epoch),
            },
    {
        match self.acquire(LockSite::Frontier) {
            Err(error) => Err(error),
            Ok(()) => Ok(self.flushed_epoch),
        }
    }
}

/// What `n` attempts to acquire the state leave behind: the refusal that lies
/// ahead has come `n` steps nearer, and everything else is as it was.
pub proof fn lemma_acquired_times(gc: GroupCommitView, site: LockSite, n: nat)
    requires
        !gc.poisoned,
        n <= gc.passing(site, n),
    ensures
        ({
            let after = gc.acquired_times(site, n);
            &&& after == (GroupCommitView { refusals: after.refusals, ..gc })
            &&& passes_at(after.refusals, site) == match passes_at(gc.refusals, site) {
                Some(passes) => Some((passes - n) as u64),
                None => None,
            }
        }),
    decreases n,
{
    if n > 0 {
        lemma_acquired_times(gc, site, (n - 1) as nat);
    }
}

/// The first error of an epoch stays its first error, whatever is recorded
/// later: a failure that was reported is never taken back.
pub proof fn lemma_first_error_stays(errors: Seq<(u64, Seq<char>)>, epoch: u64, n: int)
    requires
        0 <= n <= errors.len(),
        error_for(errors.take(n), epoch) is Some,
    ensures
        error_for(errors, epoch) == error_for(errors.take(n), epoch),
    decreases errors.len() - n,
{
    if n < errors.len() {
        assert(errors.take(n + 1).drop_last() =~= errors.take(n));
        lemma_first_error_stays(errors, epoch, n + 1);
    } else {
        assert(errors.take(n) =~= errors);
    }
}

/// The frontier never moves back, covers finished epochs only, and stops at
/// the first one that is not finished.
pub proof fn lemma_frontier(flushed: u64, completed: Set<u64>)
    ensures
        flushed <= frontier(flushed, completed),
        forall|e: u64|
            flushed < e <= frontier(flushed, completed) ==> #[trigger] completed.contains(e),
        frontier(flushed, completed) < u64::MAX ==> !completed.contains(
            (frontier(flushed, completed) + 1) as u64,
        ),
    decreases u64::MAX - flushed,
{
    if flushed < u64::MAX && completed.contains((flushed + 1) as u64) {
        lemma_frontier((flushed + 1) as u64, completed);
    }
}

/// An epoch that is not finished is a wall: no later flush moves the frontier
/// past it.
pub proof fn lemma_unfinished_epoch_is_a_wall(flushed: u64, completed: Set<u64>, wall: u64)
    requires
        flushed < wall,
        !completed.contains(wall),
    ensures
        frontier(flushed, completed) < wall,
{
    lemma_frontier(flushed, completed);
}

/// The frontier from any point that it has reached is the frontier.
proof fn lemma_frontier_restarts(flushed: u64, completed: Set<u64>, from: u64)
    requires
        flushed <= from <= frontier(flushed, completed),
    ensures
        frontier(from, completed) == frontier(flushed, completed),
    decreases from - flushed,
{
    if flushed < from {
        lemma_frontier_restarts((flushed + 1) as u64, completed, from);
    }
}

/// What lies behind the starting point does not matter to the frontier.
proof fn lemma_frontier_looks_ahead(flushed: u64, a: Set<u64>, b: Set<u64>)
    requires
        forall|e: u64| e > flushed ==> (#[trigger] a.contains(e) <==> b.contains(e)),
    ensures
        frontier(flushed, a) == frontier(flushed, b),
    decreases u64::MAX - flushed,
{
    if flushed < u64::MAX {
        assert(a.contains((flushed + 1) as u64) <==> b.contains((flushed + 1) as u64));
        lemma_frontier_looks_ahead((flushed + 1) as u64, a, b);
    }
}

/// More finished epochs never hold the frontier back.
proof fn lemma_frontier_grows(flushed: u64, a: Set<u64>, b: Set<u64>)
    requires
        a.subset_of(b),
    ensures
        frontier(flushed, a) <= frontier(flushed, b),
    decreases u64::MAX - flushed,
{
    lemma_frontier(flushed, b);
    if flushed < u64::MAX && a.contains((flushed + 1) as u64) {
        lemma_frontier_grows((flushed + 1) as u64, a, b);
    }
}

/// Epochs may be finished in any order: the later of two parks until the
/// earlier one lands, and then both are released. The frontier ends up where
/// it would have in the other order.
pub proof fn lemma_finish_order_does_not_matter(
    gc: GroupCommitView,
    a: u64,
    outcome_a: Option<Seq<char>>,
    b: u64,
    outcome_b: Option<Seq<char>>,
)
    requires
        a > gc.flushed_epoch,
        b > gc.flushed_epoch,
    ensures
        gc.finished(a, outcome_a).finished(b, outcome_b).flushed_epoch == frontier(
            gc.flushed_epoch,
            gc.completed.insert(a).insert(b),
        ),
        gc.finished(b, outcome_b).finished(a, outcome_a).flushed_epoch == frontier(
            gc.flushed_epoch,
            gc.completed.insert(a).insert(b),
        ),
{
    lemma_finish_two(gc, a, outcome_a, b, outcome_b);
    lemma_finish_two(gc, b, outcome_b, a, outcome_a);
    assert(gc.completed.insert(a).insert(b) =~= gc.completed.insert(b).insert(a));
}

proof fn lemma_finish_two(
    gc: GroupCommitView,
    a: u64,
    outcome_a: Option<Seq<char>>,
    b: u64,
    outcome_b: Option<Seq<char>>,
)
    requires
        a > gc.flushed_epoch,
        b > gc.flushed_epoch,
    ensures
        gc.finished(a, outcome_a).finished(b, outcome_b).flushed_epoch == frontier(
            gc.flushed_epoch,
            gc.completed.insert(a).insert(b),
        ),
{
    let one = gc.completed.insert(a);
    let both = one.insert(b);
    let middle = gc.finished(a, outcome_a);
    let f = middle.flushed_epoch;
    lemma_frontier(gc.flushed_epoch, one);
    lemma_frontier_grows(gc.flushed_epoch, one, both);
    lemma_frontier_restarts(gc.flushed_epoch, both, f);
    lemma_frontier_looks_ahead(f, middle.completed.insert(b), both);
}

/// An epoch whose flush failed is never reported as a success: once the
/// failure is recorded, whatever is finished afterwards, in whatever order, a
/// waiter on that epoch is told nothing or the failure.
pub proof fn lemma_failure_reaches_its_own_epoch(
    gc: GroupCommitView,
    epoch: u64,
    text: Seq<char>,
    later: u64,
    outcome: Option<Seq<char>>,
)
    requires
        error_for(gc.errors, epoch) == Some(text) || (error_for(gc.errors, epoch) is None && later
            == epoch && outcome == Some(text)),
    ensures
        error_for(gc.finished(later, outcome).errors, epoch) == Some(text),
        gc.finished(later, outcome).verdict(epoch) is None || gc.finished(later, outcome).verdict(
            epoch,
        ) == Some(Err::<(), Seq<char>>(text)),
{
    let after = gc.finished(later, outcome).errors;
    match outcome {
        Some(t) => {
            assert(after.drop_last() =~= gc.errors);
        },
        None => {},
    }
}

/// The outcome of one epoch is never told to the waiters of another.
pub proof fn lemma_outcome_stays_with_its_epoch(
    gc: GroupCommitView,
    epoch: u64,
    other: u64,
    outcome: Option<Seq<char>>,
)
    requires
        epoch != other,
    ensures
        error_for(gc.finished(other, outcome).errors, epoch) == error_for(gc.errors, epoch),
{
    let after = gc.finished(other, outcome).errors;
    match outcome {
        Some(t) => {
            assert(after.drop_last() =~= gc.errors);
        },
        None => {},
    }
}

} // verus!
