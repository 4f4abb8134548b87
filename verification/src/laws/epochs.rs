//! How transactions of a group commit learn of their flush.

use vstd::prelude::*;

use crate::error::{message_of, Error, ErrorView};
use crate::group_commit::{
    error_for, frontier, lemma_first_error_stays, lemma_frontier, GroupCommitConfig,
    GroupCommitCoordinator, GroupCommitView, LockSite, Refusals,
};
use crate::text::decimal;

verus! {

/// Whether nothing stands in the way of acquiring the state at any place.
pub open spec fn is_free(gc: GroupCommitCoordinator) -> bool {
    let refusals = gc@.refusals;
    &&& !gc@.poisoned
    &&& refusals.register is None
    &&& refusals.start_flush is None
    &&& refusals.finish_flush is None
    &&& refusals.batch_size is None
    &&& refusals.frontier is None
}

/// A new coordinator has its first epoch open and empty, nothing flushed, and
/// nothing in the way.
pub proof fn lemma_new_coordinator(config: GroupCommitConfig, gc: GroupCommitCoordinator)
    requires
        call_ensures(GroupCommitCoordinator::with_config, (config,), gc),
    ensures
        gc@.config == config,
        gc@.current_epoch == 1,
        gc@.flushed_epoch == 0,
        gc@.batch_size == 0,
        forall|epoch: u64| !gc@.completed.contains(epoch),
        gc@.errors.len() == 0,
        is_free(gc),
{
}

/// The configuration that is used where none is named.
pub proof fn lemma_default_group_commit(config: GroupCommitConfig)
    requires
        call_ensures(<GroupCommitConfig as Default>::default, (), config),
    ensures
        config.max_delay_ms == 10,
        config.max_batch_size == 100,
        config.acquire_timeout_ms == 120_000,
{
}

/// A transaction registers into the open epoch, makes the batch one larger, and
/// learns whether the batch is full now.
pub proof fn lemma_registration_joins_the_open_epoch(
    gc: &mut GroupCommitCoordinator,
    result: Result<(u64, bool), Error>,
)
    requires
        is_free(*old(gc)),
        old(gc)@.batch_size < usize::MAX,
        call_ensures(GroupCommitCoordinator::register_transaction, (gc,), result),
    ensures
        result matches Ok((epoch, full)) && epoch == old(gc)@.current_epoch && (full
            <==> old(gc)@.batch_size + 1 >= old(gc)@.config.max_batch_size),
        final(gc)@.batch_size == old(gc)@.batch_size + 1,
        final(gc)@.current_epoch == old(gc)@.current_epoch,
        final(gc)@.flushed_epoch == old(gc)@.flushed_epoch,
        final(gc)@.completed == old(gc)@.completed,
        final(gc)@.errors == old(gc)@.errors,
        final(gc)@.config == old(gc)@.config,
        is_free(*final(gc)),
{
}

/// A flush closes the open epoch and opens the next one, which is empty.
/// Nothing counts as flushed by that.
pub proof fn lemma_flush_closes_the_open_epoch(
    gc: &mut GroupCommitCoordinator,
    result: Result<u64, Error>,
)
    requires
        is_free(*old(gc)),
        old(gc)@.current_epoch < u64::MAX,
        call_ensures(GroupCommitCoordinator::start_flush, (gc,), result),
    ensures
        result == Ok::<u64, Error>(old(gc)@.current_epoch),
        final(gc)@.current_epoch == old(gc)@.current_epoch + 1,
        final(gc)@.batch_size == 0,
        final(gc)@.flushed_epoch == old(gc)@.flushed_epoch,
        final(gc)@.completed == old(gc)@.completed,
        final(gc)@.errors == old(gc)@.errors,
        final(gc)@.config == old(gc)@.config,
        is_free(*final(gc)),
{
}

/// What is left of the acquisitions that pass at a place after one more there.
pub open spec fn left_after_one(passes: Option<u64>) -> Option<u64> {
    if passes is Some && passes->0 > 0 {
        Some((passes->0 - 1) as u64)
    } else {
        None
    }
}

/// Whether `after` are the refusals that lie ahead once one more acquisition at
/// `site` was attempted.
pub open spec fn attempted_at(before: Refusals, after: Refusals, site: LockSite) -> bool {
    match site {
        LockSite::Register => after == (Refusals {
            register: left_after_one(before.register),
            ..before
        }),
        LockSite::StartFlush => after == (Refusals {
            start_flush: left_after_one(before.start_flush),
            ..before
        }),
        LockSite::FinishFlush => after == (Refusals {
            finish_flush: left_after_one(before.finish_flush),
            ..before
        }),
        LockSite::BatchSize => after == (Refusals {
            batch_size: left_after_one(before.batch_size),
            ..before
        }),
        LockSite::Frontier => after == (Refusals {
            frontier: left_after_one(before.frontier),
            ..before
        }),
    }
}

/// Whether the state can be acquired at a place where `passes` acquisitions pass
/// before one fails.
pub open spec fn can_acquire(gc: GroupCommitView, passes: Option<u64>) -> bool {
    !gc.poisoned && passes != Some(0u64)
}

/// Whether whoever cannot acquire the state is told `error`, and `after` is
/// `before` but for the refusal that was met.
pub open spec fn is_refused(
    before: GroupCommitView,
    after: GroupCommitView,
    site: LockSite,
    error: ErrorView,
) -> bool {
    if before.poisoned {
        &&& error == ErrorView::LockPoisoned("GroupCommitCoordinator state lock poisoned"@)
        &&& after == before
    } else {
        &&& error == ErrorView::Wal(
            "GroupCommitCoordinator state lock was not acquired within "@ + decimal(
                before.config.acquire_timeout_ms as nat,
            ) + " ms"@,
        )
        &&& attempted_at(before.refusals, after.refusals, site)
        &&& after == (GroupCommitView { refusals: after.refusals, ..before })
    }
}

/// Whatever refusals lie ahead: a registration that can acquire the state joins
/// the open epoch, and any other is told why it could not and joins none.
pub proof fn lemma_registration_whatever_lies_ahead(
    gc: &mut GroupCommitCoordinator,
    result: Result<(u64, bool), Error>,
)
    requires
        call_ensures(GroupCommitCoordinator::register_transaction, (gc,), result),
    ensures
        result is Ok <==> can_acquire(old(gc)@, old(gc)@.refusals.register),
        result matches Err(error) ==> is_refused(
            old(gc)@,
            final(gc)@,
            LockSite::Register,
            error@,
        ),
        result matches Ok((epoch, full)) ==> {
            &&& epoch == old(gc)@.current_epoch
            &&& full <==> old(gc)@.batch_size + 1 >= old(gc)@.config.max_batch_size
            &&& old(gc)@.batch_size < usize::MAX ==> final(gc)@.batch_size == old(gc)@.batch_size
                + 1
            &&& attempted_at(old(gc)@.refusals, final(gc)@.refusals, LockSite::Register)
            &&& final(gc)@ == (GroupCommitView {
                batch_size: final(gc)@.batch_size,
                refusals: final(gc)@.refusals,
                ..old(gc)@
            })
        },
{
}

/// The same for the start of a flush, which also needs an epoch to open.
pub proof fn lemma_flush_start_whatever_lies_ahead(
    gc: &mut GroupCommitCoordinator,
    result: Result<u64, Error>,
)
    requires
        call_ensures(GroupCommitCoordinator::start_flush, (gc,), result),
    ensures
        result is Ok <==> can_acquire(old(gc)@, old(gc)@.refusals.start_flush)
            && old(gc)@.current_epoch < u64::MAX,
        !can_acquire(old(gc)@, old(gc)@.refusals.start_flush) ==> (result matches Err(error)
            && is_refused(old(gc)@, final(gc)@, LockSite::StartFlush, error@)),
        can_acquire(old(gc)@, old(gc)@.refusals.start_flush) && old(gc)@.current_epoch == u64::MAX
            ==> {
            &&& result matches Err(error)
            &&& error@ == ErrorView::Other("group-commit epochs are exhausted"@)
            &&& attempted_at(old(gc)@.refusals, final(gc)@.refusals, LockSite::StartFlush)
            &&& final(gc)@ == (GroupCommitView { refusals: final(gc)@.refusals, ..old(gc)@ })
        },
        result matches Ok(epoch) ==> {
            &&& epoch == old(gc)@.current_epoch
            &&& final(gc)@.current_epoch == old(gc)@.current_epoch + 1
            &&& final(gc)@.batch_size == 0
            &&& attempted_at(old(gc)@.refusals, final(gc)@.refusals, LockSite::StartFlush)
            &&& final(gc)@ == (GroupCommitView {
                current_epoch: final(gc)@.current_epoch,
                batch_size: 0,
                refusals: final(gc)@.refusals,
                ..old(gc)@
            })
        },
{
}

/// The same for the end of a flush: an outcome that cannot be delivered leaves
/// no trace.
pub proof fn lemma_flush_end_whatever_lies_ahead(
    gc: &mut GroupCommitCoordinator,
    epoch: u64,
    outcome: Result<(), Error>,
    result: Result<(), Error>,
)
    requires
        call_ensures(GroupCommitCoordinator::finish_flush, (gc, epoch, outcome), result),
    ensures
        result is Ok <==> can_acquire(old(gc)@, old(gc)@.refusals.finish_flush),
        result matches Err(error) ==> is_refused(
            old(gc)@,
            final(gc)@,
            LockSite::FinishFlush,
            error@,
        ),
        result is Ok ==> {
            &&& attempted_at(old(gc)@.refusals, final(gc)@.refusals, LockSite::FinishFlush)
            &&& finishes_epoch(
                old(gc)@,
                final(gc)@,
                epoch,
                match outcome {
                    Ok(_) => None,
                    Err(error) => Some(message_of(error@)),
                },
            )
        },
{
    lemma_finishes_epoch(
        old(gc)@.acquired(LockSite::FinishFlush),
        epoch,
        match outcome {
            Ok(_) => None,
            Err(error) => Some(message_of(error@)),
        },
    );
}

/// The same for the readings of the coordinator, which change nothing else.
pub proof fn lemma_readings_whatever_lies_ahead(
    gc: &mut GroupCommitCoordinator,
    size: Result<usize, Error>,
    other: &mut GroupCommitCoordinator,
    flushed: Result<u64, Error>,
)
    requires
        call_ensures(GroupCommitCoordinator::current_batch_size, (gc,), size),
        call_ensures(GroupCommitCoordinator::flushed_epoch, (other,), flushed),
    ensures
        size is Ok <==> can_acquire(old(gc)@, old(gc)@.refusals.batch_size),
        size matches Ok(n) ==> n == old(gc)@.batch_size && attempted_at(
            old(gc)@.refusals,
            final(gc)@.refusals,
            LockSite::BatchSize,
        ),
        size matches Err(error) ==> is_refused(
            old(gc)@,
            final(gc)@,
            LockSite::BatchSize,
            error@,
        ),
        final(gc)@ == (GroupCommitView { refusals: final(gc)@.refusals, ..old(gc)@ }),
        flushed is Ok <==> can_acquire(old(other)@, old(other)@.refusals.frontier),
        flushed matches Ok(epoch) ==> epoch == old(other)@.flushed_epoch && attempted_at(
            old(other)@.refusals,
            final(other)@.refusals,
            LockSite::Frontier,
        ),
        flushed matches Err(error) ==> is_refused(
            old(other)@,
            final(other)@,
            LockSite::Frontier,
            error@,
        ),
        final(other)@ == (GroupCommitView { refusals: final(other)@.refusals, ..old(other)@ }),
{
}

/// Whether `after` is `before` once `epoch` was finished, with `error` or without
/// one: the frontier moves over every finished epoch that follows without a gap,
/// and the error is kept under the number of the epoch.
pub open spec fn finishes_epoch(
    before: GroupCommitView,
    after: GroupCommitView,
    epoch: u64,
    error: Option<Seq<char>>,
) -> bool {
    &&& before.flushed_epoch <= after.flushed_epoch
    &&& forall|e: u64|
        before.flushed_epoch < e <= after.flushed_epoch ==> e == epoch
            || #[trigger] before.completed.contains(e)
    &&& after.flushed_epoch < u64::MAX ==> {
        let next = (after.flushed_epoch + 1) as u64;
        next != epoch && !before.completed.contains(next)
    }
    &&& forall|e: u64|
        e > after.flushed_epoch ==> (#[trigger] after.completed.contains(e) <==> e == epoch
            || before.completed.contains(e))
    &&& error is None ==> after.errors == before.errors
    &&& error matches Some(text) ==> after.errors == before.errors.push((epoch, text))
    &&& after == (GroupCommitView {
        flushed_epoch: after.flushed_epoch,
        completed: after.completed,
        errors: after.errors,
        refusals: after.refusals,
        ..before
    })
}

/// Finishing an epoch finishes it.
pub proof fn lemma_finishes_epoch(gc: GroupCommitView, epoch: u64, error: Option<Seq<char>>)
    ensures
        finishes_epoch(gc, gc.finished(epoch, error), epoch, error),
{
    let completed = gc.completed.insert(epoch);
    let after = gc.finished(epoch, error);
    lemma_frontier(gc.flushed_epoch, completed);
    assert forall|e: u64| gc.flushed_epoch < e <= after.flushed_epoch implies e == epoch
        || #[trigger] gc.completed.contains(e) by {
        assert(completed.contains(e));
    }
}

/// A finished epoch moves the frontier over itself and every finished epoch
/// that follows without a gap, and not further. Its error, if there is one, is
/// kept under its number; no other epoch gets it.
pub proof fn lemma_finish_moves_the_frontier(
    gc: &mut GroupCommitCoordinator,
    epoch: u64,
    outcome: Result<(), Error>,
    result: Result<(), Error>,
)
    requires
        is_free(*old(gc)),
        call_ensures(GroupCommitCoordinator::finish_flush, (gc, epoch, outcome), result),
    ensures
        result is Ok,
        old(gc)@.flushed_epoch <= final(gc)@.flushed_epoch,
        forall|e: u64|
            old(gc)@.flushed_epoch < e <= final(gc)@.flushed_epoch ==> e == epoch
                || #[trigger] old(gc)@.completed.contains(e),
        final(gc)@.flushed_epoch < u64::MAX ==> {
            let next = (final(gc)@.flushed_epoch + 1) as u64;
            next != epoch && !old(gc)@.completed.contains(next)
        },
        forall|e: u64|
            e > final(gc)@.flushed_epoch ==> (#[trigger] final(gc)@.completed.contains(e) <==> e
                == epoch || old(gc)@.completed.contains(e)),
        outcome is Ok ==> final(gc)@.errors == old(gc)@.errors,
        outcome matches Err(error) ==> final(gc)@.errors == old(gc)@.errors.push(
            (epoch, message_of(error@)),
        ),
        final(gc)@.current_epoch == old(gc)@.current_epoch,
        final(gc)@.batch_size == old(gc)@.batch_size,
        final(gc)@.config == old(gc)@.config,
        is_free(*final(gc)),
{
    let completed = old(gc)@.completed.insert(epoch);
    lemma_frontier(old(gc)@.flushed_epoch, completed);
    assert forall|e: u64|
        old(gc)@.flushed_epoch < e <= final(gc)@.flushed_epoch implies e == epoch
        || #[trigger] old(gc)@.completed.contains(e) by {
        assert(completed.contains(e));
    }
}

/// A waiter is told nothing while its epoch is not flushed and there is time
/// left. Once it is flushed, the waiter is told of success if no error was
/// recorded for that very epoch, and else of the first one that was.
pub proof fn lemma_waiter_is_told_of_its_own_epoch(
    gc: GroupCommitCoordinator,
    epoch: u64,
    waited_ms: u64,
    answer: Option<Result<(), Error>>,
    i: int,
)
    requires
        call_ensures(GroupCommitCoordinator::wait_for_flush, (&gc, epoch, waited_ms), answer),
    ensures
        ({
            let bound_ms = gc@.config.acquire_timeout_ms;
            &&& epoch > gc@.flushed_epoch && (bound_ms == 0 || waited_ms < bound_ms)
                ==> answer is None
            &&& epoch > gc@.flushed_epoch && bound_ms != 0 && waited_ms >= bound_ms ==> (answer
                matches Some(Err(error)) && error@ == ErrorView::Wal(
                "Group commit wait for epoch "@ + decimal(epoch as nat) + " timed out after "@
                    + decimal(waited_ms as nat) + " ms"@,
            ))
        }),
        epoch <= gc@.flushed_epoch && (forall|k: int|
            0 <= k < gc@.errors.len() ==> (#[trigger] gc@.errors[k]).0 != epoch) ==> answer
            matches Some(Ok(_)),
        epoch <= gc@.flushed_epoch && 0 <= i < gc@.errors.len() && gc@.errors[i].0 == epoch && (
        forall|k: int| 0 <= k < i ==> (#[trigger] gc@.errors[k]).0 != epoch) ==> (answer
            matches Some(Err(error)) && error@ == ErrorView::Other(gc@.errors[i].1)),
{
    let errors = gc@.errors;
    if forall|k: int| 0 <= k < errors.len() ==> (#[trigger] errors[k]).0 != epoch {
        lemma_no_error(errors, epoch);
    }
    if 0 <= i < errors.len() && errors[i].0 == epoch && (forall|k: int|
        0 <= k < i ==> (#[trigger] errors[k]).0 != epoch) {
        let front = errors.take(i);
        assert forall|k: int| 0 <= k < front.len() implies (#[trigger] front[k]).0 != epoch by {
            assert(front[k] == errors[k]);
        }
        lemma_no_error(front, epoch);
        assert(errors.take(i + 1).drop_last() =~= front);
        assert(errors.take(i + 1).last() == errors[i]);
        lemma_first_error_stays(errors, epoch, i + 1);
    }
}

proof fn lemma_no_error(errors: Seq<(u64, Seq<char>)>, epoch: u64)
    requires
        forall|k: int| 0 <= k < errors.len() ==> (#[trigger] errors[k]).0 != epoch,
    ensures
        error_for(errors, epoch) is None,
    decreases errors.len(),
{
    if errors.len() > 0 {
        let init = errors.drop_last();
        assert forall|k: int| 0 <= k < init.len() implies (#[trigger] init[k]).0 != epoch by {
            assert(init[k] == errors[k]);
        }
        lemma_no_error(init, epoch);
        assert(errors[errors.len() - 1].0 != epoch);
    }
}

/// A transaction whose epoch was flushed as the next one in line is told how
/// that flush went: of success after a success, and of the error after an
/// error.
pub proof fn lemma_registered_transaction_learns_its_outcome(
    gc: &mut GroupCommitCoordinator,
    outcome: Result<(), Error>,
    result: Result<(), Error>,
    epoch: u64,
    waited_ms: u64,
    answer: Option<Result<(), Error>>,
)
    requires
        is_free(*old(gc)),
        old(gc)@.flushed_epoch < u64::MAX,
        epoch == old(gc)@.flushed_epoch + 1,
        forall|k: int| 0 <= k < old(gc)@.errors.len() ==> (#[trigger] old(gc)@.errors[k]).0
            != epoch,
        call_ensures(GroupCommitCoordinator::finish_flush, (gc, epoch, outcome), result),
        call_ensures(
            GroupCommitCoordinator::wait_for_flush,
            (&*final(gc), epoch, waited_ms),
            answer,
        ),
    ensures
        outcome is Ok ==> answer matches Some(Ok(_)),
        outcome matches Err(cause) ==> (answer matches Some(Err(error)) && error@
            == ErrorView::Other(message_of(cause@))),
{
    lemma_finish_moves_the_frontier(gc, epoch, outcome, result);
    let after = *final(gc);
    let n = old(gc)@.errors.len() as int;
    assert(after@.flushed_epoch >= epoch) by {
        assert(old(gc)@.completed.insert(epoch).contains(epoch));
        reveal_with_fuel(frontier, 2);
        lemma_frontier((old(gc)@.flushed_epoch + 1) as u64, old(gc)@.completed.insert(epoch));
    }
    assert forall|k: int| 0 <= k < n implies (#[trigger] after@.errors[k]).0 != epoch by {
        assert(after@.errors[k] == old(gc)@.errors[k]);
    }
    lemma_waiter_is_told_of_its_own_epoch(after, epoch, waited_ms, answer, n);
}

/// What the coordinator tells of itself: the size of the open batch and the
/// frontier, without changing either.
pub proof fn lemma_coordinator_reports(
    gc: &mut GroupCommitCoordinator,
    size: Result<usize, Error>,
    same: &mut GroupCommitCoordinator,
    flushed: Result<u64, Error>,
)
    requires
        is_free(*old(gc)),
        *old(same) == *old(gc),
        call_ensures(GroupCommitCoordinator::current_batch_size, (gc,), size),
        call_ensures(GroupCommitCoordinator::flushed_epoch, (same,), flushed),
    ensures
        size == Ok::<usize, Error>(old(gc)@.batch_size),
        flushed == Ok::<u64, Error>(old(gc)@.flushed_epoch),
        final(gc)@ == old(gc)@,
        final(same)@ == old(gc)@,
{
}

/// A refusal that lies ahead comes once, at its place and after the given
/// number of acquisitions there, and changes nothing else: whoever meets it
/// gets an error, and the transaction, the epoch or the outcome stays where it
/// was.
pub proof fn lemma_refusal_changes_nothing(
    gc: &mut GroupCommitCoordinator,
    register: Result<(u64, bool), Error>,
    start: &mut GroupCommitCoordinator,
    started: Result<u64, Error>,
    finish: &mut GroupCommitCoordinator,
    epoch: u64,
    outcome: Result<(), Error>,
    finished: Result<(), Error>,
)
    requires
        !old(gc)@.poisoned,
        old(gc)@.refusals.register == Some(0u64),
        !old(start)@.poisoned,
        old(start)@.refusals.start_flush == Some(0u64),
        !old(finish)@.poisoned,
        old(finish)@.refusals.finish_flush == Some(0u64),
        call_ensures(GroupCommitCoordinator::register_transaction, (gc,), register),
        call_ensures(GroupCommitCoordinator::start_flush, (start,), started),
        call_ensures(GroupCommitCoordinator::finish_flush, (finish, epoch, outcome), finished),
    ensures
        register is Err,
        started is Err,
        finished is Err,
        final(gc)@.refusals.register is None,
        final(start)@.refusals.start_flush is None,
        final(finish)@.refusals.finish_flush is None,
        final(gc)@.batch_size == old(gc)@.batch_size,
        final(gc)@.current_epoch == old(gc)@.current_epoch,
        final(start)@.current_epoch == old(start)@.current_epoch,
        final(start)@.batch_size == old(start)@.batch_size,
        final(finish)@.flushed_epoch == old(finish)@.flushed_epoch,
        final(finish)@.completed == old(finish)@.completed,
        final(finish)@.errors == old(finish)@.errors,
{
}

/// On a poisoned state every call fails, for ever, and says why.
pub proof fn lemma_poison_is_final(
    gc: &mut GroupCommitCoordinator,
    broken: &mut GroupCommitCoordinator,
    result: Result<(u64, bool), Error>,
)
    requires
        call_ensures(GroupCommitCoordinator::poison, (gc,), ()),
        *old(broken) == *final(gc),
        call_ensures(GroupCommitCoordinator::register_transaction, (broken,), result),
    ensures
        result matches Err(error) && error@ is LockPoisoned,
        final(broken)@ == final(gc)@,
        final(gc)@.poisoned,
        final(gc)@.flushed_epoch == old(gc)@.flushed_epoch,
        final(gc)@.errors == old(gc)@.errors,
{
}

/// A refusal that comes next is one that comes after no acquisition.
pub proof fn lemma_next_refusal_comes_at_once(
    gc: &mut GroupCommitCoordinator,
    site: LockSite,
    later: &mut GroupCommitCoordinator,
)
    requires
        *old(later) == *old(gc),
        call_ensures(GroupCommitCoordinator::refuse_next, (gc, site), ()),
        call_ensures(GroupCommitCoordinator::refuse_after, (later, site, 0), ()),
    ensures
        final(gc)@ == final(later)@,
{
}

/// A refusal is set for its own place only.
pub proof fn lemma_refusal_is_set_for_its_place(
    gc: &mut GroupCommitCoordinator,
    site: LockSite,
    passes: u64,
)
    requires
        is_free(*old(gc)),
        call_ensures(GroupCommitCoordinator::refuse_after, (gc, site, passes), ()),
    ensures
        final(gc)@.refusals.register == if site == LockSite::Register {
            Some(passes)
        } else {
            None
        },
        final(gc)@.refusals.start_flush == if site == LockSite::StartFlush {
            Some(passes)
        } else {
            None
        },
        final(gc)@.refusals.finish_flush == if site == LockSite::FinishFlush {
            Some(passes)
        } else {
            None
        },
        final(gc)@.refusals.batch_size == if site == LockSite::BatchSize {
            Some(passes)
        } else {
            None
        },
        final(gc)@.refusals.frontier == if site == LockSite::Frontier {
            Some(passes)
        } else {
            None
        },
        final(gc)@.batch_size == old(gc)@.batch_size,
        final(gc)@.flushed_epoch == old(gc)@.flushed_epoch,
        final(gc)@.current_epoch == old(gc)@.current_epoch,
{
}

} // verus!
