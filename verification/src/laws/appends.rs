//! How one operation gets into the log.

use vstd::prelude::*;

use crate::backpressure::{default_backpressure, fresh_spins, spin_budget};
use crate::completion::{CompletionHandle, CompletionState, CompletionView};
use crate::concurrent::{
    append_started, attempted, entry_at, starting, stripe_of, without, AppendDrainer, AppendTurn,
    BlockedView, ConcurrentWal, WalView,
};
use crate::concurrent_system::{ConcurrentWalSystem, SystemView};
use crate::deadline::{fresh_deadline, DeadlineView};
use crate::entry::PendingEntry;
use crate::error::{Error, ErrorView};
use crate::lsn::LSN;
use crate::operation::{EntryCodec, WalOperation};

verus! {

broadcast use crate::power::lemma_wrap_near;

/// Whether `operation` is not too large for the log, and `data` is what the
/// serializer makes of it at `lsn`.
pub open spec fn is_serialized<E, S>(
    codec: EntryCodec<E, S>,
    lsn: LSN,
    operation: WalOperation,
    data: Vec<u8>,
) -> bool where
    E: Fn(&WalOperation) -> usize,
    S: Fn(LSN, &WalOperation) -> Result<Vec<u8>, Error>,
 {
    &&& exists|size: usize| #[trigger]
        call_ensures(codec.estimate, (&operation,), size) && size <= codec.limit
    &&& call_ensures(codec.serialize, (lsn, &operation), Ok::<Vec<u8>, Error>(data))
}

/// Whether `operation` is too large for the log, or the serializer fails on it
/// at `lsn`, and `error` says so.
pub open spec fn is_unserializable<E, S>(
    codec: EntryCodec<E, S>,
    lsn: LSN,
    operation: WalOperation,
    error: Error,
) -> bool where
    E: Fn(&WalOperation) -> usize,
    S: Fn(LSN, &WalOperation) -> Result<Vec<u8>, Error>,
 {
    ||| exists|size: usize| #[trigger]
        call_ensures(codec.estimate, (&operation,), size) && size > codec.limit && error@ == (
        ErrorView::Capacity { resource: "WAL entry size"@, current: size, limit: codec.limit })
    ||| {
        &&& exists|size: usize| #[trigger]
            call_ensures(codec.estimate, (&operation,), size) && size <= codec.limit
        &&& call_ensures(codec.serialize, (lsn, &operation), Err::<Vec<u8>, Error>(error))
    }
}

/// An entry is refused if it is estimated above the limit, and otherwise is
/// what the serializer makes of it.
pub proof fn lemma_entries_are_serialized<E, S>(
    codec: &EntryCodec<E, S>,
    lsn: LSN,
    operation: &WalOperation,
    encoded: Result<Vec<u8>, Error>,
) where E: Fn(&WalOperation) -> usize, S: Fn(LSN, &WalOperation) -> Result<Vec<u8>, Error>
    requires
        call_ensures(EntryCodec::<E, S>::serialize_entry, (codec, lsn, operation), encoded),
    ensures
        encoded matches Ok(data) ==> is_serialized(*codec, lsn, *operation, data),
        encoded matches Err(error) ==> is_unserializable(*codec, lsn, *operation, error),
{
}

/// Whether `after` is `before` with `entry` behind all that is in its stripe.
pub open spec fn gains_entry(
    before: WalView,
    after: WalView,
    stripe: int,
    entry: PendingEntry,
) -> bool {
    let ring = before.stripes[stripe];
    &&& !ring.closed
    &&& ring.pending.len() < ring.capacity
    &&& after.stripes.len() == before.stripes.len()
    &&& after.stripes[stripe].pending == ring.pending.push(Some(entry))
    &&& after.stripes[stripe].capacity == ring.capacity
    &&& after.stripes[stripe].read_pos == ring.read_pos
    &&& !after.stripes[stripe].closed
    &&& forall|k: int|
        0 <= k < before.stripes.len() && k != stripe ==> #[trigger] after.stripes[k]
            == before.stripes[k]
    &&& before.total_appends < u64::MAX ==> after.total_appends == before.total_appends + 1
    &&& before.total_appends == u64::MAX ==> after.total_appends == 0
}

/// Whether `before` and `after` hold the same entries.
pub open spec fn same_entries(before: WalView, after: WalView) -> bool {
    after.stripes == before.stripes && after.total_appends == before.total_appends
}

/// Whether `after` is `before` with the next LSN taken, and nothing else
/// changed but what appends change.
pub open spec fn takes_an_lsn(before: WalView, after: WalView) -> bool {
    &&& before.next_lsn < u64::MAX ==> after.next_lsn == before.next_lsn + 1
    &&& before.next_lsn == u64::MAX ==> after.next_lsn == 0
    &&& after == (WalView {
        next_lsn: after.next_lsn,
        stripes: after.stripes,
        total_appends: after.total_appends,
        active_batches: after.active_batches,
        completions: after.completions,
        next_ticket: after.next_ticket,
        ..before
    })
}

/// Whether `after` is `before` with one more waiter, if `waiter` says so.
pub open spec fn gains_waiter(before: WalView, after: WalView, waiter: bool) -> bool {
    if waiter {
        &&& after.completions == before.completions.insert(
            before.next_ticket,
            CompletionView { state: CompletionState::Pending, error: None },
        )
        &&& before.next_ticket < u64::MAX ==> after.next_ticket == before.next_ticket + 1
        &&& before.next_ticket == u64::MAX ==> after.next_ticket == 0
    } else {
        after.completions == before.completions && after.next_ticket == before.next_ticket
    }
}

/// Whether `after` is `before` without a waiter for what was just appended.
pub open spec fn drops_waiter(before: WalView, after: WalView, waiter: bool) -> bool {
    if waiter {
        &&& after.completions == before.completions.remove(before.next_ticket)
        &&& before.next_ticket < u64::MAX ==> after.next_ticket == before.next_ticket + 1
        &&& before.next_ticket == u64::MAX ==> after.next_ticket == 0
    } else {
        after.completions == before.completions && after.next_ticket == before.next_ticket
    }
}

/// The handle of the waiter that comes next.
pub open spec fn next_handle(wal: WalView, waiter: bool) -> Option<CompletionHandle> {
    if waiter {
        Some(CompletionHandle(wal.next_ticket))
    } else {
        None
    }
}

/// Whether `turn` and `after` are what the first attempt of an append may make
/// of `before`.
pub open spec fn appends_one<E, S>(
    before: WalView,
    after: WalView,
    turn: AppendTurn,
    operation: WalOperation,
    codec: EntryCodec<E, S>,
    hash: u64,
    drainer: AppendDrainer,
    waiter: bool,
) -> bool where
    E: Fn(&WalOperation) -> usize,
    S: Fn(LSN, &WalOperation) -> Result<Vec<u8>, Error>,
 {
    let stripe = hash as int % before.stripes.len() as int;
    let ring = before.stripes[stripe];
    match turn {
        AppendTurn::Placed { lsn, handle } => {
            &&& !before.shutdown_requested
            &&& lsn.0 == before.next_lsn
            &&& handle == next_handle(before, waiter)
            &&& exists|data: Vec<u8>| #[trigger]
                is_serialized(codec, lsn, operation, data) && gains_entry(
                    before,
                    after,
                    stripe,
                    PendingEntry { lsn, data, completion: handle },
                )
            &&& takes_an_lsn(before, after)
            &&& gains_waiter(before, after, waiter)
            &&& after.active_batches == before.active_batches
        },
        AppendTurn::Blocked(blocked) => {
            &&& !before.shutdown_requested
            &&& !ring.closed
            &&& ring.pending.len() >= ring.capacity
            &&& blocked@.entry.lsn.0 == before.next_lsn
            &&& is_serialized(codec, blocked@.entry.lsn, operation, blocked@.entry.data)
            &&& blocked@.entry.completion == next_handle(before, waiter)
            &&& blocked@.stripe == stripe
            &&& blocked@.drainer == drainer
            &&& blocked@.deadline == (DeadlineView {
                bound_ms: if before.config.max_append_block_ms == 0 {
                    None
                } else {
                    Some(before.config.max_append_block_ms)
                },
                armed: None,
                arms: 0,
            })
            &&& blocked@.spins == 2270
            &&& blocked@.sleep_us == 1
            &&& takes_an_lsn(before, after)
            &&& same_entries(before, after)
            &&& gains_waiter(before, after, waiter)
            &&& before.active_batches < usize::MAX ==> after.active_batches
                == before.active_batches + 1
        },
        AppendTurn::Refused(error) => if before.shutdown_requested {
            error@ == ErrorView::Wal("WAL is shutting down"@) && after == before
        } else {
            &&& takes_an_lsn(before, after)
            &&& same_entries(before, after)
            &&& after.active_batches == before.active_batches
            &&& {
                ||| {
                    &&& is_unserializable(codec, LSN(before.next_lsn), operation, error)
                    &&& after.completions == before.completions
                    &&& after.next_ticket == before.next_ticket
                }
                ||| {
                    &&& ring.closed
                    &&& error@ == ErrorView::Wal("WAL buffer closed"@)
                    &&& drops_waiter(before, after, waiter)
                }
            }
        },
    }
}

proof fn lemma_spins_of_a_new_writer()
    ensures
        spin_budget(10, 1000) == 2270,
{
    reveal_with_fuel(spin_budget, 9);
}

/// What is placed, and who waits, when the batch is a single entry.
proof fn lemma_one_entry(before: WalView, stripe: int, lsn: LSN, data: Vec<u8>, waiter: bool)
    ensures
        ({
            let entry = entry_at(lsn, data, before.tickets(waiter), 0);
            let registered = before.completions.insert(
                before.next_ticket,
                CompletionView { state: CompletionState::Pending, error: None },
            );
            &&& entry == (PendingEntry { lsn, data, completion: next_handle(before, waiter) })
            &&& before.stripes[stripe].pending + seq![entry].map_values(
                |e: PendingEntry| Some(e),
            ) == before.stripes[stripe].pending.push(Some(entry))
            &&& waiter ==> without(registered, seq![entry]) == before.completions.remove(
                before.next_ticket,
            )
            &&& !waiter ==> without(before.completions, seq![entry]) == before.completions
        }),
{
    let entry = entry_at(lsn, data, before.tickets(waiter), 0);
    reveal_with_fuel(without, 2);
    assert(seq![entry].map_values(|e: PendingEntry| Some(e)) =~= seq![Some(entry)]);
    assert(seq![entry].drop_last() =~= Seq::<PendingEntry>::empty());
    assert(before.stripes[stripe].pending + seq![Some(entry)]
        =~= before.stripes[stripe].pending.push(Some(entry)));
    assert(before.completions.insert(
        before.next_ticket,
        CompletionView { state: CompletionState::Pending, error: None },
    ).remove(before.next_ticket) =~= before.completions.remove(before.next_ticket));
}

/// What the contract of an append says.
proof fn lemma_append_started<E, S>(
    before: WalView,
    after: WalView,
    turn: AppendTurn,
    operation: WalOperation,
    codec: EntryCodec<E, S>,
    hash: u64,
    drainer: AppendDrainer,
    waiter: bool,
) where E: Fn(&WalOperation) -> usize, S: Fn(LSN, &WalOperation) -> Result<Vec<u8>, Error>
    requires
        before.stripes.len() > 0,
        append_started(
            before,
            after,
            turn,
            operation,
            codec,
            stripe_of(hash, before.stripes.len()),
            drainer,
            waiter,
        ),
    ensures
        appends_one(before, after, turn, operation, codec, hash, drainer, waiter),
{
    lemma_spins_of_a_new_writer();
    let lsn = LSN(before.next_lsn);
    let stripe = hash as int % before.stripes.len() as int;
    assert(0 <= stripe < before.stripes.len()) by (nonlinear_arith)
        requires
            stripe == hash as int % before.stripes.len() as int,
            before.stripes.len() > 0,
    ;
    if !before.shutdown_requested {
        let encoded = choose|encoded: Result<Vec<u8>, Error>| #[trigger]
            codec.encodes(lsn, operation, encoded) && match encoded {
                Err(error) => turn == AppendTurn::Refused(error) && after == before.reserved(1),
                Ok(data) => attempted(
                    starting(before, waiter),
                    after,
                    turn,
                    BlockedView {
                        entry: entry_at(lsn, data, before.tickets(waiter), 0),
                        stripe,
                        drainer,
                        deadline: fresh_deadline(
                            before.config.max_append_block_ms,
                        ),
                        spins: fresh_spins(
                            default_backpressure(),
                        ),
                        sleep_us: default_backpressure().base_sleep_us,
                    },
                ),
            };
        match encoded {
            Err(error) => {
                assert(is_unserializable(codec, lsn, operation, error));
            },
            Ok(data) => {
                assert(is_serialized(codec, lsn, operation, data));
                lemma_one_entry(before, stripe, lsn, data, waiter);
            },
        }
    }
}

/// An append that nobody waits for goes behind all that is in the stripe of
/// its thread, at the next LSN, if there is room; it waits if there is none, and
/// is refused if the log shuts down or the operation cannot be serialized.
pub proof fn lemma_append_takes_the_next_lsn<E, S>(
    wal: &mut ConcurrentWal,
    operation: WalOperation,
    codec: &EntryCodec<E, S>,
    hash: u64,
    turn: AppendTurn,
) where E: Fn(&WalOperation) -> usize, S: Fn(LSN, &WalOperation) -> Result<Vec<u8>, Error>
    requires
        old(wal).wf(),
        call_ensures(ConcurrentWal::append_async::<E, S>, (wal, operation, codec, hash), turn),
    ensures
        appends_one(
            old(wal)@,
            final(wal)@,
            turn,
            operation,
            *codec,
            hash,
            old(wal)@.async_drainer,
            false,
        ),
{
    old(wal).lemma_stripes();
    lemma_append_started(
        old(wal)@,
        final(wal)@,
        turn,
        operation,
        *codec,
        hash,
        old(wal)@.async_drainer,
        false,
    );
}

/// The same for an append with a handle, which gets a waiter of its own. Its
/// caller is the one who drains.
pub proof fn lemma_append_with_handle_gets_a_waiter<E, S>(
    wal: &mut ConcurrentWal,
    operation: WalOperation,
    codec: &EntryCodec<E, S>,
    hash: u64,
    turn: AppendTurn,
) where E: Fn(&WalOperation) -> usize, S: Fn(LSN, &WalOperation) -> Result<Vec<u8>, Error>
    requires
        old(wal).wf(),
        call_ensures(
            ConcurrentWal::append_with_handle::<E, S>,
            (wal, operation, codec, hash),
            turn,
        ),
    ensures
        appends_one(
            old(wal)@,
            final(wal)@,
            turn,
            operation,
            *codec,
            hash,
            AppendDrainer::CallingThread,
            true,
        ),
{
    old(wal).lemma_stripes();
    lemma_append_started(
        old(wal)@,
        final(wal)@,
        turn,
        operation,
        *codec,
        hash,
        AppendDrainer::CallingThread,
        true,
    );
}

/// The system appends as its mode asks: in the synchronous mode with a waiter,
/// drained by the caller, and in every other mode without one.
pub proof fn lemma_system_appends_as_the_mode_asks<E, S>(
    system: &mut ConcurrentWalSystem,
    operation: WalOperation,
    codec: &EntryCodec<E, S>,
    hash: u64,
    turn: AppendTurn,
) where E: Fn(&WalOperation) -> usize, S: Fn(LSN, &WalOperation) -> Result<Vec<u8>, Error>
    requires
        old(system).wf(),
        call_ensures(
            ConcurrentWalSystem::append::<E, S>,
            (system, operation, codec, hash),
            turn,
        ),
    ensures
        old(system)@.mode is Synchronous ==> appends_one(
            old(system)@.wal,
            final(system)@.wal,
            turn,
            operation,
            *codec,
            hash,
            AppendDrainer::CallingThread,
            true,
        ),
        old(system)@.mode !is Synchronous ==> appends_one(
            old(system)@.wal,
            final(system)@.wal,
            turn,
            operation,
            *codec,
            hash,
            old(system)@.wal.async_drainer,
            false,
        ),
        final(system)@ == (SystemView { wal: final(system)@.wal, ..old(system)@ }),
{
    old(system).lemma_epochs();
    if old(system)@.mode is Synchronous {
        lemma_append_started(
            old(system)@.wal,
            final(system)@.wal,
            turn,
            operation,
            *codec,
            hash,
            AppendDrainer::CallingThread,
            true,
        );
    } else {
        lemma_append_started(
            old(system)@.wal,
            final(system)@.wal,
            turn,
            operation,
            *codec,
            hash,
            old(system)@.wal.async_drainer,
            false,
        );
    }
}

/// An explicit choice between the two overrides the mode.
pub proof fn lemma_system_appends_as_told<E, S>(
    system: &mut ConcurrentWalSystem,
    waiting: &mut ConcurrentWalSystem,
    operation: WalOperation,
    codec: &EntryCodec<E, S>,
    hash: u64,
    turn: AppendTurn,
    sync_turn: AppendTurn,
) where E: Fn(&WalOperation) -> usize, S: Fn(LSN, &WalOperation) -> Result<Vec<u8>, Error>
    requires
        old(system).wf(),
        old(waiting).wf(),
        call_ensures(
            ConcurrentWalSystem::append_async::<E, S>,
            (system, operation, codec, hash),
            turn,
        ),
        call_ensures(
            ConcurrentWalSystem::append_sync::<E, S>,
            (waiting, operation, codec, hash),
            sync_turn,
        ),
    ensures
        appends_one(
            old(system)@.wal,
            final(system)@.wal,
            turn,
            operation,
            *codec,
            hash,
            old(system)@.wal.async_drainer,
            false,
        ),
        final(system)@ == (SystemView { wal: final(system)@.wal, ..old(system)@ }),
        appends_one(
            old(waiting)@.wal,
            final(waiting)@.wal,
            sync_turn,
            operation,
            *codec,
            hash,
            AppendDrainer::CallingThread,
            true,
        ),
        final(waiting)@ == (SystemView { wal: final(waiting)@.wal, ..old(waiting)@ }),
{
    old(system).lemma_epochs();
    old(waiting).lemma_epochs();
    lemma_append_started(
        old(system)@.wal,
        final(system)@.wal,
        turn,
        operation,
        *codec,
        hash,
        old(system)@.wal.async_drainer,
        false,
    );
    lemma_append_started(
        old(waiting)@.wal,
        final(waiting)@.wal,
        sync_turn,
        operation,
        *codec,
        hash,
        AppendDrainer::CallingThread,
        true,
    );
}

/// Whether `result` and `after` are what an append that never waits for room may
/// make of `before`.
pub open spec fn appends_without_waiting<E, S>(
    before: WalView,
    after: WalView,
    result: Result<(LSN, CompletionHandle), Error>,
    operation: WalOperation,
    codec: EntryCodec<E, S>,
    hash: u64,
) -> bool where
    E: Fn(&WalOperation) -> usize,
    S: Fn(LSN, &WalOperation) -> Result<Vec<u8>, Error>,
 {
    let stripe = hash as int % before.stripes.len() as int;
    let ring = before.stripes[stripe];
    match result {
        Ok((lsn, handle)) => {
            &&& !before.shutdown_requested
            &&& lsn.0 == before.next_lsn
            &&& handle.0 == before.next_ticket
            &&& exists|data: Vec<u8>| #[trigger]
                is_serialized(codec, lsn, operation, data) && gains_entry(
                    before,
                    after,
                    stripe,
                    PendingEntry { lsn, data, completion: Some(handle) },
                )
            &&& takes_an_lsn(before, after)
            &&& gains_waiter(before, after, true)
            &&& before.active_batches < usize::MAX ==> after.active_batches
                == before.active_batches + 1
        },
        Err(error) => if before.shutdown_requested {
            error@ == ErrorView::Wal("WAL is shutting down"@) && after == before
        } else {
            &&& takes_an_lsn(before, after)
            &&& same_entries(before, after)
            &&& after.active_batches == before.active_batches
            &&& {
                ||| {
                    &&& is_unserializable(codec, LSN(before.next_lsn), operation, error)
                    &&& after.completions == before.completions
                    &&& after.next_ticket == before.next_ticket
                }
                ||| {
                    &&& ring.closed || ring.pending.len() >= ring.capacity
                    &&& error@ == ErrorView::Wal("WAL buffer full - backpressure"@)
                    &&& drops_waiter(before, after, true)
                }
            }
        },
    }
}

/// An append that never waits for room is placed as any other if there is
/// some, and stays in flight until its wait is over; without room it is refused
/// and nobody waits for it.
pub proof fn lemma_sync_append_never_waits_for_room<E, S>(
    wal: &mut ConcurrentWal,
    operation: WalOperation,
    codec: &EntryCodec<E, S>,
    hash: u64,
    result: Result<(LSN, CompletionHandle), Error>,
) where E: Fn(&WalOperation) -> usize, S: Fn(LSN, &WalOperation) -> Result<Vec<u8>, Error>
    requires
        old(wal).wf(),
        call_ensures(ConcurrentWal::append_sync::<E, S>, (wal, operation, codec, hash), result),
    ensures
        appends_without_waiting(old(wal)@, final(wal)@, result, operation, *codec, hash),
{
    let before = old(wal)@;
    old(wal).lemma_stripes();
    let lsn = LSN(before.next_lsn);
    let stripe = hash as int % before.stripes.len() as int;
    assert(0 <= stripe < before.stripes.len()) by (nonlinear_arith)
        requires
            stripe == hash as int % before.stripes.len() as int,
            before.stripes.len() > 0,
    ;
    if !before.shutdown_requested {
        let after = final(wal)@;
        let ring = before.stripes[stripe];
        let tickets = before.tickets(true);
        let encoded = choose|encoded: Result<Vec<u8>, Error>| #[trigger]
            codec.encodes(lsn, operation, encoded) && match encoded {
                Err(error) => result == Err::<(LSN, CompletionHandle), Error>(error) && after
                    == before.reserved(1),
                Ok(data) => if ring.closed || ring.is_full() {
                    &&& result matches Err(error)
                    &&& error@ == ErrorView::Wal("WAL buffer full - backpressure"@)
                    &&& after == before.reserved(1).registered().forgetting(
                        seq![entry_at(lsn, data, tickets, 0)],
                    )
                } else {
                    &&& result == Ok::<(LSN, CompletionHandle), Error>(
                        (lsn, CompletionHandle(before.next_ticket)),
                    )
                    &&& after == starting(before, true).placed(
                        stripe,
                        seq![entry_at(lsn, data, tickets, 0)],
                    )
                },
            };
        match encoded {
            Err(error) => {
                assert(is_unserializable(*codec, lsn, operation, error));
            },
            Ok(data) => {
                assert(is_serialized(*codec, lsn, operation, data));
                lemma_one_entry(before, stripe, lsn, data, true);
            },
        }
    }
}

} // verus!
