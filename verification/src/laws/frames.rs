//! How a whole transaction gets into the log.

use vstd::prelude::*;

use crate::concurrent::{
    batch_attempted, batch_encoded, batch_started, batch_starting, batch_waited_on, fresh_batch,
    lemma_no_holes_are_made, no_holes, room_in, stripe_of, AppendDrainer, BatchTurn, BatchView,
    BatchWait, BlockedBatch, WalView,
};
use crate::concurrent_system::{
    committed, frame_goes_on, frame_started, CommitTurn, ConcurrentWalSystem, FrameTurn,
    FrameWait, SystemView,
};
use crate::entry::PendingEntry;
use crate::error::Error;
use crate::laws::batches::{
    appends_batch, lemma_batch_attempted, lemma_batch_started, lemma_batch_waited_on,
    retries_batch, waits_batch,
};
use crate::laws::commits::{commits, lemma_committed};
use crate::laws::transactions::{is_framed, lemma_is_framed};
use crate::lsn::LSN;
use crate::operation::{EntryCodec, VersionId, WalOperation};
use crate::transaction::{frame_of, log_operations_to_wal, WriteTransaction};

verus! {

broadcast use crate::power::lemma_wrap_near;

/// Whether `turn` tells how `commit` went, for a transaction whose first LSN is
/// `base`.
pub open spec fn tells_commit(turn: FrameTurn, commit: CommitTurn, base: Option<LSN>) -> bool {
    match commit {
        CommitTurn::Done(Ok(epoch)) => turn matches FrameTurn::Done(Ok((first, at))) && first
            == base && at == epoch,
        CommitTurn::Done(Err(error)) => turn matches FrameTurn::Done(Err(told)) && told == error,
        CommitTurn::Flush(request) => turn matches FrameTurn::Flush { base_lsn, request: asked }
            && base_lsn == base && asked == request,
    }
}

/// Whether the transaction whose entries came to `placed`, in a system that is
/// `before` otherwise, goes on as `turn` and `after` tell: once all of it is
/// placed it is committed, with nothing in between; while it waits for room the
/// modes with epochs keep others out; and if it fails it commits nothing.
pub open spec fn frame_follows(
    before: SystemView,
    after: SystemView,
    turn: FrameTurn,
    placed: BatchTurn,
) -> bool {
    let free = SystemView { membership_held: false, ..before };
    match placed {
        BatchTurn::Refused(error) => {
            &&& turn matches FrameTurn::Done(Err(told))
            &&& told == error
            &&& after == free
        },
        BatchTurn::Blocked(blocked) => {
            &&& turn matches FrameTurn::Blocked(waiting)
            &&& waiting == blocked
            &&& after == (SystemView {
                membership_held: before.mode is GroupCommit || before.mode is AsyncBatched,
                ..before
            })
        },
        BatchTurn::Placed { lsns, handles } => exists|commit: CommitTurn|
            {
                &&& #[trigger] commits(free, after, commit)
                &&& tells_commit(
                    turn,
                    commit,
                    if lsns@.len() > 0 {
                        Some(lsns@[0])
                    } else {
                        None
                    },
                )
            },
    }
}

proof fn lemma_frame_goes_on(
    before: SystemView,
    after: SystemView,
    turn: FrameTurn,
    placed: BatchTurn,
)
    requires
        no_holes(before.wal.stripes),
        before.group_commit is Some <==> before.mode is GroupCommit || before.mode is AsyncBatched,
        frame_goes_on(before, after, turn, placed),
    ensures
        frame_follows(before, after, turn, placed),
{
    let free = SystemView { membership_held: false, ..before };
    if let BatchTurn::Placed { lsns, handles } = placed {
        let base = if lsns@.len() > 0 {
            Some(lsns@[0])
        } else {
            None
        };
        let commit = choose|commit: CommitTurn| #[trigger]
            committed(free, after, commit) && match commit {
                CommitTurn::Done(Ok(epoch)) => turn == FrameTurn::Done(Ok((base, epoch))),
                CommitTurn::Done(Err(error)) => turn == FrameTurn::Done(Err(error)),
                CommitTurn::Flush(request) => turn == (FrameTurn::Flush {
                    base_lsn: base,
                    request,
                }),
            };
        lemma_committed(free, after, commit);
        assert(commits(free, after, commit));
        assert(tells_commit(turn, commit, base));
    }
}

/// Placing entries leaves no holes behind.
proof fn lemma_attempt_leaves_no_holes(
    before: WalView,
    after: WalView,
    turn: BatchTurn,
    diagnostic: Option<String>,
    batch: BatchView,
    now: u64,
)
    requires
        no_holes(before.stripes),
        0 <= batch.stripe < before.stripes.len(),
        batch_attempted(before, after, turn, diagnostic, batch, now),
    ensures
        no_holes(after.stripes),
{
    let room = room_in(before.stripes[batch.stripe]);
    let n = if batch.rest.len() <= room {
        batch.rest.len()
    } else {
        room
    };
    lemma_no_holes_are_made(before.stripes, batch.stripe, batch.rest.take(n as int));
}

proof fn lemma_start_leaves_no_holes<E, S>(
    before: WalView,
    after: WalView,
    turn: BatchTurn,
    operations: Seq<WalOperation>,
    codec: EntryCodec<E, S>,
    stripe: int,
    drainer: AppendDrainer,
    waiter: bool,
) where E: Fn(&WalOperation) -> usize, S: Fn(LSN, &WalOperation) -> Result<Vec<u8>, Error>
    requires
        no_holes(before.stripes),
        0 <= stripe < before.stripes.len(),
        batch_started(before, after, turn, operations, codec, stripe, drainer, waiter),
    ensures
        no_holes(after.stripes),
{
    let first = LSN(before.next_lsn);
    let tickets = before.tickets(waiter);
    let bound_ms = before.config.max_append_block_ms;
    if exists|entries: Seq<PendingEntry>| #[trigger]
        batch_encoded(codec, first, operations, tickets, entries) && batch_attempted(
            batch_starting(before, entries, waiter),
            after,
            turn,
            None,
            fresh_batch(entries, stripe, drainer, bound_ms, waiter),
            0,
        ) {
        let entries = choose|entries: Seq<PendingEntry>| #[trigger]
            batch_encoded(codec, first, operations, tickets, entries) && batch_attempted(
                batch_starting(before, entries, waiter),
                after,
                turn,
                None,
                fresh_batch(entries, stripe, drainer, bound_ms, waiter),
                0,
            );
        lemma_attempt_leaves_no_holes(
            batch_starting(before, entries, waiter),
            after,
            turn,
            None,
            fresh_batch(entries, stripe, drainer, bound_ms, waiter),
            0,
        );
    }
}

/// Whether `turn` and `after` are what the first attempt to log `operations` as
/// one transaction may make of `before`. In a mode with epochs nobody else gets
/// in between the append of a transaction and its commit.
pub open spec fn logs_frame<E, S>(
    before: SystemView,
    after: SystemView,
    turn: FrameTurn,
    operations: Seq<WalOperation>,
    codec: EntryCodec<E, S>,
    hash: u64,
) -> bool where
    E: Fn(&WalOperation) -> usize,
    S: Fn(LSN, &WalOperation) -> Result<Vec<u8>, Error>,
 {
    if before.membership_held && (before.mode is GroupCommit || before.mode is AsyncBatched) {
        &&& turn matches FrameTurn::Busy(back)
        &&& back@ == operations
        &&& after == before
    } else {
        exists|wal: WalView, placed: BatchTurn|
            {
                &&& #[trigger] appends_batch(
                    before.wal,
                    wal,
                    placed,
                    operations,
                    codec,
                    hash,
                    before.wal.async_drainer,
                    false,
                )
                &&& frame_follows(SystemView { wal, ..before }, after, turn, placed)
            }
    }
}

proof fn lemma_frame_started<E, S>(
    system: ConcurrentWalSystem,
    after: SystemView,
    turn: FrameTurn,
    operations: Vec<WalOperation>,
    codec: EntryCodec<E, S>,
    hash: u64,
) where E: Fn(&WalOperation) -> usize, S: Fn(LSN, &WalOperation) -> Result<Vec<u8>, Error>
    requires
        system.wf(),
        system@.wal.next_lsn + operations@.len() <= u64::MAX,
        system@.wal.next_ticket + operations@.len() <= u64::MAX,
        frame_started(
            system@,
            after,
            turn,
            operations,
            codec,
            stripe_of(hash, system@.wal.stripes.len()),
        ),
    ensures
        logs_frame(system@, after, turn, operations@, codec, hash),
{
    system.lemma_epochs();
    let before = system@;
    let stripe = stripe_of(hash, before.wal.stripes.len());
    assert(0 <= stripe < before.wal.stripes.len()) by (nonlinear_arith)
        requires
            stripe == hash as int % before.wal.stripes.len() as int,
            before.wal.stripes.len() > 0,
    ;
    if !(before.group_commit is Some && before.membership_held) {
        let drainer = before.wal.async_drainer;
        let (wal, placed) = choose|wal: WalView, placed: BatchTurn| #[trigger]
            batch_started(
                before.wal,
                wal,
                placed,
                operations@,
                codec,
                stripe,
                drainer,
                false,
            ) && frame_goes_on(SystemView { wal, ..before }, after, turn, placed);
        lemma_batch_started(
            before.wal,
            wal,
            placed,
            operations@,
            codec,
            hash,
            drainer,
            false,
        );
        lemma_start_leaves_no_holes(
            before.wal,
            wal,
            placed,
            operations@,
            codec,
            stripe,
            drainer,
            false,
        );
        lemma_frame_goes_on(SystemView { wal, ..before }, after, turn, placed);
        assert(appends_batch(
            before.wal,
            wal,
            placed,
            operations@,
            codec,
            hash,
            drainer,
            false,
        ));
    }
}

/// A batch that is appended and committed as one step is placed as any other
/// batch is, and committed as the mode asks with nothing in between. Its first
/// LSN is handed out with the outcome of the commit.
pub proof fn lemma_batch_is_committed_in_one_step<E, S>(
    system: &mut ConcurrentWalSystem,
    operations: Vec<WalOperation>,
    codec: &EntryCodec<E, S>,
    hash: u64,
    turn: FrameTurn,
) where E: Fn(&WalOperation) -> usize, S: Fn(LSN, &WalOperation) -> Result<Vec<u8>, Error>
    requires
        old(system).wf(),
        old(system)@.wal.next_lsn + operations@.len() <= u64::MAX,
        old(system)@.wal.next_ticket + operations@.len() <= u64::MAX,
        call_ensures(
            ConcurrentWalSystem::append_batch_and_commit::<E, S>,
            (system, operations, codec, hash),
            turn,
        ),
    ensures
        logs_frame(old(system)@, final(system)@, turn, operations@, *codec, hash),
{
    lemma_frame_started(*old(system), final(system)@, turn, operations, *codec, hash);
}

/// A transaction without writes is committed and nothing is logged of it. Any
/// other is logged as the frame that holds its writes, in one step with its
/// commit.
pub proof fn lemma_transaction_is_logged_as_its_frame<E, S>(
    system: &mut ConcurrentWalSystem,
    tx: &WriteTransaction,
    commit_timestamp: i64,
    ids: &Vec<VersionId>,
    codec: &EntryCodec<E, S>,
    hash: u64,
    turn: FrameTurn,
) where E: Fn(&WalOperation) -> usize, S: Fn(LSN, &WalOperation) -> Result<Vec<u8>, Error>
    requires
        old(system).wf(),
        old(system)@.wal.next_lsn + tx.buffer@.len() + 2 <= u64::MAX,
        old(system)@.wal.next_ticket + tx.buffer@.len() + 2 <= u64::MAX,
        call_ensures(
            log_operations_to_wal::<E, S>,
            (system, tx, commit_timestamp, ids, codec, hash),
            turn,
        ),
    ensures
        tx.buffer@.len() == 0 ==> exists|commit: CommitTurn| #[trigger]
            commits(old(system)@, final(system)@, commit) && tells_commit(turn, commit, None),
        tx.buffer@.len() > 0 ==> exists|frame: Seq<WalOperation>| #[trigger]
            is_framed(frame, *tx, commit_timestamp, ids@) && logs_frame(
                old(system)@,
                final(system)@,
                turn,
                frame,
                *codec,
                hash,
            ),
{
    let before = old(system)@;
    let after = final(system)@;
    old(system).lemma_epochs();
    if tx.buffer@.len() == 0 {
        let commit = choose|commit: CommitTurn| #[trigger]
            committed(before, after, commit) && match commit {
                CommitTurn::Done(Ok(epoch)) => turn == FrameTurn::Done(Ok((None, epoch))),
                CommitTurn::Done(Err(error)) => turn == FrameTurn::Done(Err(error)),
                CommitTurn::Flush(request) => turn == (FrameTurn::Flush {
                    base_lsn: None,
                    request,
                }),
            };
        lemma_committed(before, after, commit);
        assert(commits(before, after, commit) && tells_commit(turn, commit, None));
    } else {
        let frame = choose|frame: Vec<WalOperation>|
            frame@ == frame_of(tx.tx_id, tx.buffer@, ids@, commit_timestamp)
                && #[trigger] frame_started(
                before,
                after,
                turn,
                frame,
                *codec,
                stripe_of(hash, before.wal.stripes.len()),
            );
        lemma_is_framed(frame@, *tx, commit_timestamp, ids@);
        lemma_frame_started(*old(system), after, turn, frame, *codec, hash);
        assert(is_framed(frame@, *tx, commit_timestamp, ids@));
    }
}

/// A transaction that waits for room tries again to place the rest, and is
/// committed in one step with the last of it.
pub proof fn lemma_blocked_transaction_goes_on(
    system: &mut ConcurrentWalSystem,
    batch: BlockedBatch,
    now: u64,
    result: (FrameTurn, Option<String>),
)
    requires
        old(system).wf(),
        0 <= batch@.stripe < old(system)@.wal.stripes.len(),
        call_ensures(ConcurrentWalSystem::frame_retry, (system, batch, now), result),
    ensures
        exists|wal: WalView, placed: BatchTurn|
            {
                &&& #[trigger] retries_batch(
                    old(system)@.wal,
                    wal,
                    placed,
                    result.1,
                    batch@,
                    now,
                )
                &&& frame_follows(
                    SystemView { wal, ..old(system)@ },
                    final(system)@,
                    result.0,
                    placed,
                )
            },
{
    let before = old(system)@;
    old(system).lemma_epochs();
    let (wal, placed) = choose|wal: WalView, placed: BatchTurn| #[trigger]
        batch_attempted(before.wal, wal, placed, result.1, batch@, now) && frame_goes_on(
            SystemView { wal, ..before },
            final(system)@,
            result.0,
            placed,
        );
    lemma_batch_attempted(before.wal, wal, placed, result.1, batch@, now);
    lemma_attempt_leaves_no_holes(before.wal, wal, placed, result.1, batch@, now);
    lemma_frame_goes_on(SystemView { wal, ..before }, final(system)@, result.0, placed);
    assert(retries_batch(before.wal, wal, placed, result.1, batch@, now));
}

/// A transaction that waits for room waits as any batch does. One that gives up
/// lets others in again; until then they are kept out as before.
pub proof fn lemma_blocked_transaction_waits(
    system: &mut ConcurrentWalSystem,
    batch: BlockedBatch,
    now: u64,
    wait: FrameWait,
)
    requires
        call_ensures(ConcurrentWalSystem::frame_blocked, (system, batch, now), wait),
    ensures
        exists|waited: BatchWait|
            {
                &&& #[trigger] waits_batch(
                    old(system)@.wal,
                    final(system)@.wal,
                    waited,
                    batch@,
                    now,
                )
                &&& match waited {
                    BatchWait::Refused(error) => wait matches FrameWait::Refused(told) && told
                        == error && !final(system)@.membership_held,
                    BatchWait::Spin { blocked } => wait matches FrameWait::Spin { blocked: b }
                        && b == blocked && final(system)@.membership_held
                        == old(system)@.membership_held,
                    BatchWait::Nap { blocked, nap_ns } => wait matches FrameWait::Nap {
                        blocked: b,
                        nap_ns: ns,
                    } && b == blocked && ns == nap_ns && final(system)@.membership_held
                        == old(system)@.membership_held,
                }
            },
        final(system)@ == (SystemView {
            wal: final(system)@.wal,
            membership_held: final(system)@.membership_held,
            ..old(system)@
        }),
{
    let before = old(system)@;
    let after = final(system)@;
    let (wal, waited) = choose|wal: WalView, waited: BatchWait| #[trigger]
        batch_waited_on(before.wal, wal, waited, batch@, now) && match waited {
            BatchWait::Refused(error) => wait == FrameWait::Refused(error) && after == (
            SystemView { wal, membership_held: false, ..before }),
            BatchWait::Spin { blocked } => wait == (FrameWait::Spin { blocked }) && after == (
            SystemView { wal, ..before }),
            BatchWait::Nap { blocked, nap_ns } => wait == (FrameWait::Nap { blocked, nap_ns })
                && after == (SystemView { wal, ..before }),
        };
    lemma_batch_waited_on(before.wal, wal, waited, batch@, now);
    assert(waits_batch(before.wal, after.wal, waited, batch@, now));
}

} // verus!
