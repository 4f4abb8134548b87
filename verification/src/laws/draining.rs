//! What leaves the buffers for the disk, and what comes of it.

use vstd::prelude::*;

use crate::completion::{CompletionHandle, CompletionView};
use crate::concurrent::{
    all_drained, lemma_all_pending_is_ready, lemma_drain_leaves_nothing_behind,
    no_holes, pending_total, ready_of_all, ConcurrentWal, WalView,
};
use crate::concurrent_system::{
    is_request, ConcurrentWalSystem, FlushRequest, FlushStats, SystemView,
};
use crate::entry::PendingEntry;
use crate::error::Error;
use crate::laws::waiters::{lemma_settles, settles};
use crate::lsn::LSN;
use crate::ring_buffer::{lemma_ready_stops_at_hole, RingView};
use crate::sort::{is_stable_sort, lemma_sort_is_a_permutation, lemma_sort_keeps_entries};

verus! {

broadcast use crate::power::lemma_wrap_near;

/// How many entries are buffered in `stripes`.
pub open spec fn buffered(stripes: Seq<RingView>) -> nat
    decreases stripes.len(),
{
    if stripes.len() == 0 {
        0
    } else {
        buffered(stripes.drop_last()) + stripes.last().pending.len()
    }
}

/// Whether `entry` is buffered in one of `stripes`.
pub open spec fn is_buffered(entry: PendingEntry, stripes: Seq<RingView>) -> bool {
    exists|k: int, i: int|
        #![trigger stripes[k].pending[i]]
        0 <= k < stripes.len() && 0 <= i < stripes[k].pending.len() && stripes[k].pending[i]
            == Some(entry)
}

/// Whether `entries` is all that is buffered in `stripes`, in LSN order.
pub open spec fn takes_everything(entries: Seq<PendingEntry>, stripes: Seq<RingView>) -> bool {
    &&& forall|i: int, j: int|
        #![trigger entries[i], entries[j]]
        0 <= i <= j < entries.len() ==> entries[i].lsn.0 <= entries[j].lsn.0
    &&& forall|entry: PendingEntry|
        #![trigger entries.contains(entry)]
        #![trigger is_buffered(entry, stripes)]
        entries.contains(entry) <==> is_buffered(entry, stripes)
    &&& entries.len() == buffered(stripes)
}

/// Whether `after` is `before` with nothing left in any stripe.
pub open spec fn emptied(before: Seq<RingView>, after: Seq<RingView>) -> bool {
    &&& after.len() == before.len()
    &&& forall|k: int|
        #![trigger after[k]]
        #![trigger before[k]]
        0 <= k < before.len() ==> {
            &&& after[k].pending.len() == 0
            &&& after[k].capacity == before[k].capacity
            &&& after[k].closed == before[k].closed
            &&& after[k].read_pos as int == (before[k].read_pos + before[k].pending.len())
                % 0x1_0000_0000_0000_0000
        }
}

/// Whether `request` is all that is buffered in `before`, and `after` is
/// `before` without that.
pub open spec fn flushes_everything(
    before: WalView,
    after: WalView,
    request: Option<FlushRequest>,
    sync: bool,
) -> bool {
    &&& match request {
        Some(r) => r.sync == sync && 0 < buffered(before.stripes) && takes_everything(
            r.entries@,
            before.stripes,
        ),
        None => buffered(before.stripes) == 0,
    }
    &&& emptied(before.stripes, after.stripes)
    &&& after == (WalView { stripes: after.stripes, ..before })
}

/// All that is buffered is pending.
pub proof fn lemma_buffered_is_pending(stripes: Seq<RingView>)
    ensures
        buffered(stripes) == pending_total(stripes),
    decreases stripes.len(),
{
    if stripes.len() > 0 {
        lemma_buffered_is_pending(stripes.drop_last());
    }
}

proof fn lemma_ready_is_buffered(stripes: Seq<RingView>, entry: PendingEntry)
    requires
        ready_of_all(stripes).contains(entry),
    ensures
        is_buffered(entry, stripes),
    decreases stripes.len(),
{
    let front = stripes.drop_last();
    let ready = ready_of_all(stripes);
    let n = ready_of_all(front).len();
    let at = choose|at: int| 0 <= at < ready.len() && ready[at] == entry;
    if at < n {
        assert(ready_of_all(front)[at] == entry);
        assert(ready_of_all(front).contains(entry));
        lemma_ready_is_buffered(front, entry);
        let (k, i) = choose|k: int, i: int|
            #![trigger front[k].pending[i]]
            0 <= k < front.len() && 0 <= i < front[k].pending.len() && front[k].pending[i]
                == Some(entry);
        assert(stripes[k].pending[i] == Some(entry));
    } else {
        let ring = stripes.last();
        lemma_ready_stops_at_hole(ring);
        assert(ring.ready()[at - n] == entry);
        assert(stripes[stripes.len() - 1].pending[at - n] == Some(entry));
    }
}

/// A drain of stripes without holes takes everything out of them.
pub proof fn lemma_drain_takes_everything(entries: Seq<PendingEntry>, stripes: Seq<RingView>)
    requires
        no_holes(stripes),
        is_stable_sort(entries, ready_of_all(stripes)),
    ensures
        takes_everything(entries, stripes),
        emptied(stripes, all_drained(stripes)),
{
    lemma_all_pending_is_ready(stripes);
    lemma_buffered_is_pending(stripes);
    assert forall|entry: PendingEntry|
        #![trigger entries.contains(entry)]
        #![trigger is_buffered(entry, stripes)]
        entries.contains(entry) <==> is_buffered(entry, stripes) by {
        lemma_sort_keeps_entries(entries, ready_of_all(stripes), entry);
        if entries.contains(entry) {
            lemma_ready_is_buffered(stripes, entry);
        }
        if is_buffered(entry, stripes) {
            let (k, i) = choose|k: int, i: int|
                #![trigger stripes[k].pending[i]]
                0 <= k < stripes.len() && 0 <= i < stripes[k].pending.len()
                    && stripes[k].pending[i] == Some(entry);
            lemma_drain_leaves_nothing_behind(stripes, entries, k, i);
        }
    }
    let after = all_drained(stripes);
    assert forall|k: int|
        #![trigger after[k]]
        #![trigger stripes[k]]
        0 <= k < stripes.len() implies {
        &&& after[k].pending.len() == 0
        &&& after[k].capacity == stripes[k].capacity
        &&& after[k].closed == stripes[k].closed
        &&& after[k].read_pos as int == (stripes[k].read_pos + stripes[k].pending.len())
            % 0x1_0000_0000_0000_0000
    } by {
        assert(stripes[k].ready().len() == stripes[k].pending.len());
        reveal(crate::power::wrap);
    }
}

/// The same for a flush, which comes with a request unless there is nothing to
/// be written.
pub proof fn lemma_request_takes_everything(
    before: WalView,
    after: WalView,
    request: Option<FlushRequest>,
    sync: bool,
)
    requires
        no_holes(before.stripes),
        is_request(request, before.stripes, sync),
        after == (WalView { stripes: all_drained(before.stripes), ..before }),
    ensures
        flushes_everything(before, after, request, sync),
{
    match request {
        Some(r) => {
            lemma_drain_takes_everything(r.entries@, before.stripes);
            lemma_all_pending_is_ready(before.stripes);
            lemma_buffered_is_pending(before.stripes);
        },
        None => {
            let none = Seq::<PendingEntry>::empty();
            assert(ready_of_all(before.stripes) =~= none);
            assert(is_stable_sort(none, ready_of_all(before.stripes)));
            lemma_drain_takes_everything(none, before.stripes);
        },
    }
}

/// A drain of the whole log hands out all that is buffered, in LSN order, and
/// leaves nothing behind.
pub proof fn lemma_log_is_drained(wal: &mut ConcurrentWal, entries: Vec<PendingEntry>)
    requires
        old(wal).wf(),
        call_ensures(ConcurrentWal::drain_all, (wal,), entries),
    ensures
        takes_everything(entries@, old(wal)@.stripes),
        entries@.to_multiset().len() == buffered(old(wal)@.stripes),
        emptied(old(wal)@.stripes, final(wal)@.stripes),
        final(wal)@ == (WalView { stripes: final(wal)@.stripes, ..old(wal)@ }),
{
    old(wal).lemma_stripes();
    lemma_drain_takes_everything(entries@, old(wal)@.stripes);
    lemma_sort_is_a_permutation(entries@, ready_of_all(old(wal)@.stripes));
    entries@.to_multiset_ensures();
}

/// A flush takes all that is buffered, in every mode; it is synced in every
/// mode but the async one.
pub proof fn lemma_flush_takes_everything(
    system: &mut ConcurrentWalSystem,
    request: Option<FlushRequest>,
)
    requires
        old(system).wf(),
        call_ensures(ConcurrentWalSystem::flush, (system,), request),
    ensures
        flushes_everything(
            old(system)@.wal,
            final(system)@.wal,
            request,
            !(old(system)@.mode is Async),
        ),
        final(system)@ == (SystemView { wal: final(system)@.wal, ..old(system)@ }),
{
    old(system).lemma_epochs();
    lemma_request_takes_everything(
        old(system)@.wal,
        final(system)@.wal,
        request,
        !(old(system)@.mode is Async),
    );
}

/// A flush on behalf of a synchronous append takes all that is buffered, and is
/// synced whatever the mode.
pub proof fn lemma_synchronous_flush_takes_everything(
    system: &mut ConcurrentWalSystem,
    request: Option<FlushRequest>,
)
    requires
        old(system).wf(),
        call_ensures(ConcurrentWalSystem::flush_now, (system,), request),
    ensures
        flushes_everything(old(system)@.wal, final(system)@.wal, request, true),
        final(system)@ == (SystemView { wal: final(system)@.wal, ..old(system)@ }),
{
    old(system).lemma_epochs();
    lemma_request_takes_everything(old(system)@.wal, final(system)@.wal, request, true);
}

/// Whether `after` is `before` once the writing of `entries` went as `written`
/// tells: their waiters know, and entries that were written are counted.
pub open spec fn writes_are_settled(
    before: SystemView,
    after: SystemView,
    entries: Seq<PendingEntry>,
    written: bool,
) -> bool {
    &&& settles(before.wal.completions, after.wal.completions, entries, written)
    &&& written && before.total_flushed + entries.len() <= u64::MAX ==> after.total_flushed
        == before.total_flushed + entries.len()
    &&& !written ==> after.total_flushed == before.total_flushed
    &&& after == (SystemView {
        wal: WalView { completions: after.wal.completions, ..before.wal },
        total_flushed: after.total_flushed,
        ..before
    })
}

/// Taking in how a write went settles it.
pub proof fn lemma_writes_are_settled(
    before: SystemView,
    entries: Seq<PendingEntry>,
    written: bool,
)
    ensures
        writes_are_settled(before, before.settled(entries, written), entries, written),
{
    lemma_settles(before.wal.completions, entries);
}

/// Once a flush was written, the waiters of its entries are told, its entries
/// are counted, and the result says how many there were. If it failed, its
/// waiters are told that, nothing is counted, and the error is handed on.
pub proof fn lemma_flush_outcome_is_reported(
    system: &mut ConcurrentWalSystem,
    request: FlushRequest,
    written: Result<(), Error>,
    result: Result<FlushStats, Error>,
)
    requires
        call_ensures(ConcurrentWalSystem::settle_flush, (system, request, written), result),
    ensures
        writes_are_settled(old(system)@, final(system)@, request.entries@, written is Ok),
        written is Ok ==> (result matches Ok(stats) && stats.entries_flushed
            == request.entries@.len()),
        written matches Err(error) ==> result == Err::<FlushStats, Error>(error),
{
    lemma_writes_are_settled(old(system)@, request.entries@, written is Ok);
    assert(request.entries.len() == request.entries@.len());
}

/// A commit that had to flush ends without an epoch, or with the error of the
/// write.
pub proof fn lemma_commit_outcome_is_reported(
    system: &mut ConcurrentWalSystem,
    request: FlushRequest,
    written: Result<(), Error>,
    result: Result<Option<u64>, Error>,
)
    requires
        call_ensures(ConcurrentWalSystem::finish_commit, (system, request, written), result),
    ensures
        writes_are_settled(old(system)@, final(system)@, request.entries@, written is Ok),
        written is Ok ==> (result matches Ok(epoch) && epoch is None),
        written matches Err(error) ==> result == Err::<Option<u64>, Error>(error),
{
    lemma_writes_are_settled(old(system)@, request.entries@, written is Ok);
}

/// A transaction that had to flush ends with its first LSN and without an
/// epoch, or with the error of the write.
pub proof fn lemma_frame_outcome_is_reported(
    system: &mut ConcurrentWalSystem,
    base_lsn: Option<LSN>,
    request: FlushRequest,
    written: Result<(), Error>,
    result: Result<(Option<LSN>, Option<u64>), Error>,
)
    requires
        call_ensures(
            ConcurrentWalSystem::finish_frame,
            (system, base_lsn, request, written),
            result,
        ),
    ensures
        writes_are_settled(old(system)@, final(system)@, request.entries@, written is Ok),
        written is Ok ==> (result matches Ok((base, epoch)) && base == base_lsn && epoch is None),
        written matches Err(error) ==> (result matches Err(told) && told == error),
{
    lemma_writes_are_settled(old(system)@, request.entries@, written is Ok);
}

/// A synchronous append whose flush failed has failed, with that error, and
/// nobody waits for it any more. One whose flush succeeded goes on to its wait.
pub proof fn lemma_sync_append_outcome_is_reported(
    system: &mut ConcurrentWalSystem,
    handle: CompletionHandle,
    request: FlushRequest,
    written: Result<(), Error>,
    result: Result<(), Error>,
)
    requires
        call_ensures(
            ConcurrentWalSystem::finish_sync_append,
            (system, handle, request, written),
            result,
        ),
    ensures
        result is Ok <==> written is Ok,
        written matches Err(error) ==> (result matches Err(told) && told == error),
        written is Ok ==> writes_are_settled(
            old(system)@,
            final(system)@,
            request.entries@,
            true,
        ),
        written is Err ==> !final(system)@.wal.completions.contains_key(handle.0),
        written is Err ==> exists|board: Map<u64, CompletionView>|
            {
                &&& #[trigger] settles(
                    old(system)@.wal.completions,
                    board,
                    request.entries@,
                    false,
                )
                &&& final(system)@ == (SystemView {
                    wal: WalView { completions: board.remove(handle.0), ..old(system)@.wal },
                    ..old(system)@
                })
            },
{
    lemma_writes_are_settled(old(system)@, request.entries@, written is Ok);
    if written is Err {
        let board = old(system)@.settled(request.entries@, false).wal.completions;
        assert(settles(old(system)@.wal.completions, board, request.entries@, false));
    }
}

} // verus!
