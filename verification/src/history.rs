//! What holds of the log over its whole life.
//!
//! A [`History`] tells what has happened to a log since it was made: the LSNs
//! that it handed out, the entries that were made, and where each of them is
//! now. Every operation of the log carries its history on; the lemmas here say
//! how, and what follows for the log.

use vstd::prelude::*;

use crate::backpressure::{default_backpressure, fresh_spins};
use crate::completion::{seen_on, CompletionHandle, CompletionState, CompletionView};
use crate::concurrent::{
    all_closed, all_drained, all_durable, append_started, attempted, batch_attempted,
    batch_encoded, batch_started, batch_starting, batch_waited_on, entry_at, fresh_batch,
    handles_of, is_fresh, lemma_all_pending_is_ready, lemma_closing_keeps_what_is_pending,
    lemma_drained_stripes_are_empty, lemma_no_holes_appear, lemma_no_holes_are_made,
    lemma_placed_entries_are_drained, lemma_ready_in_one_is_ready_in_all, lsns_of, no_holes,
    pending_total, ready_of_all, room_in, starting, sync_append_started, waited_on, with_all,
    with_waiters, without, without_handles, AppendDrainer, AppendTurn, AppendWait, BatchTurn,
    BatchView, BatchWait, BlockedView, WalView,
};
use crate::deadline::fresh_deadline;
use crate::entry::{
    all_completed, all_discarded, all_failed, lemma_discarding_acknowledges_nobody,
    lemma_failing_acknowledges_nobody, lemma_only_flushed_entries_are_acknowledged, PendingEntry,
};
use crate::error::Error;
use crate::lsn::{lsn_after, LSN};
use crate::operation::{EntryCodec, WalOperation};
use crate::power::{counter_span, wrap};
use crate::ring_buffer::RingView;
use crate::sort::{
    is_stable_sort, lemma_sort_is_a_permutation, lemma_sort_keeps_entries, lemma_with_lsn_add,
    lemma_with_lsn_at, lemma_with_lsn_none, lemma_with_lsn_once, lemma_with_lsn_twice, with_lsn,
};
use crate::wal_config::ConcurrentWalConfig;

verus! {

broadcast use crate::power::lemma_wrap_near;

/// What has happened to a log since it was made.
#[verifier::ext_equal]
pub ghost struct History {
    /// The LSNs that were handed out, in order.
    pub handed: Seq<LSN>,
    /// Whether recovery has raised the next LSN.
    pub raised: bool,
    /// The entries that were made, in order.
    pub made: Seq<PendingEntry>,
    /// The LSNs of the entries that were made and wait for room in a stripe.
    pub held: Set<LSN>,
    /// The entries that were drained, in order.
    pub drained: Seq<PendingEntry>,
}

/// The history of a log that was just made.
pub open spec fn no_history() -> History {
    History {
        handed: Seq::empty(),
        raised: false,
        made: Seq::empty(),
        held: Set::empty(),
        drained: Seq::empty(),
    }
}

/// Whether the handles of `entries` have increasing tickets, all below `next`.
pub open spec fn tickets_in_order(entries: Seq<PendingEntry>, next: u64) -> bool {
    &&& forall|i: int, j: int|
        #![trigger entries[i], entries[j]]
        0 <= i < j < entries.len() && entries[i].completion is Some && entries[j].completion is Some
            ==> (entries[i].completion->0).0 < (entries[j].completion->0).0
    &&& forall|i: int|
        0 <= i < entries.len() && (#[trigger] entries[i]).completion is Some ==> (
        entries[i].completion->0).0 < next
}

/// Whether the LSNs of `entries` increase.
pub open spec fn lsns_increase(entries: Seq<PendingEntry>) -> bool {
    forall|i: int, j: int|
        #![trigger entries[i], entries[j]]
        0 <= i < j < entries.len() ==> entries[i].lsn.0 < entries[j].lsn.0
}

impl History {
    /// In how many places an entry with the given LSN is: in the stripes, among
    /// the drained entries, or in the hands of a writer that waits for room.
    pub open spec fn occurrences(self, stripes: Seq<RingView>, lsn: LSN) -> nat {
        with_lsn(ready_of_all(stripes), lsn).len() + with_lsn(self.drained, lsn).len() + if
            self.held.contains(lsn) {
            1nat
        } else {
            0nat
        }
    }

    /// Whether this is a history of `wal`.
    ///
    /// LSNs were handed out in order, each below the one that comes next, and
    /// without a gap from 1 on unless recovery raised them. Each belongs to at
    /// most one entry, which is in at most one place. Tickets were handed out
    /// in order as well. The count of appends is what was drained and what is
    /// pending.
    pub open spec fn tells(self, wal: WalView) -> bool {
        &&& no_holes(wal.stripes)
        &&& forall|i: int, j: int|
            #![trigger self.handed[i], self.handed[j]]
            0 <= i < j < self.handed.len() ==> self.handed[i].0 < self.handed[j].0
        &&& forall|i: int|
            0 <= i < self.handed.len() ==> (#[trigger] self.handed[i]).0 < wal.next_lsn
        &&& !self.raised ==> wal.next_lsn == self.handed.len() + 1 && forall|i: int|
            0 <= i < self.handed.len() ==> #[trigger] self.handed[i] == LSN((i + 1) as u64)
        &&& forall|lsn: LSN| #[trigger]
            self.occurrences(wal.stripes, lsn) <= if self.handed.contains(lsn) {
                1nat
            } else {
                0nat
            }
        &&& forall|entry: PendingEntry| #[trigger]
            ready_of_all(wal.stripes).contains(entry) ==> self.made.contains(entry)
        &&& forall|entry: PendingEntry| #[trigger]
            self.drained.contains(entry) ==> self.made.contains(entry)
        &&& tickets_in_order(self.made, wal.next_ticket)
        &&& wal.total_appends == wrap(
            (self.drained.len() + pending_total(wal.stripes)) as int,
        )
    }

    /// Whether writers hold all of `entries`, and wait for room for them.
    pub open spec fn holds(self, entries: Seq<PendingEntry>) -> bool {
        &&& lsns_increase(entries)
        &&& forall|i: int|
            0 <= i < entries.len() ==> self.made.contains(#[trigger] entries[i])
                && self.held.contains(entries[i].lsn)
    }

    /// The history after the `count` LSNs from `first` on were handed out.
    pub open spec fn reserving(self, first: u64, count: nat) -> History {
        History {
            handed: self.handed + Seq::new(count, |i: int| lsn_after(LSN(first), i)),
            ..self
        }
    }

    /// The history after `entries` were made.
    pub open spec fn making(self, entries: Seq<PendingEntry>) -> History {
        History {
            made: self.made + entries,
            held: self.held.union(lsns_of(entries).to_set()),
            ..self
        }
    }

    /// The history after `entries` left the hands of their writers: they were
    /// placed, or given up.
    pub open spec fn releasing(self, entries: Seq<PendingEntry>) -> History {
        History { held: self.held.difference(lsns_of(entries).to_set()), ..self }
    }

    /// The history after `entries` were drained.
    pub open spec fn draining(self, entries: Seq<PendingEntry>) -> History {
        History { drained: self.drained + entries, ..self }
    }

    /// The entries that were made since `earlier`.
    pub open spec fn made_since(self, earlier: History) -> Seq<PendingEntry> {
        self.made.skip(earlier.made.len() as int)
    }

    /// Whether `later` is what became of this history: nothing that was told
    /// is taken back.
    pub open spec fn grows_to(self, later: History) -> bool {
        &&& self.handed.is_prefix_of(later.handed)
        &&& self.made.is_prefix_of(later.made)
        &&& self.drained.is_prefix_of(later.drained)
        &&& self.raised ==> later.raised
    }
}

/// A stripe that is replaced changes what is ready in the log by what was and
/// is ready in that stripe.
proof fn lemma_update_counts(stripes: Seq<RingView>, k: int, ring: RingView, lsn: LSN)
    requires
        0 <= k < stripes.len(),
    ensures
        with_lsn(ready_of_all(stripes.update(k, ring)), lsn).len() + with_lsn(
            stripes[k].ready(),
            lsn,
        ).len() == with_lsn(ready_of_all(stripes), lsn).len() + with_lsn(ring.ready(), lsn).len(),
        pending_total(stripes.update(k, ring)) + stripes[k].pending.len() == pending_total(stripes)
            + ring.pending.len(),
    decreases stripes.len(),
{
    let front = stripes.drop_last();
    let later = stripes.update(k, ring);
    lemma_with_lsn_add(ready_of_all(front), stripes.last().ready(), lsn);
    lemma_with_lsn_add(ready_of_all(later.drop_last()), later.last().ready(), lsn);
    if k == stripes.len() - 1 {
        assert(later.drop_last() =~= front);
    } else {
        assert(later.drop_last() =~= front.update(k, ring));
        lemma_update_counts(front, k, ring, lsn);
    }
}

/// What is ready after a stripe was replaced was ready before or is ready in
/// the new stripe.
proof fn lemma_update_contains(stripes: Seq<RingView>, k: int, ring: RingView, entry: PendingEntry)
    requires
        0 <= k < stripes.len(),
        ready_of_all(stripes.update(k, ring)).contains(entry),
    ensures
        ready_of_all(stripes).contains(entry) || ring.ready().contains(entry),
    decreases stripes.len(),
{
    let front = stripes.drop_last();
    let later = stripes.update(k, ring);
    let (a, b) = (ready_of_all(later.drop_last()), later.last().ready());
    let (c, d) = (ready_of_all(front), stripes.last().ready());
    let i = choose|i: int| 0 <= i < (a + b).len() && (a + b)[i] == entry;
    if k == stripes.len() - 1 {
        assert(later.drop_last() =~= front);
        if i < a.len() {
            assert((c + d)[i] == entry);
        } else {
            assert(b[i - a.len()] == entry);
        }
    } else {
        assert(later.drop_last() =~= front.update(k, ring));
        if i < a.len() {
            assert(a[i] == entry);
            lemma_update_contains(front, k, ring, entry);
            if c.contains(entry) {
                let j = choose|j: int| 0 <= j < c.len() && c[j] == entry;
                assert((c + d)[j] == entry);
            }
        } else {
            assert((c + d)[c.len() + (i - a.len())] == entry);
        }
    }
}

/// Counting on a wrapping counter goes by the number of steps.
proof fn lemma_wrap_adds(n: int, more: int)
    requires
        0 <= n,
        0 <= more,
    ensures
        wrap(wrap(n) + more) == wrap(n + more),
{
    reveal(wrap);
    vstd::arithmetic::div_mod::lemma_add_mod_noop(n, more, counter_span());
    vstd::arithmetic::div_mod::lemma_add_mod_noop(n % counter_span(), more, counter_span());
    vstd::arithmetic::div_mod::lemma_mod_twice(n, counter_span());
}

/// A log that was just made has no history yet.
pub proof fn lemma_fresh_log_has_no_history(wal: WalView, config: ConcurrentWalConfig)
    requires
        is_fresh(wal, config),
    ensures
        no_history().tells(wal),
{
    lemma_fresh_stripes_are_empty(wal.stripes);
    assert forall|lsn: LSN| #[trigger] no_history().occurrences(wal.stripes, lsn) <= 0nat by {
        lemma_with_lsn_none(Seq::empty(), lsn);
    }
}

proof fn lemma_fresh_stripes_are_empty(stripes: Seq<RingView>)
    requires
        forall|i: int|
            0 <= i < stripes.len() ==> (#[trigger] stripes[i]).pending == Seq::<
                Option<PendingEntry>,
            >::empty(),
    ensures
        no_holes(stripes),
        pending_total(stripes) == 0,
        ready_of_all(stripes) == Seq::<PendingEntry>::empty(),
    decreases stripes.len(),
{
    if stripes.len() > 0 {
        lemma_fresh_stripes_are_empty(stripes.drop_last());
        assert(stripes[stripes.len() - 1].pending.len() == 0);
        assert(stripes.last().ready() =~= Seq::empty());
        assert(ready_of_all(stripes) =~= Seq::empty());
    }
}

/// Handing out LSNs carries the history on.
pub proof fn lemma_reserving(h: History, wal: WalView, count: nat)
    requires
        h.tells(wal),
        wal.next_lsn + count <= u64::MAX,
    ensures
        h.reserving(wal.next_lsn, count).tells(wal.reserved(count as int)),
{
    let later = h.reserving(wal.next_lsn, count);
    let more = Seq::new(count, |i: int| lsn_after(LSN(wal.next_lsn), i));
    assert forall|lsn: LSN| #[trigger] later.occurrences(wal.stripes, lsn) <= if
        later.handed.contains(lsn) {
        1nat
    } else {
        0nat
    } by {
        assert(later.occurrences(wal.stripes, lsn) == h.occurrences(wal.stripes, lsn));
        if h.handed.contains(lsn) {
            let i = choose|i: int| 0 <= i < h.handed.len() && h.handed[i] == lsn;
            assert(later.handed[i] == lsn);
        }
    }
}

/// Making entries of LSNs that were just handed out carries the history on.
proof fn lemma_making(h: History, wal: WalView, later: WalView, entries: Seq<PendingEntry>)
    requires
        h.tells(wal),
        wal.next_lsn + entries.len() <= u64::MAX,
        forall|i: int|
            0 <= i < entries.len() ==> (#[trigger] entries[i]).lsn == lsn_after(
                LSN(wal.next_lsn),
                i,
            ),
        tickets_in_order(entries, later.next_ticket),
        forall|i: int|
            0 <= i < entries.len() && (#[trigger] entries[i]).completion is Some ==> (
            entries[i].completion->0).0 >= wal.next_ticket,
        later.next_ticket >= wal.next_ticket,
        later.stripes == wal.stripes,
        later.total_appends == wal.total_appends,
        later.next_lsn == wal.next_lsn + entries.len(),
    ensures
        h.reserving(wal.next_lsn, entries.len()).making(entries).tells(later),
        h.reserving(wal.next_lsn, entries.len()).making(entries).holds(entries),
{
    let count = entries.len();
    lemma_reserving(h, wal, count);
    let reserved = h.reserving(wal.next_lsn, count);
    let made = reserved.making(entries);
    let lsns = lsns_of(entries);
    assert forall|lsn: LSN| #[trigger] made.occurrences(wal.stripes, lsn) <= if
        made.handed.contains(lsn) {
        1nat
    } else {
        0nat
    } by {
        assert(reserved.occurrences(wal.stripes, lsn) <= if reserved.handed.contains(lsn) {
            1nat
        } else {
            0nat
        });
        if lsns.to_set().contains(lsn) {
            let i = choose|i: int| 0 <= i < lsns.len() && lsns[i] == lsn;
            assert(lsn == entries[i].lsn);
            assert(made.handed[h.handed.len() + i] == lsn);
            assert(!h.handed.contains(lsn));
            assert(h.occurrences(wal.stripes, lsn) == 0);
        }
    }
    assert forall|entry: PendingEntry| h.made.contains(entry) implies #[trigger] made.made.contains(
        entry,
    ) by {
        let i = choose|i: int| 0 <= i < h.made.len() && h.made[i] == entry;
        assert(made.made[i] == entry);
    }
    assert forall|i: int| 0 <= i < entries.len() implies made.made.contains(#[trigger] entries[i])
        && made.held.contains(entries[i].lsn) by {
        assert(made.made[h.made.len() + i] == entries[i]);
        assert(lsns[i] == entries[i].lsn);
        assert(lsns.contains(entries[i].lsn));
    }
}

/// Giving entries up carries the history on.
proof fn lemma_releasing(h: History, wal: WalView, entries: Seq<PendingEntry>)
    requires
        h.tells(wal),
    ensures
        h.releasing(entries).tells(wal),
{
    let later = h.releasing(entries);
    assert forall|lsn: LSN| #[trigger] later.occurrences(wal.stripes, lsn) <= if
        later.handed.contains(lsn) {
        1nat
    } else {
        0nat
    } by {
        assert(later.occurrences(wal.stripes, lsn) <= h.occurrences(wal.stripes, lsn));
    }
}

/// Placing entries carries the history on.
proof fn lemma_placing(h: History, wal: WalView, stripe: int, entries: Seq<PendingEntry>)
    requires
        h.tells(wal),
        h.holds(entries),
        0 <= stripe < wal.stripes.len(),
    ensures
        h.releasing(entries).tells(wal.placed(stripe, entries)),
{
    let later = h.releasing(entries);
    let ring = with_all(wal.stripes[stripe], entries);
    let placed = wal.stripes.update(stripe, ring);
    let old_ready = wal.stripes[stripe].ready();
    let lsns = lsns_of(entries);
    assert(wal.placed(stripe, entries).stripes == placed);
    assert(wal.stripes[stripe].ready().len() == wal.stripes[stripe].pending.len());
    lemma_no_holes_are_made(wal.stripes, stripe, entries);
    lemma_placed_entries_are_drained(wal.stripes, stripe, entries);
    assert forall|lsn: LSN| #[trigger] later.occurrences(placed, lsn) <= if later.handed.contains(
        lsn,
    ) {
        1nat
    } else {
        0nat
    } by {
        assert(h.occurrences(wal.stripes, lsn) <= if h.handed.contains(lsn) {
            1nat
        } else {
            0nat
        });
        lemma_update_counts(wal.stripes, stripe, ring, lsn);
        lemma_with_lsn_add(old_ready, entries, lsn);
        lemma_with_lsn_once(entries, lsn);
        if exists|i: int| 0 <= i < entries.len() && (#[trigger] entries[i]).lsn == lsn {
            let i = choose|i: int| 0 <= i < entries.len() && (#[trigger] entries[i]).lsn == lsn;
            assert(h.held.contains(entries[i].lsn));
            assert(lsns[i] == lsn);
            assert(lsns.contains(lsn));
        }
    }
    assert forall|entry: PendingEntry| #[trigger]
        ready_of_all(placed).contains(entry) implies later.made.contains(entry) by {
        lemma_update_contains(wal.stripes, stripe, ring, entry);
        if !ready_of_all(wal.stripes).contains(entry) {
            let all = old_ready + entries;
            let i = choose|i: int| 0 <= i < all.len() && all[i] == entry;
            if i < old_ready.len() {
                assert(old_ready[i] == entry);
                lemma_ready_in_one_is_ready_in_all(wal.stripes, stripe, entry);
            } else {
                assert(entries[i - old_ready.len()] == entry);
            }
        }
    }
    lemma_update_counts(wal.stripes, stripe, ring, LSN(0));
    lemma_wrap_adds(
        (h.drained.len() + pending_total(wal.stripes)) as int,
        entries.len() as int,
    );
}

/// Of entries that are held, the first ones can be let go of by themselves.
proof fn lemma_holding_the_rest(h: History, entries: Seq<PendingEntry>, n: int)
    requires
        h.holds(entries),
        0 <= n <= entries.len(),
    ensures
        h.holds(entries.take(n)),
        h.releasing(entries.take(n)).holds(entries.skip(n)),
{
    let front = entries.take(n);
    let back = entries.skip(n);
    assert forall|i: int| 0 <= i < front.len() implies h.made.contains(#[trigger] front[i])
        && h.held.contains(front[i].lsn) by {
        assert(front[i] == entries[i]);
    }
    assert forall|i: int, j: int|
        #![trigger front[i], front[j]]
        0 <= i < j < front.len() implies front[i].lsn.0 < front[j].lsn.0 by {
        assert(front[i] == entries[i] && front[j] == entries[j]);
    }
    let later = h.releasing(front);
    let gone = lsns_of(front);
    assert forall|i: int| 0 <= i < back.len() implies later.made.contains(#[trigger] back[i])
        && later.held.contains(back[i].lsn) by {
        assert(back[i] == entries[n + i]);
        if gone.to_set().contains(back[i].lsn) {
            let j = choose|j: int| 0 <= j < gone.len() && gone[j] == back[i].lsn;
            assert(front[j] == entries[j]);
            assert(entries[j].lsn.0 < entries[n + i].lsn.0);
        }
    }
    assert forall|i: int, j: int|
        #![trigger back[i], back[j]]
        0 <= i < j < back.len() implies back[i].lsn.0 < back[j].lsn.0 by {
        assert(back[i] == entries[n + i] && back[j] == entries[n + j]);
    }
}

/// The first attempt of an append carries the history on: the LSN that it gets
/// is new, and above all that were handed out before.
pub proof fn lemma_append_is_told<E, S>(
    h: History,
    before: WalView,
    after: WalView,
    turn: AppendTurn,
    operation: WalOperation,
    codec: EntryCodec<E, S>,
    stripe: int,
    drainer: AppendDrainer,
    waiter: bool,
) -> (later: History) where
    E: Fn(&WalOperation) -> usize,
    S: Fn(LSN, &WalOperation) -> Result<Vec<u8>, Error>,

    requires
        h.tells(before),
        append_started(before, after, turn, operation, codec, stripe, drainer, waiter),
        0 <= stripe < before.stripes.len(),
        before.next_lsn < u64::MAX,
        before.next_ticket < u64::MAX,
    ensures
        later.tells(after),
        h.grows_to(later),
        later.drained == h.drained,
        later.raised == h.raised,
        later.handed == if before.shutdown_requested {
            h.handed
        } else {
            h.handed.push(LSN(before.next_lsn))
        },
        turn matches AppendTurn::Placed { lsn, handle } ==> lsn == LSN(before.next_lsn),
        turn matches AppendTurn::Blocked(waiting) ==> later.holds(seq![waiting@.entry]),
{
    if before.shutdown_requested {
        h
    } else {
        let lsn = LSN(before.next_lsn);
        let encoded = choose|encoded: Result<Vec<u8>, Error>| #[trigger]
            codec.encodes(lsn, operation, encoded) && match encoded {
                Err(error) => turn == AppendTurn::Refused(error) && after == before.reserved(1),
                Ok(data) => attempted(
                    starting(before, waiter),
                    after,
                    turn,
                    first_attempt(before, lsn, data, stripe, drainer, waiter),
                ),
            };
        lemma_reserving(h, before, 1);
        let reserved = h.reserving(before.next_lsn, 1);
        assert(reserved.handed =~= h.handed.push(lsn));
        match encoded {
            Err(_) => reserved,
            Ok(data) => {
                let blocked = first_attempt(before, lsn, data, stripe, drainer, waiter);
                let entries = seq![blocked.entry];
                lemma_making(h, before, starting(before, waiter), entries);
                let made = reserved.making(entries);
                lemma_attempt_is_told(made, starting(before, waiter), after, turn, blocked)
            },
        }
    }
}

/// What an append of one operation begins with.
spec fn first_attempt(
    before: WalView,
    lsn: LSN,
    data: Vec<u8>,
    stripe: int,
    drainer: AppendDrainer,
    waiter: bool,
) -> BlockedView {
    BlockedView {
        entry: entry_at(lsn, data, before.tickets(waiter), 0),
        stripe,
        drainer,
        deadline: fresh_deadline(before.config.max_append_block_ms),
        spins: fresh_spins(default_backpressure()),
        sleep_us: default_backpressure().base_sleep_us,
    }
}

/// A further attempt of a blocked append carries the history on. It takes no
/// new LSN.
pub proof fn lemma_attempt_is_told(
    h: History,
    before: WalView,
    after: WalView,
    turn: AppendTurn,
    blocked: BlockedView,
) -> (later: History)
    requires
        h.tells(before),
        h.holds(seq![blocked.entry]),
        attempted(before, after, turn, blocked),
        0 <= blocked.stripe < before.stripes.len(),
    ensures
        later.tells(after),
        h.grows_to(later),
        later.handed == h.handed,
        later.drained == h.drained,
        later.raised == h.raised,
        turn matches AppendTurn::Blocked(waiting) ==> later.holds(seq![waiting@.entry]),
{
    let entries = seq![blocked.entry];
    if turn is Blocked {
        h
    } else if turn is Placed {
        lemma_placing(h, before, blocked.stripe, entries);
        h.releasing(entries)
    } else {
        lemma_releasing(h, before, entries);
        h.releasing(entries)
    }
}

/// What a blocked append decides carries the history on.
pub proof fn lemma_wait_is_told(
    h: History,
    before: WalView,
    after: WalView,
    wait: AppendWait,
    blocked: BlockedView,
    now: u64,
) -> (later: History)
    requires
        h.tells(before),
        h.holds(seq![blocked.entry]),
        waited_on(before, after, wait, blocked, now),
    ensures
        later.tells(after),
        h.grows_to(later),
        later.handed == h.handed,
        later.drained == h.drained,
        later.raised == h.raised,
        wait matches AppendWait::Spin { blocked: waiting } ==> later.holds(seq![waiting@.entry]),
        wait matches AppendWait::Nap { blocked: waiting, nap_ns } ==> later.holds(
            seq![waiting@.entry],
        ),
{
    let entries = seq![blocked.entry];
    if wait is Refused {
        lemma_releasing(h, before, entries);
        h.releasing(entries)
    } else {
        h
    }
}

/// An append that does not wait for room carries the history on.
pub proof fn lemma_sync_append_is_told<E, S>(
    h: History,
    before: WalView,
    after: WalView,
    result: Result<(LSN, CompletionHandle), Error>,
    operation: WalOperation,
    codec: EntryCodec<E, S>,
    stripe: int,
) -> (later: History) where
    E: Fn(&WalOperation) -> usize,
    S: Fn(LSN, &WalOperation) -> Result<Vec<u8>, Error>,

    requires
        h.tells(before),
        sync_append_started(before, after, result, operation, codec, stripe),
        0 <= stripe < before.stripes.len(),
        before.next_lsn < u64::MAX,
        before.next_ticket < u64::MAX,
    ensures
        later.tells(after),
        h.grows_to(later),
        later.drained == h.drained,
        later.raised == h.raised,
        later.handed == if before.shutdown_requested {
            h.handed
        } else {
            h.handed.push(LSN(before.next_lsn))
        },
        result matches Ok((lsn, handle)) ==> lsn == LSN(before.next_lsn),
{
    if before.shutdown_requested {
        h
    } else {
        let lsn = LSN(before.next_lsn);
        let ring = before.stripes[stripe];
        let encoded = choose|encoded: Result<Vec<u8>, Error>| #[trigger]
            codec.encodes(lsn, operation, encoded) && match encoded {
                Err(error) => result == Err::<(LSN, CompletionHandle), Error>(error) && after
                    == before.reserved(1),
                Ok(data) => if ring.closed || ring.is_full() {
                    after == before.reserved(1).registered().forgetting(
                        seq![entry_at(lsn, data, before.tickets(true), 0)],
                    )
                } else {
                    after == starting(before, true).placed(
                        stripe,
                        seq![entry_at(lsn, data, before.tickets(true), 0)],
                    )
                },
            };
        lemma_reserving(h, before, 1);
        let reserved = h.reserving(before.next_lsn, 1);
        assert(reserved.handed =~= h.handed.push(lsn));
        match encoded {
            Err(_) => reserved,
            Ok(data) => {
                let entries = seq![entry_at(lsn, data, before.tickets(true), 0)];
                lemma_making(h, before, starting(before, true), entries);
                let made = reserved.making(entries);
                if ring.closed || ring.is_full() {
                    lemma_releasing(made, starting(before, true), entries);
                } else {
                    lemma_placing(made, starting(before, true), stripe, entries);
                }
                made.releasing(entries)
            },
        }
    }
}

/// A further attempt of a blocked batch carries the history on. It takes no
/// new LSN.
pub proof fn lemma_batch_attempt_is_told(
    h: History,
    before: WalView,
    after: WalView,
    turn: BatchTurn,
    diagnostic: Option<String>,
    batch: BatchView,
    now: u64,
) -> (later: History)
    requires
        h.tells(before),
        h.holds(batch.rest),
        batch_attempted(before, after, turn, diagnostic, batch, now),
        0 <= batch.stripe < before.stripes.len(),
    ensures
        later.tells(after),
        h.grows_to(later),
        later.handed == h.handed,
        later.made == h.made,
        later.drained == h.drained,
        later.raised == h.raised,
        turn matches BatchTurn::Blocked(waiting) ==> later.holds(waiting@.rest),
{
    let room = room_in(before.stripes[batch.stripe]);
    let n = if batch.rest.len() <= room {
        batch.rest.len()
    } else {
        room
    };
    let front = batch.rest.take(n as int);
    lemma_holding_the_rest(h, batch.rest, n as int);
    lemma_placing(h, before, batch.stripe, front);
    let placed = h.releasing(front);
    let middle = before.placed(batch.stripe, front);
    assert(batch.rest.skip(0) =~= batch.rest);
    if turn is Refused {
        lemma_releasing(placed, middle, batch.rest);
        placed.releasing(batch.rest)
    } else {
        placed
    }
}

/// What a blocked batch decides carries the history on.
pub proof fn lemma_batch_wait_is_told(
    h: History,
    before: WalView,
    after: WalView,
    wait: BatchWait,
    batch: BatchView,
    now: u64,
) -> (later: History)
    requires
        h.tells(before),
        h.holds(batch.rest),
        batch_waited_on(before, after, wait, batch, now),
    ensures
        later.tells(after),
        h.grows_to(later),
        later.handed == h.handed,
        later.made == h.made,
        later.drained == h.drained,
        later.raised == h.raised,
        wait matches BatchWait::Spin { blocked } ==> later.holds(blocked@.rest),
        wait matches BatchWait::Nap { blocked, nap_ns } ==> later.holds(blocked@.rest),
{
    if wait is Refused {
        lemma_releasing(h, before, batch.rest);
        h.releasing(batch.rest)
    } else {
        h
    }
}

/// The first attempt of a batch carries the history on: its LSNs are new,
/// consecutive, and above all that were handed out before.
pub proof fn lemma_batch_is_told<E, S>(
    h: History,
    before: WalView,
    after: WalView,
    turn: BatchTurn,
    operations: Seq<WalOperation>,
    codec: EntryCodec<E, S>,
    stripe: int,
    drainer: AppendDrainer,
    waiter: bool,
) -> (later: History) where
    E: Fn(&WalOperation) -> usize,
    S: Fn(LSN, &WalOperation) -> Result<Vec<u8>, Error>,

    requires
        h.tells(before),
        batch_started(before, after, turn, operations, codec, stripe, drainer, waiter),
        0 <= stripe < before.stripes.len(),
        before.next_lsn + operations.len() <= u64::MAX,
        before.next_ticket + operations.len() <= u64::MAX,
    ensures
        later.tells(after),
        h.grows_to(later),
        later.drained == h.drained,
        later.raised == h.raised,
        later.handed == if before.shutdown_requested {
            h.handed
        } else {
            h.reserving(before.next_lsn, operations.len()).handed
        },
        turn matches BatchTurn::Blocked(waiting) ==> {
            &&& later.holds(waiting@.rest)
            &&& waiting@.lsns == lsns_of(later.made_since(h))
            &&& waiting@.handles == handles_of(later.made_since(h), waiter)
        },
        turn matches BatchTurn::Placed { lsns, handles } ==> {
            &&& lsns@ == lsns_of(later.made_since(h))
            &&& handles@ == handles_of(later.made_since(h), waiter)
        },
        waiter ==> forall|i: int|
            0 <= i < later.made_since(h).len() ==> (
            #[trigger] later.made_since(h)[i]).completion is Some,
{
    let first = LSN(before.next_lsn);
    let reserved = h.reserving(before.next_lsn, operations.len());
    assert(h.made_since(h) =~= Seq::empty());
    assert(reserved.made_since(h) =~= Seq::empty());
    if before.shutdown_requested {
        h
    } else if operations.len() == 0 {
        assert(reserved.handed =~= h.handed);
        assert(lsns_of(h.made_since(h)) =~= Seq::empty());
        assert(handles_of(h.made_since(h), waiter) =~= Seq::empty());
        h
    } else {
        let tickets = before.tickets(waiter);
        let bound_ms = before.config.max_append_block_ms;
        if exists|entries: Seq<PendingEntry>| #[trigger]
            batch_encoded(codec, first, operations, tickets, entries) && batch_attempted(
                batch_starting(before, entries, waiter),
                after,
                turn,
                None,
                fresh_batch(entries, stripe, drainer, bound_ms, waiter),
                0,
            ) {
            let entries = choose|entries: Seq<PendingEntry>| #[trigger]
                batch_encoded(codec, first, operations, tickets, entries) && batch_attempted(
                    batch_starting(before, entries, waiter),
                    after,
                    turn,
                    None,
                    fresh_batch(entries, stripe, drainer, bound_ms, waiter),
                    0,
                );
            let started = batch_starting(before, entries, waiter);
            let batch = fresh_batch(entries, stripe, drainer, bound_ms, waiter);
            assert forall|i: int| 0 <= i < entries.len() implies (#[trigger] entries[i])
                == entry_at(lsn_after(first, i), entries[i].data, tickets, i) by {}
            lemma_making(h, before, started, entries);
            assert(reserved.making(entries).made_since(h) =~= entries);
            lemma_batch_attempt_is_told(
                reserved.making(entries),
                started,
                after,
                turn,
                None,
                batch,
                0,
            )
        } else {
            lemma_reserving(h, before, operations.len());
            reserved
        }
    }
}

/// A drain of the whole log carries the history on: what was pending is
/// drained now.
pub proof fn lemma_drain_is_told(h: History, wal: WalView, entries: Seq<PendingEntry>)
    requires
        h.tells(wal),
        is_stable_sort(entries, ready_of_all(wal.stripes)),
    ensures
        h.draining(entries).tells(WalView { stripes: all_drained(wal.stripes), ..wal }),
        h.grows_to(h.draining(entries)),
{
    let later = h.draining(entries);
    let stripes = all_drained(wal.stripes);
    lemma_no_holes_appear(wal.stripes);
    lemma_drained_stripes_are_empty(wal.stripes);
    lemma_all_pending_is_ready(wal.stripes);
    assert forall|lsn: LSN| #[trigger] later.occurrences(stripes, lsn) <= if later.handed.contains(
        lsn,
    ) {
        1nat
    } else {
        0nat
    } by {
        assert(h.occurrences(wal.stripes, lsn) <= if h.handed.contains(lsn) {
            1nat
        } else {
            0nat
        });
        assert(with_lsn(entries, lsn) == with_lsn(ready_of_all(wal.stripes), lsn));
        lemma_with_lsn_add(h.drained, entries, lsn);
        lemma_with_lsn_none(ready_of_all(stripes), lsn);
    }
    assert forall|entry: PendingEntry| #[trigger]
        later.drained.contains(entry) implies later.made.contains(entry) by {
        let i = choose|i: int| 0 <= i < later.drained.len() && later.drained[i] == entry;
        if i < h.drained.len() {
            assert(h.drained[i] == entry);
            assert(h.drained.contains(entry));
        } else {
            assert(entries[i - h.drained.len()] == entry);
            lemma_sort_keeps_entries(entries, ready_of_all(wal.stripes), entry);
            assert(ready_of_all(wal.stripes).contains(entry));
        }
    }
}

/// A drain of one stripe carries the history on.
pub proof fn lemma_stripe_drain_is_told(h: History, wal: WalView, stripe: int)
    requires
        h.tells(wal),
        0 <= stripe < wal.stripes.len(),
    ensures
        ({
            let ring = wal.stripes[stripe];
            let drained = ring.drained(ring.ready().len() as int);
            h.draining(ring.ready()).tells(
                WalView { stripes: wal.stripes.update(stripe, drained), ..wal },
            )
        }),
        h.grows_to(h.draining(wal.stripes[stripe].ready())),
{
    let ring = wal.stripes[stripe];
    let entries = ring.ready();
    let drained = ring.drained(entries.len() as int);
    let later = h.draining(entries);
    let stripes = wal.stripes.update(stripe, drained);
    assert(ring.ready().len() == ring.pending.len());
    assert(drained.ready() =~= Seq::empty());
    assert forall|i: int| 0 <= i < stripes.len() implies (#[trigger] stripes[i]).ready().len()
        == stripes[i].pending.len() by {
        assert(wal.stripes[i].ready().len() == wal.stripes[i].pending.len());
    }
    assert forall|lsn: LSN| #[trigger] later.occurrences(stripes, lsn) <= if later.handed.contains(
        lsn,
    ) {
        1nat
    } else {
        0nat
    } by {
        assert(h.occurrences(wal.stripes, lsn) <= if h.handed.contains(lsn) {
            1nat
        } else {
            0nat
        });
        lemma_update_counts(wal.stripes, stripe, drained, lsn);
        lemma_with_lsn_add(h.drained, entries, lsn);
        lemma_with_lsn_none(drained.ready(), lsn);
    }
    assert forall|entry: PendingEntry| #[trigger]
        later.drained.contains(entry) implies later.made.contains(entry) by {
        let i = choose|i: int| 0 <= i < later.drained.len() && later.drained[i] == entry;
        if i < h.drained.len() {
            assert(h.drained[i] == entry);
            assert(h.drained.contains(entry));
        } else {
            assert(entries[i - h.drained.len()] == entry);
            lemma_ready_in_one_is_ready_in_all(wal.stripes, stripe, entry);
        }
    }
    assert forall|entry: PendingEntry| #[trigger]
        ready_of_all(stripes).contains(entry) implies later.made.contains(entry) by {
        lemma_update_contains(wal.stripes, stripe, drained, entry);
    }
    lemma_update_counts(wal.stripes, stripe, drained, LSN(0));
}

/// Closing the log carries the history on.
pub proof fn lemma_close_is_told(h: History, wal: WalView)
    requires
        h.tells(wal),
    ensures
        h.tells(WalView { stripes: all_closed(wal.stripes), ..wal }),
{
    let stripes = all_closed(wal.stripes);
    lemma_closing_keeps_what_is_pending(wal.stripes);
    lemma_no_holes_appear(wal.stripes);
    assert forall|lsn: LSN| #[trigger] h.occurrences(stripes, lsn) <= if h.handed.contains(lsn) {
        1nat
    } else {
        0nat
    } by {
        assert(h.occurrences(wal.stripes, lsn) == h.occurrences(stripes, lsn));
    }
}

/// Setting the next LSN carries the history on: it is never lowered, so
/// recovery never makes the log hand out an LSN twice.
pub proof fn lemma_raise_is_told(h: History, wal: WalView, lsn: LSN)
    requires
        h.tells(wal),
    ensures
        (History { raised: true, ..h }).tells(
            WalView {
                next_lsn: if lsn.0 > wal.next_lsn {
                    lsn.0
                } else {
                    wal.next_lsn
                },
                ..wal
            },
        ),
        h.grows_to(History { raised: true, ..h }),
{
    let later = History { raised: true, ..h };
    assert forall|lsn: LSN| #[trigger] later.occurrences(wal.stripes, lsn) <= if
        later.handed.contains(lsn) {
        1nat
    } else {
        0nat
    } by {
        assert(h.occurrences(wal.stripes, lsn) == later.occurrences(wal.stripes, lsn));
    }
}

/// Whatever leaves the stripes and the counters alone leaves the history as it
/// is: entries are reported durable or failed, waiters are answered, appends
/// enter and leave.
pub proof fn lemma_other_steps_are_told(h: History, before: WalView, after: WalView)
    requires
        h.tells(before),
        after.stripes == before.stripes,
        after.next_lsn == before.next_lsn,
        after.next_ticket == before.next_ticket,
        after.total_appends == before.total_appends,
    ensures
        h.tells(after),
{
}

/// No LSN is handed out twice, and they only grow: each lies below those that
/// come after it, and all of them below the current one.
pub proof fn lemma_lsns_never_repeat(h: History, wal: WalView, i: int, j: int)
    requires
        h.tells(wal),
        0 <= i < j < h.handed.len(),
    ensures
        h.handed[i] != h.handed[j],
        h.handed[i].0 < h.handed[j].0 < wal.next_lsn,
{
}

/// After `k` LSNs were handed out, a log whose LSNs recovery did not raise is
/// at LSN `k + 1`, and LSN `i + 1` was the one with index `i`.
pub proof fn lemma_current_lsn_counts(h: History, wal: WalView, i: int)
    requires
        h.tells(wal),
        !h.raised,
    ensures
        wal.next_lsn == h.handed.len() + 1,
        0 <= i < h.handed.len() ==> h.handed[i] == LSN((i + 1) as u64),
{
}

/// The count of appends is the number of entries that were drained and that
/// are pending.
pub proof fn lemma_appends_are_drained_or_pending(h: History, wal: WalView)
    requires
        h.tells(wal),
        h.drained.len() + pending_total(wal.stripes) <= u64::MAX,
    ensures
        wal.total_appends == h.drained.len() + pending_total(wal.stripes),
{
}

/// A drain hands out exactly what is pending, each entry once and in strictly
/// increasing LSN order, and nothing that was drained before. All stripes are
/// empty afterwards, and a second drain has nothing to hand out.
pub proof fn lemma_drain_is_in_lsn_order(
    h: History,
    wal: WalView,
    entries: Seq<PendingEntry>,
    again: Seq<PendingEntry>,
)
    requires
        h.tells(wal),
        is_stable_sort(entries, ready_of_all(wal.stripes)),
        is_stable_sort(again, ready_of_all(all_drained(wal.stripes))),
    ensures
        lsns_increase(entries),
        entries.to_multiset() == ready_of_all(wal.stripes).to_multiset(),
        forall|i: int|
            0 <= i < entries.len() ==> (#[trigger] entries[i]).lsn.0 < wal.next_lsn
                && !h.drained.contains(entries[i]),
        pending_total(all_drained(wal.stripes)) == 0,
        again == Seq::<PendingEntry>::empty(),
{
    let ready = ready_of_all(wal.stripes);
    lemma_sort_is_a_permutation(entries, ready);
    lemma_drained_stripes_are_empty(wal.stripes);
    assert(again =~= Seq::empty());
    assert forall|i: int, j: int|
        #![trigger entries[i], entries[j]]
        0 <= i < j < entries.len() implies entries[i].lsn.0 < entries[j].lsn.0 by {
        let lsn = entries[i].lsn;
        if lsn == entries[j].lsn {
            lemma_with_lsn_twice(entries, i, j);
            assert(with_lsn(entries, lsn) == with_lsn(ready, lsn));
            assert(h.occurrences(wal.stripes, lsn) > 1);
        }
    }
    assert forall|i: int| 0 <= i < entries.len() implies (#[trigger] entries[i]).lsn.0
        < wal.next_lsn && !h.drained.contains(entries[i]) by {
        let lsn = entries[i].lsn;
        lemma_with_lsn_at(entries, i);
        assert(with_lsn(entries, lsn) == with_lsn(ready, lsn));
        assert(h.occurrences(wal.stripes, lsn) > 0);
        assert(h.handed.contains(lsn));
        let k = choose|k: int| 0 <= k < h.handed.len() && h.handed[k] == lsn;
        assert(h.handed[k].0 < wal.next_lsn);
        if h.drained.contains(entries[i]) {
            let j = choose|j: int| 0 <= j < h.drained.len() && h.drained[j] == entries[i];
            lemma_with_lsn_at(h.drained, j);
            assert(h.occurrences(wal.stripes, lsn) > 1);
        }
    }
}

/// Whether everybody who is told that an entry is durable is told so of one of
/// `written`.
pub open spec fn acknowledged(
    board: Map<u64, CompletionView>,
    written: Seq<PendingEntry>,
) -> bool {
    forall|ticket: u64|
        (#[trigger] seen_on(board, ticket)).state == CompletionState::Complete ==> exists|i: int|
            0 <= i < written.len() && (#[trigger] written[i]).completion == Some(
                CompletionHandle(ticket),
            )
}

/// Success is told of what was written only: reporting entries durable, failed
/// or thrown away leaves nobody told of the durability of anything else.
pub proof fn lemma_acknowledgements_are_earned(
    board: Map<u64, CompletionView>,
    written: Seq<PendingEntry>,
    entries: Seq<PendingEntry>,
    text: Seq<char>,
)
    requires
        acknowledged(board, written),
    ensures
        acknowledged(all_completed(board, entries), written + entries),
        acknowledged(all_failed(board, entries, text), written),
        acknowledged(all_discarded(board, entries), written),
{
    let more = written + entries;
    let now = all_completed(board, entries);
    assert forall|ticket: u64|
        (#[trigger] seen_on(now, ticket)).state == CompletionState::Complete implies exists|i: int|
        0 <= i < more.len() && (#[trigger] more[i]).completion == Some(
            CompletionHandle(ticket),
        ) by {
        if seen_on(board, ticket).state == CompletionState::Complete {
            let i = choose|i: int|
                0 <= i < written.len() && (#[trigger] written[i]).completion == Some(
                    CompletionHandle(ticket),
                );
            assert(more[i] == written[i]);
        } else {
            lemma_only_flushed_entries_are_acknowledged(board, entries, ticket);
            let i = choose|i: int|
                0 <= i < entries.len() && (#[trigger] entries[i]).completion == Some(
                    CompletionHandle(ticket),
                );
            assert(more[written.len() + i] == entries[i]);
        }
    }
    let failed = all_failed(board, entries, text);
    let discarded = all_discarded(board, entries);
    assert forall|ticket: u64|
        (#[trigger] seen_on(failed, ticket)).state == CompletionState::Complete implies seen_on(
        board,
        ticket,
    ).state == CompletionState::Complete by {
        lemma_failing_acknowledges_nobody(board, entries, text, ticket);
    }
    assert forall|ticket: u64|
        (#[trigger] seen_on(discarded, ticket)).state == CompletionState::Complete implies seen_on(
        board,
        ticket,
    ).state == CompletionState::Complete by {
        lemma_discarding_acknowledges_nobody(board, entries, ticket);
    }
}

/// Registering waiters and dropping them tells nobody of the durability of
/// anything.
pub proof fn lemma_waiters_come_and_go(
    board: Map<u64, CompletionView>,
    written: Seq<PendingEntry>,
    first: u64,
    count: nat,
    handles: Seq<CompletionHandle>,
    entries: Seq<PendingEntry>,
)
    requires
        acknowledged(board, written),
    ensures
        acknowledged(with_waiters(board, first, count), written),
        acknowledged(without_handles(board, handles), written),
        acknowledged(without(board, entries), written),
{
    lemma_waiters_are_pending(board, written, first, count);
    lemma_forgetting_tells_nobody(board, written, entries);
    let gone = without_handles(board, handles);
    assert forall|ticket: u64|
        (#[trigger] seen_on(gone, ticket)).state == CompletionState::Complete implies seen_on(
        board,
        ticket,
    ).state == CompletionState::Complete by {}
}

proof fn lemma_waiters_are_pending(
    board: Map<u64, CompletionView>,
    written: Seq<PendingEntry>,
    first: u64,
    count: nat,
)
    requires
        acknowledged(board, written),
    ensures
        acknowledged(with_waiters(board, first, count), written),
    decreases count,
{
    if count > 0 {
        let fewer = (count - 1) as nat;
        lemma_waiters_are_pending(board, written, first, fewer);
        let less = with_waiters(board, first, fewer);
        let more = with_waiters(board, first, count);
        assert forall|ticket: u64|
            (#[trigger] seen_on(more, ticket)).state == CompletionState::Complete implies seen_on(
            less,
            ticket,
        ).state == CompletionState::Complete by {}
    }
}

proof fn lemma_forgetting_tells_nobody(
    board: Map<u64, CompletionView>,
    written: Seq<PendingEntry>,
    entries: Seq<PendingEntry>,
)
    requires
        acknowledged(board, written),
    ensures
        acknowledged(without(board, entries), written),
    decreases entries.len(),
{
    if entries.len() > 0 {
        lemma_forgetting_tells_nobody(board, written, entries.drop_last());
        let less = without(board, entries.drop_last());
        let now = without(board, entries);
        assert forall|ticket: u64|
            (#[trigger] seen_on(now, ticket)).state == CompletionState::Complete implies seen_on(
            less,
            ticket,
        ).state == CompletionState::Complete by {}
    }
}

/// A batch that is answered with success was written whole: if all of its
/// handles say that their entries are durable, then each of its entries is
/// among those that were written.
pub proof fn lemma_durable_batch_was_written_whole(
    h: History,
    wal: WalView,
    written: Seq<PendingEntry>,
    batch: Seq<PendingEntry>,
    i: int,
)
    requires
        h.tells(wal),
        acknowledged(wal.completions, written),
        forall|entry: PendingEntry| #[trigger]
            written.contains(entry) ==> h.drained.contains(entry),
        forall|k: int|
            0 <= k < batch.len() ==> h.made.contains(#[trigger] batch[k])
                && batch[k].completion is Some,
        all_durable(wal.completions, handles_of(batch, true)),
        0 <= i < batch.len(),
    ensures
        written.contains(batch[i]),
{
    let handles = handles_of(batch, true);
    let ticket = (batch[i].completion->0).0;
    assert(handles[i] == CompletionHandle(ticket));
    assert(seen_on(wal.completions, handles[i].0).state == CompletionState::Complete);
    let w = choose|w: int|
        0 <= w < written.len() && (#[trigger] written[w]).completion == Some(
            CompletionHandle(ticket),
        );
    assert(written.contains(written[w]));
    assert(h.drained.contains(written[w]));
    let a = choose|a: int| 0 <= a < h.made.len() && h.made[a] == written[w];
    let b = choose|b: int| 0 <= b < h.made.len() && h.made[b] == batch[i];
    assert(a == b);
}

} // verus!
