//! What the log says of itself, and how it is set up.

use vstd::prelude::*;

use crate::completion::CompletionBoard;
use crate::concurrent::{AppendDrainer, ConcurrentWal, ConcurrentWalMetrics, WalView};
use crate::concurrent_system::{ConcurrentWalSystem, SystemView};
use crate::deadline::{AppendDeadline, DeadlineView};
use crate::entry::PendingEntry;
use crate::group_commit::GroupCommitCoordinator;
use crate::laws::draining::{buffered, lemma_buffered_is_pending};
use crate::lsn::LSN;
use crate::ring_buffer::lemma_ready_stops_at_hole;
use crate::stripe::{StripeMetrics, WalStripe};
use crate::system_config::FlushCoordinatorConfig;
use crate::wal_config::ConcurrentWalConfig;

verus! {

/// A thread has the stripe that its hash leaves over when divided by their
/// number: always the same one, and one that there is.
pub proof fn lemma_threads_keep_their_stripe(
    wal: &ConcurrentWal,
    hash: u64,
    stripe: usize,
    found: Option<&WalStripe>,
    count: usize,
    id: usize,
    other: Option<&WalStripe>,
)
    requires
        wal.wf(),
        call_ensures(ConcurrentWal::get_stripe, (wal, hash), stripe),
        call_ensures(ConcurrentWal::stripe, (wal, stripe), found),
        call_ensures(ConcurrentWal::num_stripes, (wal,), count),
        call_ensures(ConcurrentWal::stripe, (wal, id), other),
    ensures
        count == wal@.stripes.len(),
        stripe == hash as int % count as int,
        stripe < count,
        found matches Some(s) && s@ == wal@.stripes[stripe as int] && s.spec_id() == stripe,
        other is Some <==> id < count,
        other matches Some(s) ==> s@ == wal@.stripes[id as int] && s.spec_id() == id,
{
}

/// What the log reports is what it holds: the entries of each stripe, their
/// sum, the appends so far and the next LSN.
pub proof fn lemma_metrics_count(
    wal: &ConcurrentWal,
    metrics: ConcurrentWalMetrics,
    stripes: Vec<StripeMetrics>,
    i: int,
    appends: u64,
    lsn: LSN,
)
    requires
        wal.wf(),
        call_ensures(ConcurrentWal::metrics, (wal,), metrics),
        call_ensures(ConcurrentWal::stripe_metrics, (wal,), stripes),
        call_ensures(ConcurrentWal::total_appends, (wal,), appends),
        call_ensures(ConcurrentWal::current_lsn, (wal,), lsn),
        0 <= i < wal@.stripes.len(),
    ensures
        appends == wal@.total_appends,
        lsn.0 == wal@.next_lsn,
        metrics.total_appends == appends,
        metrics.current_lsn == lsn,
        buffered(wal@.stripes) <= usize::MAX ==> metrics.total_pending == buffered(wal@.stripes),
        buffered(wal@.stripes) > usize::MAX ==> metrics.total_pending == usize::MAX,
        metrics.stripes@.len() == wal@.stripes.len(),
        stripes@.len() == wal@.stripes.len(),
        stripes@[i].stripe_id == i,
        stripes@[i].pending_count == wal@.stripes[i].pending.len(),
        stripes@[i].capacity == wal@.stripes[i].capacity,
        metrics.stripes@[i] == stripes@[i],
{
    wal.lemma_stripes();
    lemma_buffered_is_pending(wal@.stripes);
    let ring = wal@.stripes[i];
    assert(ring.pending.len() <= ring.capacity <= usize::MAX);
}

/// A drain of one stripe hands out all that is in it, in order, and leaves the
/// other stripes alone. There is nothing to drain in a stripe that there is not.
pub proof fn lemma_stripe_is_drained(
    wal: &mut ConcurrentWal,
    id: usize,
    entries: Vec<PendingEntry>,
    i: int,
)
    requires
        old(wal).wf(),
        call_ensures(ConcurrentWal::drain_stripe, (wal, id), entries),
    ensures
        id < old(wal)@.stripes.len() ==> {
            let ring = old(wal)@.stripes[id as int];
            &&& entries@.len() == ring.pending.len()
            &&& 0 <= i < entries@.len() ==> ring.pending[i] == Some(entries@[i])
            &&& final(wal)@.stripes.len() == old(wal)@.stripes.len()
            &&& final(wal)@.stripes[id as int].pending.len() == 0
            &&& final(wal)@.stripes[id as int].capacity == ring.capacity
            &&& final(wal)@.stripes[id as int].closed == ring.closed
            &&& final(wal)@.stripes[id as int].read_pos as int == (ring.read_pos
                + ring.pending.len()) % 0x1_0000_0000_0000_0000
            &&& forall|k: int|
                0 <= k < old(wal)@.stripes.len() && k != id ==> #[trigger] final(wal)@.stripes[k]
                    == old(wal)@.stripes[k]
        },
        id >= old(wal)@.stripes.len() ==> entries@.len() == 0 && final(wal)@ == old(wal)@,
        final(wal)@ == (WalView { stripes: final(wal)@.stripes, ..old(wal)@ }),
{
    old(wal).lemma_stripes();
    if id < old(wal)@.stripes.len() {
        let ring = old(wal)@.stripes[id as int];
        assert(ring.ready().len() == ring.pending.len());
        lemma_ready_stops_at_hole(ring);
        reveal(crate::power::wrap);
    }
}

/// The next LSN is raised to a higher one, and never lowered.
pub proof fn lemma_next_lsn_is_only_raised(
    wal: &mut ConcurrentWal,
    lsn: LSN,
    system: &mut ConcurrentWalSystem,
)
    requires
        call_ensures(ConcurrentWal::set_next_lsn, (wal, lsn), ()),
        call_ensures(ConcurrentWalSystem::set_next_lsn, (system, lsn), ()),
    ensures
        final(wal)@.next_lsn >= lsn.0,
        final(wal)@.next_lsn >= old(wal)@.next_lsn,
        final(wal)@.next_lsn == lsn.0 || final(wal)@.next_lsn == old(wal)@.next_lsn,
        final(wal)@ == (WalView { next_lsn: final(wal)@.next_lsn, ..old(wal)@ }),
        final(system)@.wal.next_lsn >= lsn.0,
        final(system)@.wal.next_lsn >= old(system)@.wal.next_lsn,
        final(system)@.wal.next_lsn == lsn.0 || final(system)@.wal.next_lsn
            == old(system)@.wal.next_lsn,
        final(system)@ == (SystemView {
            wal: WalView { next_lsn: final(system)@.wal.next_lsn, ..old(system)@.wal },
            ..old(system)@
        }),
{
}

/// What the log and the system hand out of themselves is what they hold.
pub proof fn lemma_parts_are_handed_out(
    wal: &ConcurrentWal,
    dir: &str,
    config: &ConcurrentWalConfig,
    board: &CompletionBoard,
    system: &ConcurrentWalSystem,
    inner: &ConcurrentWal,
    system_dir: &str,
    segments: &FlushCoordinatorConfig,
    held: bool,
    gc: Option<&GroupCommitCoordinator>,
)
    requires
        call_ensures(ConcurrentWal::wal_dir, (wal,), dir),
        call_ensures(ConcurrentWal::config, (wal,), config),
        call_ensures(ConcurrentWal::completions, (wal,), board),
        call_ensures(ConcurrentWalSystem::wal, (system,), inner),
        call_ensures(ConcurrentWalSystem::wal_dir, (system,), system_dir),
        call_ensures(ConcurrentWalSystem::flush_coordinator_config, (system,), segments),
        call_ensures(ConcurrentWalSystem::is_membership_held, (system,), held),
        call_ensures(ConcurrentWalSystem::group_commit_coordinator, (system,), gc),
    ensures
        dir@ == wal@.config.wal_dir@,
        *config == wal@.config,
        board@ == wal@.completions,
        inner@ == system@.wal,
        system_dir@ == system@.segments.wal_dir@,
        *segments == system@.segments,
        held == system@.membership_held,
        gc is Some <==> system@.group_commit is Some,
        gc matches Some(g) ==> system@.group_commit == Some(g@),
{
}

/// An error that is injected lies ahead, and changes nothing else.
pub proof fn lemma_injected_error_lies_ahead(system: &mut ConcurrentWalSystem)
    requires
        call_ensures(ConcurrentWalSystem::inject_cycle_error, (system,), ()),
    ensures
        final(system)@ == (SystemView { injected_error: true, ..old(system)@ }),
{
}

/// Who drains the log is who was declared to, and an append waits for as long as
/// is configured, or without a bound if that is zero.
pub proof fn lemma_log_is_set_up(
    wal: &mut ConcurrentWal,
    drainer: AppendDrainer,
    deadline: AppendDeadline,
    arms: u32,
    slow: u64,
)
    requires
        call_ensures(ConcurrentWal::set_async_drainer, (wal, drainer), ()),
        call_ensures(ConcurrentWal::append_deadline, (&*final(wal),), deadline),
        call_ensures(ConcurrentWal::last_batch_deadline_arms, (&*final(wal),), arms),
        call_ensures(ConcurrentWal::slow_batch_diagnostics, (&*final(wal),), slow),
    ensures
        final(wal)@ == (WalView { async_drainer: drainer, ..old(wal)@ }),
        deadline@ == (DeadlineView {
            bound_ms: if old(wal)@.config.max_append_block_ms == 0 {
                None
            } else {
                Some(old(wal)@.config.max_append_block_ms)
            },
            armed: None,
            arms: 0,
        }),
        arms == old(wal)@.last_batch_arms,
        slow == old(wal)@.slow_reports,
{
}

} // verus!
