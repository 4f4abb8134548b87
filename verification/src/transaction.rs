//! Logging of write transactions.
//!
//! A transaction is logged as one frame, a begin marker, its operations and a
//! commit marker, before its writes are applied. Recovery can then discard a
//! frame whose commit marker never became durable, and stamp every version of
//! a transaction with its one commit timestamp.

use vstd::prelude::*;

use crate::concurrent::stripe_of;
use crate::concurrent_system::{
    committed, frame_started, CommitTurn, ConcurrentWalSystem, FrameTurn,
};
use crate::error::Error;
use crate::lsn::LSN;
use crate::operation::{
    closes_version, stamped, ContentId, EntryCodec, VersionId, WalOperation,
};
use crate::power::wrap32;

verus! {

/// A write that a transaction has buffered.
#[derive(Debug, Clone, Copy, PartialEq, Eq, Structural)]
pub enum BufferedWrite {
    CreateNode { node_id: u64, content: ContentId },
    CreateEdge { edge_id: u64, content: ContentId },
    UpdateNode { node_id: u64, content: ContentId },
    UpdateEdge { edge_id: u64, content: ContentId },
    DeleteNode { node_id: u64, content: ContentId },
    DeleteEdge { edge_id: u64, content: ContentId },
    RetractNode { node_id: u64, content: ContentId },
    RetractEdge { edge_id: u64, content: ContentId },
}

/// The operation that records a buffered write, before it is stamped.
pub open spec fn operation_of(write: BufferedWrite) -> WalOperation {
    match write {
        BufferedWrite::CreateNode { node_id, content } => WalOperation::CreateNode {
            node_id,
            content,
        },
        BufferedWrite::CreateEdge { edge_id, content } => WalOperation::CreateEdge {
            edge_id,
            content,
        },
        BufferedWrite::UpdateNode { node_id, content } => WalOperation::UpdateNode {
            node_id,
            content,
        },
        BufferedWrite::UpdateEdge { edge_id, content } => WalOperation::UpdateEdge {
            edge_id,
            content,
        },
        BufferedWrite::DeleteNode { node_id, content } => WalOperation::DeleteNode {
            node_id,
            content,
            version_id: None,
        },
        BufferedWrite::DeleteEdge { edge_id, content } => WalOperation::DeleteEdge {
            edge_id,
            content,
            version_id: None,
        },
        BufferedWrite::RetractNode { node_id, content } => WalOperation::RetractNode {
            node_id,
            content,
            version_id: None,
        },
        BufferedWrite::RetractEdge { edge_id, content } => WalOperation::RetractEdge {
            edge_id,
            content,
            version_id: None,
        },
    }
}

impl BufferedWrite {
    /// The operation that records the write, before it is stamped.
    pub fn to_operation(&self) -> (op: WalOperation)
        ensures
            op == operation_of(*self),
    {
        match *self {
            BufferedWrite::CreateNode { node_id, content } => WalOperation::CreateNode {
                node_id,
                content,
            },
            BufferedWrite::CreateEdge { edge_id, content } => WalOperation::CreateEdge {
                edge_id,
                content,
            },
            BufferedWrite::UpdateNode { node_id, content } => WalOperation::UpdateNode {
                node_id,
                content,
            },
            BufferedWrite::UpdateEdge { edge_id, content } => WalOperation::UpdateEdge {
                edge_id,
                content,
            },
            BufferedWrite::DeleteNode { node_id, content } => WalOperation::DeleteNode {
                node_id,
                content,
                version_id: None,
            },
            BufferedWrite::DeleteEdge { edge_id, content } => WalOperation::DeleteEdge {
                edge_id,
                content,
                version_id: None,
            },
            BufferedWrite::RetractNode { node_id, content } => WalOperation::RetractNode {
                node_id,
                content,
                version_id: None,
            },
            BufferedWrite::RetractEdge { edge_id, content } => WalOperation::RetractEdge {
                edge_id,
                content,
                version_id: None,
            },
        }
    }
}

/// A write transaction that is about to be logged.
#[derive(Debug)]
pub struct WriteTransaction {
    pub tx_id: u64,
    /// The buffered writes, in order.
    pub buffer: Vec<BufferedWrite>,
}

/// How many of `writes` close a version.
pub open spec fn closing_count(writes: Seq<BufferedWrite>) -> nat
    decreases writes.len(),
{
    if writes.len() == 0 {
        0
    } else {
        closing_count(writes.drop_last()) + if closes_version(operation_of(writes.last())) {
            1nat
        } else {
            0nat
        }
    }
}

/// The `k`-th of `ids`, if there are that many.
pub open spec fn nth_id(ids: Seq<VersionId>, k: nat) -> Option<VersionId> {
    if k < ids.len() {
        Some(ids[k as int])
    } else {
        None
    }
}

/// The operations of `writes`, each one that closes a version stamped with the
/// next of `closing_ids`.
pub open spec fn data_operations(
    writes: Seq<BufferedWrite>,
    closing_ids: Seq<VersionId>,
) -> Seq<WalOperation> {
    Seq::new(
        writes.len(),
        |i: int|
            stamped(operation_of(writes[i]), nth_id(closing_ids, closing_count(writes.take(i)))),
    )
}

/// The frame of a transaction.
pub open spec fn frame_of(
    tx_id: u64,
    writes: Seq<BufferedWrite>,
    closing_ids: Seq<VersionId>,
    commit_timestamp: i64,
) -> Seq<WalOperation> {
    seq![WalOperation::BeginTx { tx_id }] + data_operations(writes, closing_ids) + seq![
        WalOperation::CommitTx {
            tx_id,
            entry_count: wrap32(writes.len() as int),
            commit_timestamp,
        },
    ]
}

/// Build the frame of a transaction.
pub fn build_frame(
    tx: &WriteTransaction,
    commit_timestamp: i64,
    closing_version_ids: &Vec<VersionId>,
) -> (frame: Vec<WalOperation>)
    ensures
        frame@ == frame_of(tx.tx_id, tx.buffer@, closing_version_ids@, commit_timestamp),
{
    let mut operations: Vec<WalOperation> = Vec::with_capacity(tx.buffer.len());
    operations.push(WalOperation::BeginTx { tx_id: tx.tx_id });
    let mut next_id: usize = 0;
    let mut i: usize = 0;
    let ghost writes = tx.buffer@;
    let ghost ids = closing_version_ids@;
    proof {
        assert(writes.take(0) =~= Seq::empty());
    }
    while i < tx.buffer.len()
        invariant
            i <= tx.buffer.len(),
            writes == tx.buffer@,
            ids == closing_version_ids@,
            next_id == closing_count(writes.take(i as int)),
            next_id <= i,
            operations@ =~= seq![WalOperation::BeginTx { tx_id: tx.tx_id }] + data_operations(
                writes,
                ids,
            ).take(i as int),
        decreases tx.buffer.len() - i,
    {
        let op = tx.buffer[i].to_operation();
        proof {
            assert(writes.take(i + 1).drop_last() =~= writes.take(i as int));
            assert(writes.take(i + 1).last() == writes[i as int]);
        }
        let id = if next_id < closing_version_ids.len() {
            Some(closing_version_ids[next_id])
        } else {
            None
        };
        if op.closes_version() {
            next_id = next_id + 1;
        }
        operations.push(op.stamped(id));
        i = i + 1;
    }
    let entry_count: u32 = (tx.buffer.len() as u64 % 0x1_0000_0000) as u32;
    operations.push(WalOperation::CommitTx { tx_id: tx.tx_id, entry_count, commit_timestamp });
    assert(operations@ =~= frame_of(tx.tx_id, writes, ids, commit_timestamp));
    operations
}

/// Log all buffered operations of a transaction and commit it.
///
/// Returns the lowest LSN of the transaction, that of its begin marker, and the
/// epoch to wait for, if the durability mode has epochs. An empty transaction
/// logs nothing, but the commit step of the durability mode still runs.
///
/// `closing_version_ids` holds one id for each write that closes a version, in
/// the order of the buffer.
pub fn log_operations_to_wal<E, S>(
    system: &mut ConcurrentWalSystem,
    tx: &WriteTransaction,
    commit_timestamp: i64,
    closing_version_ids: &Vec<VersionId>,
    codec: &EntryCodec<E, S>,
    thread_hash: u64,
) -> (turn: FrameTurn) where
    E: Fn(&WalOperation) -> usize,
    S: Fn(LSN, &WalOperation) -> Result<Vec<u8>, Error>,

    requires
        old(system).wf(),
        codec.total(),
    ensures
        final(system).wf(),
        if tx.buffer@.len() == 0 {
            exists|commit: CommitTurn| #[trigger]
                committed(old(system)@, final(system)@, commit) && match commit {
                    CommitTurn::Done(Ok(epoch)) => turn == FrameTurn::Done(Ok((None, epoch))),
                    CommitTurn::Done(Err(error)) => turn == FrameTurn::Done(Err(error)),
                    CommitTurn::Flush(request) => turn == (FrameTurn::Flush {
                        base_lsn: None,
                        request,
                    }),
                }
        } else {
            exists|frame: Vec<WalOperation>|
                frame@ == frame_of(
                    tx.tx_id,
                    tx.buffer@,
                    closing_version_ids@,
                    commit_timestamp,
                ) && #[trigger] frame_started(
                    old(system)@,
                    final(system)@,
                    turn,
                    frame,
                    *codec,
                    stripe_of(thread_hash, old(system)@.wal.stripes.len()),
                )
        },
{
    if tx.buffer.is_empty() {
        let commit = system.commit();
        assert(committed(old(system)@, system@, commit));
        return match commit {
            CommitTurn::Done(Ok(epoch)) => FrameTurn::Done(Ok((None, epoch))),
            CommitTurn::Done(Err(error)) => FrameTurn::Done(Err(error)),
            CommitTurn::Flush(request) => FrameTurn::Flush { base_lsn: None, request },
        };
    }
    let frame = build_frame(tx, commit_timestamp, closing_version_ids);
    let ghost built = frame;
    let turn = system.append_batch_and_commit(frame, codec, thread_hash);
    assert(frame_started(
        old(system)@,
        system@,
        turn,
        built,
        *codec,
        stripe_of(thread_hash, old(system)@.wal.stripes.len()),
    ));
    turn
}

/// A frame begins with the begin marker of its transaction, ends with the
/// commit marker, which carries the timestamp and the number of operations,
/// and has the operations in between, in order.
pub proof fn lemma_frame_shape(
    tx_id: u64,
    writes: Seq<BufferedWrite>,
    closing_ids: Seq<VersionId>,
    commit_timestamp: i64,
)
    ensures
        ({
            let frame = frame_of(tx_id, writes, closing_ids, commit_timestamp);
            &&& frame.len() == writes.len() + 2
            &&& frame[0] == WalOperation::BeginTx { tx_id }
            &&& frame.last() == (WalOperation::CommitTx {
                tx_id,
                entry_count: wrap32(writes.len() as int),
                commit_timestamp,
            })
            &&& forall|i: int|
                0 <= i < writes.len() ==> #[trigger] frame[i + 1] == stamped(
                    operation_of(writes[i]),
                    nth_id(closing_ids, closing_count(writes.take(i))),
                )
        }),
{
}

/// A torn frame is recognizable: no proper prefix of a frame holds a commit
/// marker, so a transaction that was not logged in full is never taken for a
/// committed one.
pub proof fn lemma_torn_frame_has_no_commit_marker(
    tx_id: u64,
    writes: Seq<BufferedWrite>,
    closing_ids: Seq<VersionId>,
    commit_timestamp: i64,
    i: int,
)
    requires
        0 <= i < frame_of(tx_id, writes, closing_ids, commit_timestamp).len() - 1,
    ensures
        !(frame_of(tx_id, writes, closing_ids, commit_timestamp)[i] is CommitTx),
{
    lemma_frame_shape(tx_id, writes, closing_ids, commit_timestamp);
    let frame = frame_of(tx_id, writes, closing_ids, commit_timestamp);
    if i > 0 {
        assert(frame[(i - 1) + 1] == stamped(
            operation_of(writes[i - 1]),
            nth_id(closing_ids, closing_count(writes.take(i - 1))),
        ));
    }
}

/// Where there is one id for each write that closes a version, every such
/// operation carries an id, and no other operation is changed.
pub proof fn lemma_every_closing_operation_is_stamped(
    writes: Seq<BufferedWrite>,
    closing_ids: Seq<VersionId>,
    i: int,
)
    requires
        closing_ids.len() == closing_count(writes),
        0 <= i < writes.len(),
    ensures
        ({
            let k = closing_count(writes.take(i));
            let op = data_operations(writes, closing_ids)[i];
            if closes_version(operation_of(writes[i])) {
                &&& k < closing_ids.len()
                &&& op == stamped(operation_of(writes[i]), Some(closing_ids[k as int]))
            } else {
                op == operation_of(writes[i])
            }
        }),
{
    lemma_closing_count_grows(writes, i + 1);
    assert(writes.take(i + 1).drop_last() =~= writes.take(i));
}

proof fn lemma_closing_count_grows(writes: Seq<BufferedWrite>, n: int)
    requires
        0 <= n <= writes.len(),
    ensures
        closing_count(writes.take(n)) <= closing_count(writes),
    decreases writes.len() - n,
{
    if n < writes.len() {
        assert(writes.take(n + 1).drop_last() =~= writes.take(n));
        lemma_closing_count_grows(writes, n + 1);
    } else {
        assert(writes.take(n) =~= writes);
    }
}

} // verus!
