//! What is logged of a transaction.

use vstd::prelude::*;

use crate::operation::{VersionId, WalOperation};
use crate::transaction::{
    build_frame, closing_count, frame_of, lemma_frame_shape, BufferedWrite, WriteTransaction,
};

verus! {

broadcast use crate::power::lemma_wrap_near;

/// Every write is logged as the operation of its own kind, with its own id and
/// content, and an operation that closes a version carries no version yet.
pub proof fn lemma_write_is_logged_as_itself(write: BufferedWrite, op: WalOperation)
    requires
        call_ensures(BufferedWrite::to_operation, (&write,), op),
    ensures
        op == match write {
            BufferedWrite::CreateNode { node_id, content } => WalOperation::CreateNode {
                node_id,
                content,
            },
            BufferedWrite::CreateEdge { edge_id, content } => WalOperation::CreateEdge {
                edge_id,
                content,
            },
            BufferedWrite::UpdateNode { node_id, content } => WalOperation::UpdateNode {
                node_id,
                content,
            },
            BufferedWrite::UpdateEdge { edge_id, content } => WalOperation::UpdateEdge {
                edge_id,
                content,
            },
            BufferedWrite::DeleteNode { node_id, content } => WalOperation::DeleteNode {
                node_id,
                content,
                version_id: None,
            },
            BufferedWrite::DeleteEdge { edge_id, content } => WalOperation::DeleteEdge {
                edge_id,
                content,
                version_id: None,
            },
            BufferedWrite::RetractNode { node_id, content } => WalOperation::RetractNode {
                node_id,
                content,
                version_id: None,
            },
            BufferedWrite::RetractEdge { edge_id, content } => WalOperation::RetractEdge {
                edge_id,
                content,
                version_id: None,
            },
        },
{
}

/// Two writes that differ are never logged as the same operation.
pub proof fn lemma_different_writes_are_logged_differently(
    a: BufferedWrite,
    b: BufferedWrite,
    op_a: WalOperation,
    op_b: WalOperation,
)
    requires
        call_ensures(BufferedWrite::to_operation, (&a,), op_a),
        call_ensures(BufferedWrite::to_operation, (&b,), op_b),
        a != b,
    ensures
        op_a != op_b,
{
}

/// Whether a write closes a version: it deletes or retracts something.
pub open spec fn closes(write: BufferedWrite) -> bool {
    write is DeleteNode || write is DeleteEdge || write is RetractNode || write is RetractEdge
}

/// Whether `op` is what is logged of `write`, with `version_id` as the version
/// that it closes, if it closes one.
pub open spec fn is_logged_as(
    op: WalOperation,
    write: BufferedWrite,
    version_id: Option<VersionId>,
) -> bool {
    match write {
        BufferedWrite::CreateNode { node_id, content } => op == (WalOperation::CreateNode {
            node_id,
            content,
        }),
        BufferedWrite::CreateEdge { edge_id, content } => op == (WalOperation::CreateEdge {
            edge_id,
            content,
        }),
        BufferedWrite::UpdateNode { node_id, content } => op == (WalOperation::UpdateNode {
            node_id,
            content,
        }),
        BufferedWrite::UpdateEdge { edge_id, content } => op == (WalOperation::UpdateEdge {
            edge_id,
            content,
        }),
        BufferedWrite::DeleteNode { node_id, content } => op == (WalOperation::DeleteNode {
            node_id,
            content,
            version_id,
        }),
        BufferedWrite::DeleteEdge { edge_id, content } => op == (WalOperation::DeleteEdge {
            edge_id,
            content,
            version_id,
        }),
        BufferedWrite::RetractNode { node_id, content } => op == (WalOperation::RetractNode {
            node_id,
            content,
            version_id,
        }),
        BufferedWrite::RetractEdge { edge_id, content } => op == (WalOperation::RetractEdge {
            edge_id,
            content,
            version_id,
        }),
    }
}

/// Whether `frame` holds the begin marker of the transaction, its writes in
/// order, and the commit marker; the writes that close a version take `ids` one
/// after the other.
pub open spec fn is_framed(
    frame: Seq<WalOperation>,
    tx: WriteTransaction,
    commit_timestamp: i64,
    ids: Seq<VersionId>,
) -> bool {
    let writes = tx.buffer@;
    &&& frame.len() == writes.len() + 2
    &&& frame[0] == (WalOperation::BeginTx { tx_id: tx.tx_id })
    &&& frame.last() matches WalOperation::CommitTx { tx_id, entry_count, commit_timestamp: at }
    &&& tx_id == tx.tx_id
    &&& at == commit_timestamp
    &&& entry_count == writes.len() % 0x1_0000_0000
    &&& forall|i: int|
        0 <= i < writes.len() ==> {
            let k = writes.take(i).filter(|w: BufferedWrite| closes(w)).len() as int;
            is_logged_as(
                frame[i + 1],
                #[trigger] writes[i],
                if k < ids.len() {
                    Some(ids[k])
                } else {
                    None
                },
            )
        }
}

/// A frame that is built for a transaction is the frame of that transaction.
pub proof fn lemma_is_framed(
    frame: Seq<WalOperation>,
    tx: WriteTransaction,
    commit_timestamp: i64,
    ids: Seq<VersionId>,
)
    requires
        frame == frame_of(tx.tx_id, tx.buffer@, ids, commit_timestamp),
    ensures
        is_framed(frame, tx, commit_timestamp, ids),
{
    lemma_frame_shape(tx.tx_id, tx.buffer@, ids, commit_timestamp);
    let writes = tx.buffer@;
    assert forall|i: int| 0 <= i < writes.len() implies ({
        let k = writes.take(i).filter(|w: BufferedWrite| closes(w)).len() as int;
        is_logged_as(
            frame[i + 1],
            #[trigger] writes[i],
            if k < ids.len() {
                Some(ids[k])
            } else {
                None
            },
        )
    }) by {
        lemma_closing_writes(writes.take(i));
        assert(frame[i + 1] == frame[i + 1]);
    }
}

/// Writes that close a version are counted by their kind.
proof fn lemma_closing_writes(writes: Seq<BufferedWrite>)
    ensures
        closing_count(writes) == writes.filter(|w: BufferedWrite| closes(w)).len(),
    decreases writes.len(),
{
    let pred = |w: BufferedWrite| closes(w);
    if writes.len() == 0 {
        writes.lemma_all_neg_filter_empty(pred);
    } else {
        let init = writes.drop_last();
        lemma_closing_writes(init);
        assert(writes =~= init.push(writes.last()));
        init.lemma_filter_push(writes.last(), pred);
    }
}

/// A frame holds the begin marker of its transaction, each write as the
/// operation of its own kind, at its own place, and the commit marker with the
/// number of writes and the commit timestamp. The writes that close a version
/// take the given ids one after the other.
pub proof fn lemma_frame_holds_its_writes(
    tx: WriteTransaction,
    commit_timestamp: i64,
    ids: Vec<VersionId>,
    frame: Vec<WalOperation>,
    i: int,
)
    requires
        call_ensures(build_frame, (&tx, commit_timestamp, &ids), frame),
    ensures
        frame@.len() == tx.buffer@.len() + 2,
        frame@[0] == (WalOperation::BeginTx { tx_id: tx.tx_id }),
        frame@.last() matches WalOperation::CommitTx { tx_id, entry_count, commit_timestamp: at }
            && tx_id == tx.tx_id && at == commit_timestamp && entry_count == tx.buffer@.len()
            % 0x1_0000_0000,
        0 <= i < tx.buffer@.len() ==> ({
            let k = tx.buffer@.take(i).filter(|w: BufferedWrite| closes(w)).len() as int;
            let version_id = if k < ids@.len() {
                Some(ids@[k])
            } else {
                None
            };
            frame@[i + 1] == match tx.buffer@[i] {
                BufferedWrite::CreateNode { node_id, content } => WalOperation::CreateNode {
                    node_id,
                    content,
                },
                BufferedWrite::CreateEdge { edge_id, content } => WalOperation::CreateEdge {
                    edge_id,
                    content,
                },
                BufferedWrite::UpdateNode { node_id, content } => WalOperation::UpdateNode {
                    node_id,
                    content,
                },
                BufferedWrite::UpdateEdge { edge_id, content } => WalOperation::UpdateEdge {
                    edge_id,
                    content,
                },
                BufferedWrite::DeleteNode { node_id, content } => WalOperation::DeleteNode {
                    node_id,
                    content,
                    version_id,
                },
                BufferedWrite::DeleteEdge { edge_id, content } => WalOperation::DeleteEdge {
                    edge_id,
                    content,
                    version_id,
                },
                BufferedWrite::RetractNode { node_id, content } => WalOperation::RetractNode {
                    node_id,
                    content,
                    version_id,
                },
                BufferedWrite::RetractEdge { edge_id, content } => WalOperation::RetractEdge {
                    edge_id,
                    content,
                    version_id,
                },
            }
        }),
{
    lemma_frame_shape(tx.tx_id, tx.buffer@, ids@, commit_timestamp);
    if 0 <= i < tx.buffer@.len() {
        lemma_closing_writes(tx.buffer@.take(i));
        let whole = frame_of(tx.tx_id, tx.buffer@, ids@, commit_timestamp);
        assert(whole[i + 1] == frame@[i + 1]);
    }
}

/// A write can be read back from the frame: two transactions with the same
/// frame had the same writes.
pub proof fn lemma_frames_tell_transactions_apart(
    a: WriteTransaction,
    b: WriteTransaction,
    at_a: i64,
    at_b: i64,
    ids_a: Vec<VersionId>,
    ids_b: Vec<VersionId>,
    frame_a: Vec<WalOperation>,
    frame_b: Vec<WalOperation>,
)
    requires
        call_ensures(build_frame, (&a, at_a, &ids_a), frame_a),
        call_ensures(build_frame, (&b, at_b, &ids_b), frame_b),
        frame_a@ == frame_b@,
    ensures
        a.tx_id == b.tx_id,
        a.buffer@ == b.buffer@,
        at_a == at_b,
{
    lemma_frame_holds_its_writes(a, at_a, ids_a, frame_a, 0);
    lemma_frame_holds_its_writes(b, at_b, ids_b, frame_b, 0);
    assert forall|i: int| 0 <= i < a.buffer@.len() implies a.buffer@[i] == b.buffer@[i] by {
        lemma_frame_holds_its_writes(a, at_a, ids_a, frame_a, i);
        lemma_frame_holds_its_writes(b, at_b, ids_b, frame_b, i);
    }
    assert(a.buffer@ =~= b.buffer@);
}

/// Stamping gives an id to the operations that delete or retract something,
/// and leaves every other operation and every other field alone.
pub proof fn lemma_stamping_sets_the_version_only(
    op: WalOperation,
    id: Option<VersionId>,
    stamped: WalOperation,
    closing: bool,
)
    requires
        call_ensures(WalOperation::stamped, (op, id), stamped),
        call_ensures(WalOperation::closes_version, (&op,), closing),
    ensures
        match op {
            WalOperation::DeleteNode { node_id, content, .. } => closing && stamped == (
            WalOperation::DeleteNode { node_id, content, version_id: id }),
            WalOperation::DeleteEdge { edge_id, content, .. } => closing && stamped == (
            WalOperation::DeleteEdge { edge_id, content, version_id: id }),
            WalOperation::RetractNode { node_id, content, .. } => closing && stamped == (
            WalOperation::RetractNode { node_id, content, version_id: id }),
            WalOperation::RetractEdge { edge_id, content, .. } => closing && stamped == (
            WalOperation::RetractEdge { edge_id, content, version_id: id }),
            WalOperation::BeginTx { .. } => !closing && stamped == op,
            WalOperation::CommitTx { .. } => !closing && stamped == op,
            WalOperation::CreateNode { .. } => !closing && stamped == op,
            WalOperation::CreateEdge { .. } => !closing && stamped == op,
            WalOperation::UpdateNode { .. } => !closing && stamped == op,
            WalOperation::UpdateEdge { .. } => !closing && stamped == op,
        },
{
}

} // verus!
