//! The operations that the log records.

use vstd::prelude::*;

use crate::error::{Error, ErrorView, StorageError};
use crate::lsn::LSN;

verus! {

/// The id of a historical version.
#[derive(Debug, Clone, Copy, PartialEq, Eq, Structural)]
pub struct VersionId(pub u64);

/// The handle under which the storage layer keeps what an operation carries:
/// its label, properties, times and provenance.
#[derive(Debug, Clone, Copy, PartialEq, Eq, Structural)]
pub struct ContentId(pub u64);

/// One operation of the log.
#[derive(Debug, Clone, Copy, PartialEq, Eq, Structural)]
pub enum WalOperation {
    /// A transaction begins.
    BeginTx { tx_id: u64 },
    /// A transaction has been logged in full.
    CommitTx { tx_id: u64, entry_count: u32, commit_timestamp: i64 },
    CreateNode { node_id: u64, content: ContentId },
    CreateEdge { edge_id: u64, content: ContentId },
    UpdateNode { node_id: u64, content: ContentId },
    UpdateEdge { edge_id: u64, content: ContentId },
    DeleteNode { node_id: u64, content: ContentId, version_id: Option<VersionId> },
    DeleteEdge { edge_id: u64, content: ContentId, version_id: Option<VersionId> },
    RetractNode { node_id: u64, content: ContentId, version_id: Option<VersionId> },
    RetractEdge { edge_id: u64, content: ContentId, version_id: Option<VersionId> },
}

/// Whether `op` closes a version, so that it carries the id of the closing one.
pub open spec fn closes_version(op: WalOperation) -> bool {
    op is DeleteNode || op is DeleteEdge || op is RetractNode || op is RetractEdge
}

/// `op` with the id of its closing version; operations that close none stay as
/// they are.
pub open spec fn stamped(op: WalOperation, id: Option<VersionId>) -> WalOperation {
    match op {
        WalOperation::DeleteNode { node_id, content, .. } => WalOperation::DeleteNode {
            node_id,
            content,
            version_id: id,
        },
        WalOperation::DeleteEdge { edge_id, content, .. } => WalOperation::DeleteEdge {
            edge_id,
            content,
            version_id: id,
        },
        WalOperation::RetractNode { node_id, content, .. } => WalOperation::RetractNode {
            node_id,
            content,
            version_id: id,
        },
        WalOperation::RetractEdge { edge_id, content, .. } => WalOperation::RetractEdge {
            edge_id,
            content,
            version_id: id,
        },
        _ => op,
    }
}

impl WalOperation {
    /// Whether the operation closes a version.
    pub fn closes_version(&self) -> (closes: bool)
        ensures
            closes == closes_version(*self),
    {
        match self {
            WalOperation::DeleteNode { .. } => true,
            WalOperation::DeleteEdge { .. } => true,
            WalOperation::RetractNode { .. } => true,
            WalOperation::RetractEdge { .. } => true,
            _ => false,
        }
    }

    /// The operation with the id of its closing version.
    pub fn stamped(self, id: Option<VersionId>) -> (op: WalOperation)
        ensures
            op == stamped(self, id),
    {
        match self {
            WalOperation::DeleteNode { node_id, content, .. } => WalOperation::DeleteNode {
                node_id,
                content,
                version_id: id,
            },
            WalOperation::DeleteEdge { edge_id, content, .. } => WalOperation::DeleteEdge {
                edge_id,
                content,
                version_id: id,
            },
            WalOperation::RetractNode { node_id, content, .. } => WalOperation::RetractNode {
                node_id,
                content,
                version_id: id,
            },
            WalOperation::RetractEdge { edge_id, content, .. } => WalOperation::RetractEdge {
                edge_id,
                content,
                version_id: id,
            },
            other => other,
        }
    }
}

/// How operations become bytes: an estimate of the size, the serializer, and
/// the size that no entry may exceed.
///
/// The serializer stamps the entry with the time of the call, so two calls on
/// one operation may differ.
pub struct EntryCodec<E, S> {
    pub estimate: E,
    pub serialize: S,
    pub limit: usize,
}

impl<E, S> EntryCodec<E, S> where
    E: Fn(&WalOperation) -> usize,
    S: Fn(LSN, &WalOperation) -> Result<Vec<u8>, Error>,
 {
    /// Whether the two functions may be called on every operation.
    pub open spec fn total(&self) -> bool {
        &&& forall|op: &WalOperation| #[trigger] call_requires(self.estimate, (op,))
        &&& forall|lsn: LSN, op: &WalOperation| #[trigger] call_requires(self.serialize, (lsn, op))
    }

    /// Whether serializing `op` at `lsn` may end in `encoded`: an operation
    /// that is estimated above the limit is refused without being serialized,
    /// and any other gives what the serializer gives.
    pub open spec fn encodes(
        &self,
        lsn: LSN,
        op: WalOperation,
        encoded: Result<Vec<u8>, Error>,
    ) -> bool {
        exists|size: usize| #[trigger]
            call_ensures(self.estimate, (&op,), size) && if size > self.limit {
                encoded matches Err(error) && error@ == oversized(size, self.limit)
            } else {
                call_ensures(self.serialize, (lsn, &op), encoded)
            }
    }

    /// Serialize an entry to bytes.
    pub fn serialize_entry(&self, lsn: LSN, operation: &WalOperation) -> (encoded: Result<
        Vec<u8>,
        Error,
    >)
        requires
            self.total(),
        ensures
            self.encodes(lsn, *operation, encoded),
    {
        let size: usize = (self.estimate)(operation);
        if size > self.limit {
            return Err(
                Error::Storage(
                    StorageError::CapacityExceeded {
                        resource: "WAL entry size".to_string(),
                        current: size,
                        limit: self.limit,
                    },
                ),
            );
        }
        (self.serialize)(lsn, operation)
    }
}

/// The error of an entry that is larger than the limit.
pub open spec fn oversized(size: usize, limit: usize) -> ErrorView {
    ErrorView::Capacity { resource: "WAL entry size"@, current: size, limit }
}

} // verus!
