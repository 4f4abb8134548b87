//! Errors of the write-ahead log.

use vstd::prelude::*;

use crate::text::{concat2, concat3, decimal, show_usize};

verus! {

/// What can go wrong in the storage layer.
#[derive(Debug, Clone, PartialEq, Eq)]
pub enum StorageError {
    /// An operation of the log failed.
    WalError { reason: String },
    /// Something was larger than its limit.
    CapacityExceeded { resource: String, current: usize, limit: usize },
    /// A thread died while it held a lock; the protected state is unusable.
    LockPoisoned { reason: String },
    /// An encryption keyring was to be installed on an encrypted log.
    WalKeyringAlreadyInstalled { reason: String },
    /// An encryption keyring was to be removed from a plaintext log.
    WalKeyringNotInstalled { reason: String },
}

/// An error of the log.
#[derive(Debug, Clone, PartialEq, Eq)]
pub enum Error {
    Storage(StorageError),
    Other(String),
}

/// The value of an [`Error`].
#[verifier::ext_equal]
pub ghost enum ErrorView {
    Wal(Seq<char>),
    Capacity { resource: Seq<char>, current: usize, limit: usize },
    LockPoisoned(Seq<char>),
    KeyringAlreadyInstalled(Seq<char>),
    KeyringNotInstalled(Seq<char>),
    Other(Seq<char>),
}

impl View for Error {
    type V = ErrorView;

    open spec fn view(&self) -> ErrorView {
        match self {
            Error::Storage(StorageError::WalError { reason }) => ErrorView::Wal(reason@),
            Error::Storage(
                StorageError::CapacityExceeded { resource, current, limit },
            ) => ErrorView::Capacity { resource: resource@, current: *current, limit: *limit },
            Error::Storage(StorageError::LockPoisoned { reason }) => ErrorView::LockPoisoned(
                reason@,
            ),
            Error::Storage(
                StorageError::WalKeyringAlreadyInstalled { reason },
            ) => ErrorView::KeyringAlreadyInstalled(reason@),
            Error::Storage(
                StorageError::WalKeyringNotInstalled { reason },
            ) => ErrorView::KeyringNotInstalled(reason@),
            Error::Other(reason) => ErrorView::Other(reason@),
        }
    }
}

/// The text of an error.
pub open spec fn message_of(error: ErrorView) -> Seq<char> {
    match error {
        ErrorView::Wal(reason) => reason,
        ErrorView::Capacity { resource, current, limit } => "Capacity exceeded for "@ + resource
            + ": "@ + decimal(current as nat) + " > "@ + decimal(limit as nat),
        ErrorView::LockPoisoned(reason) => reason,
        ErrorView::KeyringAlreadyInstalled(reason) => reason,
        ErrorView::KeyringNotInstalled(reason) => reason,
        ErrorView::Other(reason) => reason,
    }
}

impl Error {
    /// An error of the log with the given reason.
    pub fn wal(reason: String) -> (error: Self)
        ensures
            error@ == ErrorView::Wal(reason@),
    {
        Error::Storage(StorageError::WalError { reason })
    }

    /// An error that only has a text.
    pub fn other(reason: String) -> (error: Self)
        ensures
            error@ == ErrorView::Other(reason@),
    {
        Error::Other(reason)
    }

    /// The text of the error.
    pub fn message(&self) -> (text: String)
        ensures
            text@ == message_of(self@),
    {
        match self {
            Error::Storage(StorageError::WalError { reason }) => reason.clone(),
            Error::Storage(StorageError::CapacityExceeded { resource, current, limit }) => {
                let head = concat2("Capacity exceeded for ", resource.as_str());
                let current = show_usize(*current);
                let limit = show_usize(*limit);
                let head = concat3(head.as_str(), ": ", current.as_str());
                concat3(head.as_str(), " > ", limit.as_str())
            },
            Error::Storage(StorageError::LockPoisoned { reason }) => reason.clone(),
            Error::Storage(
                StorageError::WalKeyringAlreadyInstalled { reason },
            ) => reason.clone(),
            Error::Storage(StorageError::WalKeyringNotInstalled { reason }) => reason.clone(),
            Error::Other(reason) => reason.clone(),
        }
    }

    /// Whether the error says that a lock was poisoned.
    pub fn is_lock_poisoned(&self) -> (poisoned: bool)
        ensures
            poisoned == (self@ is LockPoisoned),
    {
        match self {
            Error::Storage(StorageError::LockPoisoned { .. }) => true,
            _ => false,
        }
    }
}

} // verus!
