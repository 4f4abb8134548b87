//! Frames, group-commit epochs and the text of errors.

use aletheia_wal::group_commit::GroupCommitConfig;
use aletheia_wal::text::{show_u64, show_usize};
use aletheia_wal::transaction::build_frame;
use aletheia_wal::{
    BufferedWrite, ContentId, Error, FlushNotifier, GroupCommitCoordinator, LockSite,
    StorageError, VersionId, WalOperation, WriteTransaction, DEFAULT_ACQUIRE_TIMEOUT_MS,
};

fn coordinator() -> GroupCommitCoordinator {
    GroupCommitCoordinator::with_config(GroupCommitConfig {
        max_delay_ms: 5,
        max_batch_size: 2,
        acquire_timeout_ms: 1_000,
    })
}

#[test]
fn a_frame_stamps_every_closing_operation() {
    let content = ContentId(3);
    let tx = WriteTransaction {
        tx_id: 9,
        buffer: vec![
            BufferedWrite::CreateNode { node_id: 1, content },
            BufferedWrite::DeleteNode { node_id: 2, content },
            BufferedWrite::UpdateEdge { edge_id: 3, content },
            BufferedWrite::RetractEdge { edge_id: 4, content },
            BufferedWrite::DeleteEdge { edge_id: 5, content },
        ],
    };
    let frame = build_frame(&tx, -4, &vec![VersionId(70), VersionId(71)]);
    assert_eq!(
        frame,
        vec![
            WalOperation::BeginTx { tx_id: 9 },
            WalOperation::CreateNode { node_id: 1, content },
            WalOperation::DeleteNode { node_id: 2, content, version_id: Some(VersionId(70)) },
            WalOperation::UpdateEdge { edge_id: 3, content },
            WalOperation::RetractEdge { edge_id: 4, content, version_id: Some(VersionId(71)) },
            WalOperation::DeleteEdge { edge_id: 5, content, version_id: None },
            WalOperation::CommitTx { tx_id: 9, entry_count: 5, commit_timestamp: -4 },
        ]
    );
}

#[test]
fn epochs_advance_over_contiguous_finishes() {
    let mut gc = coordinator();
    assert_eq!(gc.register_transaction(), Ok((1, false)));
    assert_eq!(gc.register_transaction(), Ok((1, true)), "two transactions fill the batch");
    assert_eq!(gc.current_batch_size(), Ok(2));
    assert_eq!(gc.start_flush(), Ok(1));
    assert_eq!(gc.current_batch_size(), Ok(0));
    assert_eq!(gc.register_transaction(), Ok((2, false)));
    assert_eq!(gc.start_flush(), Ok(2));

    // A later epoch that finishes first waits for the one before it.
    gc.finish_flush(2, Ok(())).unwrap();
    assert_eq!(gc.flushed_epoch(), Ok(0));
    assert!(gc.wait_for_flush(2, 0).is_none());
    gc.finish_flush(1, Err(Error::other("lost".to_string()))).unwrap();
    assert_eq!(gc.flushed_epoch(), Ok(2));
    assert_eq!(gc.wait_for_flush(2, 0), Some(Ok(())));
    let lost = gc.wait_for_flush(1, 0).expect("over").unwrap_err();
    assert!(lost.message().contains("lost"));
}

#[test]
fn waiting_for_an_epoch_times_out() {
    let gc = coordinator();
    assert!(gc.wait_for_flush(1, 999).is_none());
    let error = gc.wait_for_flush(1, 1_000).expect("over").unwrap_err();
    assert!(error.message().contains("epoch 1 timed out after 1000 ms"));
    assert_eq!(GroupCommitConfig::default().acquire_timeout_ms, DEFAULT_ACQUIRE_TIMEOUT_MS);
}

#[test]
fn a_refused_acquisition_changes_nothing_and_passes() {
    let mut gc = coordinator();
    gc.refuse_next(LockSite::Register);
    assert!(gc.register_transaction().is_err());
    assert_eq!(gc.register_transaction(), Ok((1, false)));
    gc.refuse_next(LockSite::Frontier);
    assert!(!gc.flushed_epoch().unwrap_err().is_lock_poisoned());
    assert_eq!(gc.flushed_epoch(), Ok(0));
    gc.poison();
    assert!(gc.flushed_epoch().unwrap_err().is_lock_poisoned());
    assert!(gc.flushed_epoch().is_err(), "poison does not pass");
}

#[test]
fn errors_have_a_text() {
    assert_eq!(Error::other("plain".to_string()).message(), "plain");
    assert!(Error::wal("why".to_string()).message().contains("why"));
    let full = Error::Storage(StorageError::CapacityExceeded {
        resource: "WAL entry".to_string(),
        current: 12,
        limit: 10,
    });
    assert!(full.message().contains("WAL entry"));
    assert!(full.message().contains("12") && full.message().contains("10"));
    let poisoned = Error::Storage(StorageError::LockPoisoned { reason: "died".to_string() });
    assert!(poisoned.is_lock_poisoned());
    assert!(!full.is_lock_poisoned());
}

#[test]
fn numbers_are_written_in_decimal() {
    assert_eq!(show_u64(0), "0");
    assert_eq!(show_u64(1_024), "1024");
    assert_eq!(show_u64(u64::MAX), "18446744073709551615");
    assert_eq!(show_usize(907), "907");
}

#[test]
fn a_signal_is_taken_once_and_a_timeout_is_no_signal() {
    let mut notifier = FlushNotifier::new();
    assert!(!notifier.take_signal());
    notifier.notify();
    assert!(notifier.take_signal());
    assert!(!notifier.take_signal());
    notifier.notify();
    assert!(notifier.after_wait(false));
    notifier.notify();
    assert!(!notifier.after_wait(true));
    assert!(!notifier.take_signal(), "the wait consumed the signal");
}
