//! The ring buffer, its deadlines and the completion board.

use aletheia_wal::{
    AppendBlocked, AppendBlockedKind, AppendDeadline, BackpressureConfig, BlockedTurn,
    ClaimOutcome, CompletionBoard, CompletionHandle, CompletionNotifier, PendingEntry, SpinBackoff,
    WalRingBuffer, DEFAULT_RING_BUFFER_CAPACITY, LSN,
};

const MS: u64 = 1_000_000;

fn entry(lsn: u64, data: Vec<u8>) -> PendingEntry {
    PendingEntry::new_async(LSN(lsn), data)
}

/// Fill a fresh buffer of two slots.
fn full_pair() -> WalRingBuffer {
    let mut buf = WalRingBuffer::new(2);
    for i in 0..2 {
        buf.try_append(entry(i, vec![i as u8]))
            .expect("filling a fresh capacity-2 buffer must succeed");
    }
    buf
}

/// Drive a bounded append to its end, on a clock that the naps advance.
fn append_until(
    buf: &mut WalRingBuffer,
    first: PendingEntry,
    deadline: &mut AppendDeadline,
    now: &mut u64,
) -> Result<(), AppendBlocked> {
    let config = BackpressureConfig::default();
    let mut current = first;
    let mut backoff = SpinBackoff::new(&config);
    let mut sleep_us = config.base_sleep_us;
    loop {
        match buf.append_blocking_until(current, deadline, &mut backoff, sleep_us, *now) {
            Ok(()) => return Ok(()),
            Err(BlockedTurn::Refused(blocked)) => return Err(blocked),
            Err(BlockedTurn::Spin { entry }) => current = entry,
            Err(BlockedTurn::Wait { entry, nap_ns, next_sleep_us }) => {
                *now += nap_ns.unwrap_or(1);
                current = entry;
                sleep_us = next_sleep_us;
            }
        }
    }
}

#[test]
fn test_completion_notifier_success() {
    let mut notifier = CompletionNotifier::new();
    assert!(!notifier.is_complete());
    assert!(notifier.wait().is_none());

    notifier.notify_success();
    assert!(notifier.is_complete());

    assert!(notifier.wait().expect("answered").is_ok());
}

#[test]
fn test_completion_notifier_error() {
    let mut notifier = CompletionNotifier::new();

    notifier.notify_error("test error");
    assert!(notifier.is_complete());

    let result = notifier.wait().expect("answered");
    assert!(result.is_err());
    assert_eq!(result.unwrap_err(), "test error");
}

#[test]
fn completion_defaults_to_pending() {
    assert!(!CompletionNotifier::default().is_complete());
}

#[test]
fn completion_wait_times_out_with_the_elapsed_time() {
    let mut notifier = CompletionNotifier::new();
    assert!(notifier.wait_timeout(99 * MS, 100 * MS).is_none());

    let message = notifier
        .wait_timeout(150 * MS, 100 * MS)
        .expect("the time is up")
        .unwrap_err();
    assert_eq!(
        message,
        "Completion wait timed out after 150ms; durability status UNKNOWN: the entry was \
         appended and the background flusher may still make it durable (see Issue #3799)"
    );

    // A completion beats the timeout.
    notifier.notify_success();
    assert!(notifier.wait_timeout(150 * MS, 100 * MS).expect("answered").is_ok());
}

#[test]
fn a_forgotten_waiter_is_answered_with_an_unknown_error() {
    let mut board = CompletionBoard::new();
    let handle = board.register();
    assert!(handle.wait(&board).is_none());
    board.forget(handle);
    assert!(handle.is_complete(&board));
    assert_eq!(handle.wait(&board).expect("answered").unwrap_err(), "Unknown error");
    assert_eq!(
        handle.wait_timeout(&board, 0, MS).expect("answered").unwrap_err(),
        "Unknown error"
    );
}

#[test]
fn test_completion_handle_wait() {
    let mut board = CompletionBoard::new();
    let handle = board.register();
    assert!(handle.wait(&board).is_none(), "the waiter parks until notified");

    board.notify_success(handle.0);
    assert!(handle.wait(&board).expect("answered").is_ok());
}

#[test]
fn test_completion_notifier_multiple_waiters() {
    let mut board = CompletionBoard::new();
    let handle = board.register();
    let waiters: Vec<CompletionHandle> = (0..10).map(|_| handle).collect();
    for h in &waiters {
        assert!(h.wait(&board).is_none());
    }
    board.notify_success(handle.0);
    for h in waiters {
        h.wait(&board).expect("answered").unwrap();
    }
}

#[test]
fn test_backpressure_config_equal_spins() {
    let config = BackpressureConfig {
        initial_spins: 10,
        max_spins: 10,
        base_sleep_us: 1,
        max_sleep_us: 10,
    };
    let _ = WalRingBuffer::with_config(1024, config);
}

#[test]
fn test_backpressure_config_default() {
    let config = BackpressureConfig::default();
    assert_eq!(config.initial_spins, 10);
    assert_eq!(config.max_spins, 1000);
    assert_eq!(config.base_sleep_us, 1);
    assert_eq!(config.max_sleep_us, 1000);
}

#[test]
fn test_backpressure_config_presets() {
    let low_latency = BackpressureConfig::low_latency();
    assert!(low_latency.initial_spins > BackpressureConfig::default().initial_spins);
    assert!(low_latency.max_sleep_us < BackpressureConfig::default().max_sleep_us);

    let high_throughput = BackpressureConfig::high_throughput();
    assert!(high_throughput.initial_spins < BackpressureConfig::default().initial_spins);
    assert!(high_throughput.max_sleep_us > BackpressureConfig::default().max_sleep_us);
}

#[test]
fn backpressure_validation_names_the_fault() {
    let mut config = BackpressureConfig::default();
    assert!(config.validate().is_ok());
    config.initial_spins = 0;
    assert_eq!(
        config.validate().unwrap_err(),
        "initial_spins must be > 0 to prevent infinite spin loops"
    );
    config.initial_spins = 100;
    config.max_spins = 10;
    assert_eq!(config.validate().unwrap_err(), "max_spins must be >= initial_spins");
}

#[test]
fn sleeps_double_up_to_the_maximum() {
    let config = BackpressureConfig::default();
    let mut sleep_us = config.base_sleep_us;
    let mut seen = vec![sleep_us];
    for _ in 0..11 {
        sleep_us = config.next_sleep(sleep_us);
        seen.push(sleep_us);
    }
    assert_eq!(seen, vec![1, 2, 4, 8, 16, 32, 64, 128, 256, 512, 1000, 1000]);
    assert_eq!(config.next_sleep(u64::MAX), 1000);
}

#[test]
fn spin_rounds_double_before_giving_up() {
    let config = BackpressureConfig {
        initial_spins: 2,
        max_spins: 8,
        base_sleep_us: 0,
        max_sleep_us: 0,
    };
    let mut backoff = SpinBackoff::new(&config);
    let mut full = 1;
    while backoff.spin() {
        full += 1;
    }
    assert_eq!(full, 2 + 4 + 8);
}

#[test]
fn test_ring_buffer_capacity_rounding() {
    let buf = WalRingBuffer::new(100);
    assert_eq!(buf.capacity(), 128);

    let buf = WalRingBuffer::new(64);
    assert_eq!(buf.capacity(), 64);

    let buf = WalRingBuffer::new(1);
    assert_eq!(buf.capacity(), 1);

    assert_eq!(WalRingBuffer::with_default_capacity().capacity(), DEFAULT_RING_BUFFER_CAPACITY);
}

#[test]
fn test_ring_buffer_single_thread() {
    let mut buf = WalRingBuffer::new(16);

    for i in 0..10 {
        assert!(buf.try_append(entry(i, vec![i as u8])).is_ok());
    }

    assert_eq!(buf.len_approx(), 10);

    let entries = buf.drain();
    assert_eq!(entries.len(), 10);

    for (i, entry) in entries.iter().enumerate() {
        assert_eq!(entry.lsn, LSN(i as u64));
        assert_eq!(entry.data, vec![i as u8]);
    }

    assert!(buf.is_empty_approx());
}

#[test]
fn test_ring_buffer_full() {
    let mut buf = WalRingBuffer::new(4);

    for i in 0..4 {
        assert!(buf.try_append(entry(i, vec![])).is_ok());
    }

    let back = buf.try_append(entry(4, vec![9])).unwrap_err();
    assert_eq!(back.lsn, LSN(4));
    assert_eq!(back.data, vec![9]);
}

#[test]
fn a_single_slot_is_never_overwritten() {
    let mut buf = WalRingBuffer::new(1);
    assert!(buf.try_append(entry(1, vec![1])).is_ok());
    assert!(buf.try_append(entry(2, vec![2])).is_err());

    let entries = buf.drain();
    assert_eq!(entries.len(), 1);
    assert_eq!(entries[0].lsn, LSN(1));
    assert!(buf.drain().is_empty());
    assert!(buf.try_append(entry(3, vec![3])).is_ok());
    assert_eq!(buf.drain()[0].lsn, LSN(3));
}

#[test]
fn test_ring_buffer_closed() {
    let mut buf = WalRingBuffer::new(16);

    buf.close();
    assert!(buf.is_closed());

    assert!(buf.try_append(entry(0, vec![])).is_err());
}

#[test]
fn closing_keeps_what_was_appended() {
    let mut buf = full_pair();
    buf.close();
    let lsns: Vec<LSN> = buf.drain().iter().map(|e| e.lsn).collect();
    assert_eq!(lsns, vec![LSN(0), LSN(1)]);
}

#[test]
fn test_ring_buffer_drain_empty() {
    let mut buf = WalRingBuffer::new(16);

    let entries = buf.drain();
    assert!(entries.is_empty());
}

#[test]
fn test_pending_entry_sync_mode() {
    let mut board = CompletionBoard::new();
    let (entry, handle) = PendingEntry::new_sync(LSN(42), vec![1, 2, 3], &mut board);

    assert_eq!(entry.lsn, LSN(42));
    assert_eq!(entry.data, vec![1, 2, 3]);
    assert!(entry.completion.is_some());
    assert!(!handle.is_complete(&board));

    entry.notify_completion(&mut board);
    assert!(handle.is_complete(&board));
}

#[test]
fn every_waiter_has_a_ticket_of_its_own() {
    let mut board = CompletionBoard::new();
    // Two entries with the same LSN are still two entries.
    let (first, first_handle) = PendingEntry::new_sync(LSN(1), vec![], &mut board);
    let (second, second_handle) = PendingEntry::new_sync(LSN(1), vec![], &mut board);
    assert_ne!(first_handle, second_handle);
    second.notify_completion(&mut board);
    assert!(!first_handle.is_complete(&board));
    assert!(second_handle.wait(&board).expect("answered").is_ok());
    first.notify_error(&mut board, "late");
    assert_eq!(first_handle.wait(&board).expect("answered").unwrap_err(), "late");
    assert!(second_handle.wait(&board).expect("answered").is_ok());

    // A later waiter does not disturb a forgotten one.
    board.forget(first_handle);
    let third = board.register();
    assert_ne!(third, first_handle);
    assert!(first_handle.is_complete(&board));
    assert!(!third.is_complete(&board));
}

#[test]
fn an_entry_error_reaches_its_waiter_only() {
    let mut board = CompletionBoard::new();
    let (first, first_handle) = PendingEntry::new_sync(LSN(1), vec![], &mut board);
    let (_second, second_handle) = PendingEntry::new_sync(LSN(2), vec![], &mut board);
    first.notify_error(&mut board, "disk full");
    assert_eq!(first_handle.wait(&board).expect("answered").unwrap_err(), "disk full");
    assert!(!second_handle.is_complete(&board));
}

#[test]
fn test_ring_buffer_slot_reuse() {
    let mut buf = WalRingBuffer::new(4);

    for i in 0..4 {
        assert!(buf.try_append(entry(i, vec![i as u8])).is_ok());
    }
    let entries = buf.drain();
    assert_eq!(entries.len(), 4);

    for i in 4..8 {
        assert!(buf.try_append(entry(i, vec![i as u8])).is_ok());
    }
    let entries = buf.drain();
    assert_eq!(entries.len(), 4);

    for (i, entry) in entries.iter().enumerate() {
        assert_eq!(entry.lsn, LSN((i + 4) as u64));
    }
}

#[test]
fn test_ring_buffer_many_cycles() {
    let mut buf = WalRingBuffer::new(4);

    for cycle in 0..1000u64 {
        for i in 0..4 {
            let lsn = cycle * 4 + i;
            assert!(
                buf.try_append(entry(lsn, vec![(lsn % 256) as u8])).is_ok(),
                "Failed at cycle {}, entry {}",
                cycle,
                i
            );
        }

        let entries = buf.drain();
        assert_eq!(entries.len(), 4, "Drain failed at cycle {}", cycle);

        for (i, entry) in entries.iter().enumerate() {
            assert_eq!(
                entry.lsn,
                LSN(cycle * 4 + i as u64),
                "Wrong LSN at cycle {}, entry {}",
                cycle,
                i
            );
        }
    }
}

#[test]
fn test_ring_buffer_interleaved_append_drain() {
    let mut buf = WalRingBuffer::new(8);

    for cycle in 0..10u64 {
        for i in 0..3 {
            assert!(buf.try_append(entry(cycle * 3 + i, vec![])).is_ok());
        }

        let entries = buf.drain();
        assert_eq!(entries.len(), 3);
    }
}

#[test]
fn test_ring_buffer_with_custom_backpressure() {
    let config = BackpressureConfig {
        initial_spins: 5,
        max_spins: 50,
        base_sleep_us: 10,
        max_sleep_us: 100,
    };
    let mut buf = WalRingBuffer::with_config(4, config);

    assert!(buf.try_append(entry(1, vec![1, 2, 3])).is_ok());

    let entries = buf.drain();
    assert_eq!(entries.len(), 1);
}

#[test]
fn test_backpressure_exponential_spin() {
    let config = BackpressureConfig {
        initial_spins: 2,
        max_spins: 8,
        base_sleep_us: 0,
        max_sleep_us: 0,
    };
    let mut buf = WalRingBuffer::with_config(2, config);

    buf.try_append(entry(1, vec![])).unwrap();
    buf.try_append(entry(2, vec![])).unwrap();

    let result = buf.try_append(entry(3, vec![]));
    assert!(result.is_err());
}

#[test]
fn without_a_base_sleep_the_writer_yields() {
    let config = BackpressureConfig {
        initial_spins: 2,
        max_spins: 8,
        base_sleep_us: 0,
        max_sleep_us: 0,
    };
    let mut buf = WalRingBuffer::with_config(1, config);
    buf.try_append(entry(1, vec![])).unwrap();
    let mut backoff = SpinBackoff::new(&config);
    let mut current = entry(2, vec![]);
    let mut spins = 0;
    loop {
        match buf.append_blocking(current, &mut backoff, 0) {
            Err(BlockedTurn::Spin { entry }) => {
                spins += 1;
                current = entry;
            }
            Err(BlockedTurn::Wait { entry, nap_ns, next_sleep_us }) => {
                assert_eq!(entry.lsn, LSN(2));
                assert_eq!(nap_ns, None);
                assert_eq!(next_sleep_us, 0);
                break;
            }
            other => panic!("expected a wait, got {:?}", other),
        }
    }
    assert_eq!(spins, 2 + 4 + 8 - 1, "the rounds double before the writer yields");
}

#[test]
fn test_drop_safety() {
    let mut board = CompletionBoard::new();
    let mut buf = WalRingBuffer::new(16);
    for i in 0..5 {
        buf.try_append(entry(i, vec![])).unwrap();
    }
    assert_eq!(buf.len_approx(), 5);
    assert_eq!(buf.discard_remaining(&mut board), 5);
    assert!(buf.is_closed());
}

#[test]
fn test_ring_buffer_getters() {
    let mut buf = WalRingBuffer::new(1024);
    assert_eq!(buf.capacity(), 1024);
    assert!(!buf.is_closed());
    buf.close();
    assert!(buf.is_closed());
}

#[test]
fn test_wraparound_append_no_panic() {
    let mut buf = WalRingBuffer::new(4);

    let start_pos = u64::MAX - 2;
    assert!(buf.restart_at(start_pos));

    for i in 0..4 {
        buf.try_append(entry(i, vec![]))
            .expect("Append should not panic near wraparound");
    }

    let expected_pos = start_pos.wrapping_add(4);
    assert_eq!(buf.write_pos(), expected_pos);
}

#[test]
fn test_wraparound_drain_no_panic() {
    let mut buf = WalRingBuffer::new(4);

    let start_pos = u64::MAX - 2;
    assert!(buf.restart_at(start_pos));

    for i in 0..4 {
        buf.try_append(entry(i, vec![])).expect("Should append");
    }

    let entries = buf.drain();
    assert_eq!(entries.len(), 4, "Should drain all entries near wraparound");

    let expected_pos = start_pos.wrapping_add(4);
    assert_eq!(buf.read_pos(), expected_pos);
}

#[test]
fn test_wraparound_logic() {
    let capacity = 4usize;
    let mut buf = WalRingBuffer::new(capacity);

    let start_pos = u64::MAX - (capacity as u64 / 2);
    assert!(buf.restart_at(start_pos));

    for i in 0..capacity {
        assert!(
            buf.try_append(entry(i as u64, vec![i as u8])).is_ok(),
            "Append should succeed when buffer has space"
        );
    }

    assert!(
        buf.try_append(entry(capacity as u64, vec![])).is_err(),
        "Append should fail when buffer is full across wraparound"
    );

    let entries = buf.drain();
    assert_eq!(
        entries.len(),
        capacity,
        "Should drain all appended entries across wraparound"
    );
    for (i, entry) in entries.iter().enumerate() {
        assert_eq!(entry.data, vec![i as u8]);
    }

    assert!(buf.drain().is_empty(), "Buffer should be empty after draining");

    assert!(buf.try_append(entry(100, vec![100])).is_ok());
    let final_drained = buf.drain();
    assert_eq!(final_drained.len(), 1);
    assert_eq!(final_drained[0].data, vec![100]);
}

#[test]
fn test_havoc_ring_buffer_len_approx_wraparound() {
    let mut buf = WalRingBuffer::new(4);

    let start_pos = u64::MAX - 2;
    assert!(buf.restart_at(start_pos));

    for i in 0..3 {
        buf.try_append(entry(i, vec![])).unwrap();
    }

    assert_eq!(buf.len_approx(), 3);
}

#[test]
fn a_buffer_in_use_does_not_restart() {
    let mut buf = full_pair();
    assert!(!buf.restart_at(77));
    assert_eq!(buf.read_pos(), 0);
    assert_eq!(buf.len_approx(), 2);
}

#[test]
fn test_append_blocking_until_times_out_on_full_buffer() {
    let mut buf = full_pair();
    let mut deadline = AppendDeadline::from_millis(100);
    let mut now = 5 * MS;

    let blocked = append_until(&mut buf, entry(99, vec![7, 7, 7]), &mut deadline, &mut now)
        .expect_err("append must not succeed against a full, undrained buffer");
    match blocked.kind {
        AppendBlockedKind::TimedOut { waited_ns } => assert!(
            waited_ns >= 100 * MS,
            "reported wait ({}) must cover the requested 100ms deadline",
            waited_ns
        ),
        other => panic!("expected AppendBlockedKind::TimedOut, got {:?}", other),
    }
    assert_eq!(now, 105 * MS, "the last nap is clamped to the deadline");
    assert_eq!(blocked.entry.lsn, LSN(99), "the entry must be handed back intact");
    assert_eq!(blocked.entry.data, vec![7, 7, 7]);
}

#[test]
fn test_append_blocking_preserves_closed_semantics() {
    let mut buf = full_pair();
    buf.close();

    let mut deadline = AppendDeadline::from_millis(100);
    let mut now = 0;
    let blocked = append_until(&mut buf, entry(50, vec![1, 2]), &mut deadline, &mut now)
        .expect_err("a closed buffer must refuse the append");
    assert!(
        matches!(blocked.kind, AppendBlockedKind::Closed),
        "a closed buffer must report Closed, not a timeout: {:?}",
        blocked.kind
    );
    assert_eq!(blocked.entry.lsn, LSN(50));
    assert_eq!(blocked.entry.data, vec![1, 2]);

    let mut backoff = SpinBackoff::new(&BackpressureConfig::default());
    match buf.append_blocking(entry(51, vec![3]), &mut backoff, 1) {
        Err(BlockedTurn::Refused(returned)) => {
            assert!(matches!(returned.kind, AppendBlockedKind::Closed));
            assert_eq!(returned.entry.lsn, LSN(51));
            assert_eq!(returned.entry.data, vec![3]);
        }
        other => panic!("a closed buffer must return the entry to the caller: {:?}", other),
    }
}

#[test]
fn test_closed_beats_an_already_elapsed_deadline() {
    let mut buf = full_pair();
    buf.close();

    let mut now = 10 * MS;
    let mut spent = AppendDeadline::already_elapsed(now);
    let blocked = append_until(&mut buf, entry(60, vec![9]), &mut spent, &mut now)
        .expect_err("a closed buffer must refuse the append");
    assert!(matches!(blocked.kind, AppendBlockedKind::Closed));
    assert_eq!(blocked.entry.lsn, LSN(60));
}

#[test]
fn test_deadline_is_not_armed_by_an_append_that_never_blocks() {
    let mut buf = WalRingBuffer::new(4);
    let mut now = 0;

    let mut deadline = AppendDeadline::from_millis(30_000);
    append_until(&mut buf, entry(1, vec![1]), &mut deadline, &mut now)
        .expect("an append into a buffer with room must succeed");
    assert!(!deadline.is_armed());

    let mut full = full_pair();
    let mut bounded = AppendDeadline::from_millis(20);
    let _ = append_until(&mut full, entry(3, vec![3]), &mut bounded, &mut now);
    assert!(bounded.is_armed());
}

#[test]
fn test_shared_deadline_arms_once_across_a_no_progress_sequence() {
    let mut full = full_pair();
    let mut now = 0;

    let mut deadline = AppendDeadline::from_millis(20);
    for i in 0..4u64 {
        let blocked = append_until(&mut full, entry(100 + i, vec![9]), &mut deadline, &mut now)
            .expect_err("nothing drains this buffer, so every attempt must be refused");
        assert!(matches!(blocked.kind, AppendBlockedKind::TimedOut { .. }));
    }

    assert_eq!(deadline.arm_count(), 1);
}

#[test]
fn test_note_progress_restarts_the_stall_window() {
    let mut buf = full_pair();
    let mut now = 0;
    let mut deadline = AppendDeadline::from_millis(20);

    let _ = append_until(&mut buf, entry(70, vec![7]), &mut deadline, &mut now);
    assert_eq!(deadline.arm_count(), 1, "the first stall must arm once");
    assert!(deadline.is_armed());

    drop(buf.drain());
    append_until(&mut buf, entry(71, vec![7]), &mut deadline, &mut now)
        .expect("a drained buffer has room");
    deadline.note_progress();
    assert!(!deadline.is_armed());

    buf.try_append(entry(72, vec![7])).expect("one slot is still free");
    let _ = append_until(&mut buf, entry(73, vec![7]), &mut deadline, &mut now);
    assert_eq!(deadline.arm_count(), 2);
}

#[test]
fn test_absurd_bound_is_treated_as_unbounded_instead_of_panicking() {
    let mut absurd = AppendDeadline::from_millis(u64::MAX);
    assert_eq!(absurd.limit(12), None);

    let mut buf = full_pair();
    let mut deadline = AppendDeadline::from_millis(u64::MAX);
    let mut backoff = SpinBackoff::new(&BackpressureConfig::default());
    while backoff.spin() {}
    match buf.append_blocking_until(
        entry(80, vec![8]),
        &mut deadline,
        &mut backoff,
        1,
        u64::MAX,
    ) {
        Err(BlockedTurn::Wait { entry, nap_ns, .. }) => {
            assert_eq!(nap_ns, Some(1_000));
            drop(buf.drain());
            assert!(buf.try_append(entry).is_ok());
        }
        other => panic!("an absurd bound must block until room appears: {:?}", other),
    }
}

#[test]
fn a_deadline_reports_the_current_stall() {
    let mut deadline = AppendDeadline::from_millis(20);
    assert_eq!(deadline.waited(5), 0);
    assert_eq!(deadline.limit(5), Some(5 + 20 * MS));
    assert_eq!(deadline.limit(9), Some(5 + 20 * MS), "the window is not moved");
    assert_eq!(deadline.armed_at(), Some(5));
    assert_eq!(deadline.waited(12), 7);
    assert_eq!(AppendDeadline::from_millis(0).limit(5), None);
    assert_eq!(AppendDeadline::unbounded().limit(5), None);
}

#[test]
fn test_sentry_dropped_entry_notifies_error() {
    let mut board = CompletionBoard::new();
    let (entry, handle) = PendingEntry::new_sync(LSN(100), vec![], &mut board);

    assert!(!handle.is_complete(&board), "Handle should be pending initially");

    entry.discard(&mut board);

    assert!(
        handle.is_complete(&board),
        "Handle should be complete (error) after entry drop"
    );

    let result = handle.wait(&board).expect("answered");
    assert!(result.is_err(), "Handle should return error");
    let err = result.unwrap_err();
    assert!(err.contains("PendingEntry dropped"), "Error should mention dropped entry");
}

#[test]
fn discarding_a_flushed_entry_keeps_its_success() {
    let mut board = CompletionBoard::new();
    let (entry, handle) = PendingEntry::new_sync(LSN(5), vec![], &mut board);
    entry.notify_completion(&mut board);
    entry.discard(&mut board);
    assert!(handle.wait(&board).expect("answered").is_ok());
}

#[test]
fn test_buffer_drop_notifies_waiters() {
    let mut board = CompletionBoard::new();
    let mut buf = WalRingBuffer::new(16);
    let (entry, handle) = PendingEntry::new_sync(LSN(100), vec![], &mut board);

    buf.try_append(entry).expect("Append should succeed");
    assert!(!handle.is_complete(&board));

    buf.discard_remaining(&mut board);

    let result = handle.wait(&board).expect("answered");
    assert!(result.is_err(), "Waiter should be notified of error on buffer drop");
    let err = result.unwrap_err();
    assert!(
        err.contains("PendingEntry dropped"),
        "Error should identify that entry was dropped"
    );
}

#[test]
fn test_drain_stops_at_gap() {
    let mut buf = WalRingBuffer::new(4);

    // Two writers claim the first two positions; only the second publishes.
    assert_eq!(buf.claim(0), ClaimOutcome::Claimed);
    assert_eq!(buf.claim(1), ClaimOutcome::Claimed);
    buf.publish(1, entry(1, vec![1])).expect("position 1 is claimed");
    assert_eq!(buf.sequence_of(0), Some(0));
    assert_eq!(buf.sequence_of(1), Some(2));

    let drained = buf.drain();
    assert!(
        drained.is_empty(),
        "Drain must stop at gap (slot 0) even if subsequent slots (slot 1) are ready"
    );

    buf.publish(0, entry(0, vec![0])).expect("position 0 is claimed");

    let drained_retry = buf.drain();
    assert_eq!(drained_retry.len(), 2, "Should drain both entries after gap is filled");
    assert_eq!(drained_retry[0].lsn, LSN(0));
    assert_eq!(drained_retry[1].lsn, LSN(1));
}

#[test]
fn test_wraparound_boundary_check() {
    let capacity = 4u64;
    let mut buf = WalRingBuffer::new(capacity as usize);

    // A full buffer whose write position stands exactly at the boundary.
    let boundary = u64::MAX;
    assert!(buf.restart_at(boundary - capacity));
    for i in 0..capacity {
        buf.try_append(entry(i, vec![])).expect("room before the boundary");
    }
    assert_eq!(buf.write_pos(), boundary);

    assert!(
        buf.try_append(entry(1, vec![])).is_err(),
        "Should return error when buffer is full at boundary"
    );

    // The slot becomes available at the boundary.
    assert!(buf.take_next().is_some());
    assert_eq!(buf.sequence_of(boundary), Some(boundary));
    assert!(
        buf.try_append(entry(1, vec![])).is_ok(),
        "Should append successfully when slot is available at boundary"
    );

    assert_eq!(buf.write_pos(), 0);
    assert_eq!(
        buf.sequence_of(boundary),
        Some(0),
        "Sequence should wrap to 0 after write at boundary"
    );
}

#[test]
fn claims_by_slow_writers_are_told_to_retry() {
    let mut buf = WalRingBuffer::new(4);
    assert_eq!(buf.claim(0), ClaimOutcome::Claimed);
    // A second writer that still believes in position 0 lost the race, before
    // and after the first one has published.
    assert_eq!(buf.claim(0), ClaimOutcome::Stale);
    buf.publish(0, entry(0, vec![])).unwrap();
    assert_eq!(buf.claim(0), ClaimOutcome::Stale);
    assert_eq!(buf.claim(1), ClaimOutcome::Claimed);
    // Nobody may publish where nothing was claimed, or twice.
    assert!(buf.publish(2, entry(2, vec![])).is_err());
    assert!(buf.publish(0, entry(9, vec![])).is_err());
    buf.publish(1, entry(1, vec![])).unwrap();
    assert_eq!(buf.claim(2), ClaimOutcome::Claimed);
    assert_eq!(buf.claim(3), ClaimOutcome::Claimed);
    assert_eq!(buf.claim(4), ClaimOutcome::Full);
    // Drained positions do not come back, and nobody gets ahead of the rest.
    assert_eq!(buf.drain().len(), 2);
    assert_eq!(buf.claim(0), ClaimOutcome::Stale);
    assert_eq!(buf.claim(1), ClaimOutcome::Stale);
    assert_eq!(buf.claim(5), ClaimOutcome::Stale);
    assert_eq!(buf.claim(6), ClaimOutcome::Full);
    assert_eq!(buf.claim(4), ClaimOutcome::Claimed);
}

/// A fixed pseudo-random schedule.
fn next_turn(state: &mut u64) -> u64 {
    *state = state.wrapping_mul(6364136223846793005).wrapping_add(1442695040888963407);
    *state >> 33
}

#[test]
fn test_ring_buffer_concurrent_producers() {
    let mut buf = WalRingBuffer::new(1024);
    let num_threads = 8usize;
    let entries_per_thread = 100usize;
    let mut total = 0;

    // Each producer first claims a position and publishes at a later turn.
    let mut held: Vec<Option<u64>> = vec![None; num_threads];
    let mut done = vec![0usize; num_threads];
    let mut schedule = 7;
    while done.iter().any(|d| *d < entries_per_thread) {
        let thread_id = next_turn(&mut schedule) as usize % num_threads;
        if done[thread_id] == entries_per_thread {
            continue;
        }
        match held[thread_id] {
            None => {
                let pos = buf.write_pos();
                assert_eq!(buf.claim(pos), ClaimOutcome::Claimed);
                held[thread_id] = Some(pos);
            }
            Some(pos) => {
                let i = done[thread_id];
                let lsn = (thread_id * entries_per_thread + i) as u64;
                buf.publish(pos, entry(lsn, vec![thread_id as u8, i as u8])).unwrap();
                held[thread_id] = None;
                done[thread_id] += 1;
                total += 1;
            }
        }
    }

    let entries = buf.drain();
    assert_eq!(entries.len(), total);
    assert_eq!(total, num_threads * entries_per_thread);
}

#[test]
fn test_concurrent_append_and_drain() {
    // Small buffer to force contention and wraps
    let mut buf = WalRingBuffer::new(16);
    let num_producers = 4usize;
    let items_per_producer = 1000usize;
    let total_items = num_producers * items_per_producer;

    let mut held: Vec<Option<u64>> = vec![None; num_producers];
    let mut done = vec![0usize; num_producers];
    let mut last_seen = vec![None; num_producers];
    let mut drained_count = 0;
    let mut checksum = 0u64;
    let mut schedule = 11;
    while drained_count < total_items {
        let turn = next_turn(&mut schedule) as usize % (num_producers + 1);
        if turn == num_producers {
            for drained in buf.drain() {
                drained_count += 1;
                let mut bytes = [0u8; 8];
                bytes.copy_from_slice(&drained.data);
                let val = u64::from_le_bytes(bytes);
                checksum = checksum.wrapping_add(val);
                // The entries of one producer keep their order.
                let producer = val as usize / items_per_producer;
                assert!(last_seen[producer] < Some(val));
                last_seen[producer] = Some(val);
            }
            continue;
        }
        match held[turn] {
            None if done[turn] < items_per_producer => {
                let pos = buf.write_pos();
                match buf.claim(pos) {
                    ClaimOutcome::Claimed => held[turn] = Some(pos),
                    ClaimOutcome::Full => assert_eq!(buf.len_approx(), 16),
                    ClaimOutcome::Stale => panic!("nobody else came in between"),
                }
            }
            None => {}
            Some(pos) => {
                let val = (turn * items_per_producer + done[turn]) as u64;
                buf.publish(pos, entry(val, val.to_le_bytes().to_vec())).unwrap();
                held[turn] = None;
                done[turn] += 1;
            }
        }
    }

    let expected: u64 = (0..total_items as u64).sum();
    assert_eq!(drained_count, total_items);
    assert_eq!(checksum, expected);
}
