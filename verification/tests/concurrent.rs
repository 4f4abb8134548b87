//! The striped log: single appends, batches, draining and shutdown.

use aletheia_wal::{
    AppendBlockedKind, AppendDrainer, AppendTurn, AppendWait, BatchTurn, BatchWait, BlockedBatch,
    CompletionHandle, ConcurrentWal, ConcurrentWalConfig, ContentId, EntryCodec, Error,
    LsnAllocator, ShutdownOutcome, StorageError, WalOperation, DEFAULT_MAX_APPEND_BLOCK_MS,
    DEFAULT_NUM_STRIPES, DEFAULT_STRIPE_CAPACITY, LSN,
};

type TestCodec =
    EntryCodec<fn(&WalOperation) -> usize, fn(LSN, &WalOperation) -> Result<Vec<u8>, Error>>;

const MS: u64 = 1_000_000;
const MAX_WAL_ENTRY_SIZE: usize = 64 * 1024 * 1024;
/// Bytes of an encoded node beside its one string property.
const OVERHEAD: usize = 68;
/// The node that the test codec refuses to encode.
const UNENCODABLE: u64 = 666;

fn estimate(operation: &WalOperation) -> usize {
    match operation {
        WalOperation::CreateNode { content, .. } => OVERHEAD + content.0 as usize,
        _ => OVERHEAD,
    }
}

fn serialize(lsn: LSN, operation: &WalOperation) -> Result<Vec<u8>, Error> {
    match operation {
        WalOperation::CreateNode { node_id, .. } if *node_id == UNENCODABLE => {
            Err(Error::other("unencodable".to_string()))
        }
        WalOperation::CreateNode { node_id, .. } => Ok(vec![lsn.0 as u8, *node_id as u8]),
        _ => Ok(vec![lsn.0 as u8]),
    }
}

fn codec() -> TestCodec {
    EntryCodec { estimate, serialize, limit: MAX_WAL_ENTRY_SIZE }
}

fn node(node_id: u64) -> WalOperation {
    WalOperation::CreateNode { node_id, content: ContentId(0) }
}

fn test_operation() -> WalOperation {
    node(1)
}

fn config() -> ConcurrentWalConfig {
    ConcurrentWalConfig::new("wal".to_string())
}

fn fresh() -> ConcurrentWal {
    ConcurrentWal::new(config()).unwrap()
}

/// Append without waiting: a full buffer fails the test.
fn append_async(wal: &mut ConcurrentWal, operation: WalOperation) -> Result<LSN, Error> {
    append_from(wal, operation, 0)
}

fn append_from(
    wal: &mut ConcurrentWal,
    operation: WalOperation,
    thread_hash: u64,
) -> Result<LSN, Error> {
    match wal.append_async(operation, &codec(), thread_hash) {
        AppendTurn::Placed { lsn, handle } => {
            assert!(handle.is_none(), "an asynchronous append has no waiter");
            Ok(lsn)
        }
        AppendTurn::Refused(error) => Err(error),
        AppendTurn::Blocked(_) => panic!("the buffer is full"),
    }
}

fn append_with_handle(wal: &mut ConcurrentWal) -> (LSN, CompletionHandle) {
    match wal.append_with_handle(test_operation(), &codec(), 0) {
        AppendTurn::Placed { lsn, handle } => (lsn, handle.expect("a waiter")),
        _ => panic!("there is room"),
    }
}

fn batch_result(turn: BatchTurn) -> Result<Vec<LSN>, Error> {
    match turn {
        BatchTurn::Placed { lsns, .. } => Ok(lsns),
        BatchTurn::Refused(error) => Err(error),
        BatchTurn::Blocked(_) => panic!("the buffer is full"),
    }
}

fn append_batch(
    wal: &mut ConcurrentWal,
    operations: Vec<WalOperation>,
) -> Result<Vec<LSN>, Error> {
    batch_result(wal.append_batch(operations, &codec(), 0))
}

/// Drive a single append to its end. Nobody drains meanwhile.
fn run_append(wal: &mut ConcurrentWal, first: AppendTurn, now: &mut u64) -> Result<LSN, Error> {
    let mut turn = first;
    loop {
        match turn {
            AppendTurn::Placed { lsn, .. } => return Ok(lsn),
            AppendTurn::Refused(error) => return Err(error),
            AppendTurn::Blocked(blocked) => match wal.append_blocked(blocked, *now) {
                AppendWait::Refused(error) => return Err(error),
                AppendWait::Spin { blocked } => turn = wal.append_retry(blocked),
                AppendWait::Nap { blocked, nap_ns } => {
                    *now += nap_ns.unwrap_or(1);
                    turn = wal.append_retry(blocked);
                }
            },
        }
    }
}

/// Drive a batch to its end, with a drainer that frees the log every
/// `drain_every` nanoseconds.
fn run_batch(
    wal: &mut ConcurrentWal,
    first: BatchTurn,
    now: &mut u64,
    drain_every: Option<u64>,
) -> (Result<Vec<LSN>, Error>, Vec<String>) {
    let mut turn = first;
    let mut narrated = Vec::new();
    let mut next_drain = drain_every.map(|every| *now + every);
    loop {
        match turn {
            BatchTurn::Placed { lsns, .. } => return (Ok(lsns), narrated),
            BatchTurn::Refused(error) => return (Err(error), narrated),
            BatchTurn::Blocked(batch) => match wal.batch_blocked(batch, *now) {
                BatchWait::Refused(error) => return (Err(error), narrated),
                BatchWait::Spin { blocked } => {
                    let (next, diagnostic) = wal.batch_retry(blocked, *now);
                    narrated.extend(diagnostic);
                    turn = next;
                }
                BatchWait::Nap { blocked, nap_ns } => {
                    *now += nap_ns.unwrap_or(1);
                    if let (Some(due), Some(every)) = (next_drain, drain_every) {
                        if *now >= due {
                            drop(wal.drain_all());
                            next_drain = Some(*now + every);
                        }
                    }
                    let (next, diagnostic) = wal.batch_retry(blocked, *now);
                    narrated.extend(diagnostic);
                    turn = next;
                }
            },
        }
    }
}

/// A one-stripe log whose ring buffer holds `capacity` entries and whose
/// blocking appends give up after `bound_ms`.
fn wedged_wal(capacity: usize, bound_ms: u64) -> ConcurrentWal {
    let config = config()
        .with_num_stripes(1)
        .with_stripe_capacity(capacity)
        .with_max_append_block_ms(bound_ms);
    ConcurrentWal::new(config).expect("WAL construction must succeed")
}

/// Spin out a blocked batch until it naps, and return how often it spun.
fn until_nap(wal: &mut ConcurrentWal, first: BlockedBatch, now: u64) -> (BlockedBatch, usize) {
    let mut batch = first;
    let mut spins = 0;
    loop {
        match wal.batch_blocked(batch, now) {
            BatchWait::Refused(error) => panic!("refused: {:?}", error),
            BatchWait::Spin { blocked } => {
                spins += 1;
                batch = blocked;
            }
            BatchWait::Nap { blocked, .. } => return (blocked, spins),
        }
    }
}

fn blocked(turn: BatchTurn) -> BlockedBatch {
    match turn {
        BatchTurn::Blocked(batch) => batch,
        _ => panic!("the batch must wait"),
    }
}

#[test]
fn config_defaults_and_builders() {
    let config = ConcurrentWalConfig::default();
    assert_eq!(config.wal_dir, "data/wal");
    assert_eq!(config.num_stripes, 16);
    assert_eq!(config.stripe_capacity, 1024);
    assert_eq!(config.segment_size, 64 * 1024 * 1024);
    assert_eq!(config.segments_to_retain, 10);
    assert_eq!(config.max_append_block_ms, 30_000);
    assert_eq!(DEFAULT_NUM_STRIPES, 16);
    assert_eq!(DEFAULT_STRIPE_CAPACITY, 1024);
    assert_eq!(DEFAULT_MAX_APPEND_BLOCK_MS, 30_000);

    let custom = ConcurrentWalConfig::new("d".to_string())
        .with_num_stripes(5)
        .with_stripe_capacity(6)
        .with_segment_size(7)
        .with_max_append_block_ms(8);
    assert_eq!(custom.wal_dir, "d");
    assert_eq!(custom.num_stripes, 8);
    assert_eq!(custom.stripe_capacity, 6);
    assert_eq!(custom.segment_size, 7);
    assert_eq!(custom.max_append_block_ms, 8);
}

#[test]
fn lsns_start_at_one_and_batches_are_contiguous() {
    let mut allocator = LsnAllocator::new();
    assert_eq!(allocator.allocate(), LSN(1));
    assert_eq!(allocator.allocate_batch(3), LSN(2));
    assert_eq!(allocator.current(), LSN(5));
    allocator.set_next(LSN(50));
    assert_eq!(allocator.allocate(), LSN(50));
}

#[test]
fn test_concurrent_wal_creation() {
    let wal = fresh();

    assert_eq!(wal.num_stripes(), DEFAULT_NUM_STRIPES);
    assert_eq!(wal.current_lsn(), LSN(1));
    assert_eq!(wal.total_appends(), 0);

    let wal = ConcurrentWal::with_defaults("wal".to_string()).unwrap();
    assert_eq!(wal.num_stripes(), DEFAULT_NUM_STRIPES);
    assert_eq!(wal.wal_dir(), "wal");
}

#[test]
fn test_concurrent_wal_custom_stripes() {
    let wal = ConcurrentWal::new(config().with_num_stripes(8)).unwrap();

    assert_eq!(wal.num_stripes(), 8);
}

#[test]
fn test_concurrent_wal_stripe_rounding() {
    // 10 should round up to 16
    let wal = ConcurrentWal::new(config().with_num_stripes(10)).unwrap();

    assert_eq!(wal.num_stripes(), 16);
}

#[test]
fn test_append_async_allocates_lsn() {
    let mut wal = fresh();

    let lsn1 = append_async(&mut wal, test_operation()).unwrap();
    let lsn2 = append_async(&mut wal, test_operation()).unwrap();
    let lsn3 = append_async(&mut wal, test_operation()).unwrap();

    assert_eq!(lsn1, LSN(1));
    assert_eq!(lsn2, LSN(2));
    assert_eq!(lsn3, LSN(3));
    assert_eq!(wal.total_appends(), 3);
}

#[test]
fn test_append_with_handle() {
    let mut wal = fresh();

    let (lsn, handle) = append_with_handle(&mut wal);

    assert_eq!(lsn, LSN(1));
    assert!(!handle.is_complete(wal.completions()));
}

#[test]
fn test_drain_all_sorted_by_lsn() {
    let mut wal = ConcurrentWal::new(config().with_num_stripes(4)).unwrap();

    // Append from several threads to different stripes
    for round in 0..10u64 {
        for thread_hash in 0..4u64 {
            append_from(&mut wal, test_operation(), 3 * thread_hash + round).unwrap();
        }
    }

    let entries = wal.drain_all();
    assert_eq!(entries.len(), 40);

    for i in 1..entries.len() {
        assert!(entries[i].lsn.0 > entries[i - 1].lsn.0);
    }
}

#[test]
fn test_stripe_affinity() {
    let wal = ConcurrentWal::new(config().with_num_stripes(16)).unwrap();

    // The same thread always uses the same stripe
    let thread_hash = 0xdead_beef_u64;
    let stripe1 = wal.get_stripe(thread_hash);
    let stripe2 = wal.get_stripe(thread_hash);
    let stripe3 = wal.get_stripe(thread_hash);

    assert_eq!(stripe1, stripe2);
    assert_eq!(stripe2, stripe3);
    assert_eq!(stripe1, 15);
    assert_eq!(wal.stripe(stripe1).expect("a stripe").id(), 15);
}

#[test]
fn concurrent_test_concurrent_appends() {
    let mut wal = ConcurrentWal::new(config().with_num_stripes(8)).unwrap();

    let num_threads = 8u64;
    let appends_per_thread = 100u64;

    for _ in 0..appends_per_thread {
        for thread_hash in 0..num_threads {
            append_from(&mut wal, test_operation(), thread_hash).unwrap();
        }
    }

    assert_eq!(wal.total_appends(), num_threads * appends_per_thread);
    assert_eq!(wal.current_lsn(), LSN(num_threads * appends_per_thread + 1));
}

#[test]
fn test_close_prevents_appends() {
    let mut wal = fresh();

    wal.close();
    assert!(wal.is_closed());

    let result = append_async(&mut wal, test_operation());
    assert!(result.is_err());
}

#[test]
fn test_metrics() {
    let mut wal = ConcurrentWal::new(config().with_num_stripes(4)).unwrap();

    for _ in 0..10 {
        append_async(&mut wal, test_operation()).unwrap();
    }

    let metrics = wal.metrics();
    assert_eq!(metrics.total_appends, 10);
    assert_eq!(metrics.current_lsn, LSN(11));
    assert_eq!(metrics.stripes.len(), 4);
    assert_eq!(metrics.total_pending, 10);
    assert_eq!(metrics.stripes[0].stripe_id, 0);
    assert_eq!(metrics.stripes[0].pending_count, 10);
    assert_eq!(metrics.stripes[0].capacity, 1024);
    assert_eq!(metrics.stripes[3].stripe_id, 3);
    assert_eq!(metrics.stripes[3].pending_count, 0);
}

#[test]
fn test_set_next_lsn() {
    let mut wal = fresh();

    wal.set_next_lsn(LSN(1000));
    assert_eq!(wal.current_lsn(), LSN(1000));

    let lsn = append_async(&mut wal, test_operation()).unwrap();
    assert_eq!(lsn, LSN(1000));
}

#[test]
fn test_drain_stripe() {
    let mut wal = ConcurrentWal::new(config().with_num_stripes(4)).unwrap();

    append_async(&mut wal, test_operation()).unwrap();

    // One stripe has an entry
    let total: usize = (0..4).map(|i| wal.drain_stripe(i).len()).sum();
    assert_eq!(total, 1);
    assert!(wal.drain_stripe(1000).is_empty());
}

#[test]
fn test_completion_notification_via_drain() {
    let mut wal = fresh();

    let (_lsn, handle) = append_with_handle(&mut wal);
    assert!(!handle.is_complete(wal.completions()));

    // Drain and notify
    let entries = wal.drain_all();
    wal.complete_entries(&entries);

    assert!(handle.is_complete(wal.completions()));
    assert!(handle.wait(wal.completions()).expect("answered").is_ok());
}

#[test]
fn test_append_batch_allocates_consecutive_lsns() {
    let mut wal = fresh();

    let ops = vec![test_operation(), test_operation(), test_operation()];

    let lsns = append_batch(&mut wal, ops).unwrap();

    assert_eq!(lsns.len(), 3);
    assert_eq!(lsns[0], LSN(1));
    assert_eq!(lsns[1], LSN(2));
    assert_eq!(lsns[2], LSN(3));
    assert_eq!(wal.total_appends(), 3);
}

#[test]
fn test_append_batch_empty_operations() {
    let mut wal = fresh();

    let ops: Vec<WalOperation> = vec![];
    let lsns = append_batch(&mut wal, ops).unwrap();

    assert_eq!(lsns.len(), 0);
    assert_eq!(wal.total_appends(), 0);
}

#[test]
fn test_append_batch_single_operation() {
    let mut wal = fresh();

    let ops = vec![test_operation()];
    let lsns = append_batch(&mut wal, ops).unwrap();

    assert_eq!(lsns.len(), 1);
    assert_eq!(lsns[0], LSN(1));
    assert_eq!(wal.total_appends(), 1);
}

#[test]
fn test_append_batch_many_operations() {
    let mut wal = fresh();

    let ops: Vec<WalOperation> = (0..100).map(|i| node(i + 1)).collect();

    let lsns = append_batch(&mut wal, ops).unwrap();

    assert_eq!(lsns.len(), 100);
    assert_eq!(lsns[0], LSN(1));
    assert_eq!(lsns[99], LSN(100));
    assert_eq!(wal.total_appends(), 100);

    let entries = wal.drain_all();
    for (i, entry) in entries.iter().enumerate() {
        assert_eq!(entry.data, vec![i as u8 + 1, i as u8 + 1]);
    }
}

#[test]
fn test_append_batch_with_drain() {
    let mut wal = fresh();

    let ops = vec![test_operation(), test_operation()];
    let lsns = append_batch(&mut wal, ops).unwrap();

    let entries = wal.drain_all();
    assert_eq!(entries.len(), 2);
    assert_eq!(entries[0].lsn, lsns[0]);
    assert_eq!(entries[1].lsn, lsns[1]);
}

#[test]
fn test_append_batch_interleaved_with_single() {
    let mut wal = fresh();

    let lsn1 = append_async(&mut wal, test_operation()).unwrap();

    let batch_lsns = append_batch(&mut wal, vec![test_operation(), test_operation()]).unwrap();

    let lsn4 = append_async(&mut wal, test_operation()).unwrap();

    assert_eq!(lsn1, LSN(1));
    assert_eq!(batch_lsns[0], LSN(2));
    assert_eq!(batch_lsns[1], LSN(3));
    assert_eq!(lsn4, LSN(4));
    assert_eq!(wal.total_appends(), 4);
}

#[test]
fn test_concurrent_wal_accessors() {
    let config = config();
    let wal = ConcurrentWal::new(config.clone()).unwrap();

    assert_eq!(wal.wal_dir(), "wal");
    assert_eq!(wal.config().num_stripes, config.num_stripes);
    assert!(wal.stripe(0).is_some());
    assert!(wal.stripe(1000).is_none());
}

#[test]
fn test_append_with_handle_is_bounded_on_a_full_buffer() {
    let mut wal = wedged_wal(2, 200);
    let mut now = 0;
    let mut outcome = None;

    // Two slots, four attempts, and nothing ever drains.
    for _ in 0..4 {
        let turn = wal.append_with_handle(test_operation(), &codec(), 0);
        if let Err(error) = run_append(&mut wal, turn, &mut now) {
            outcome = Some(error.message());
            break;
        }
    }

    let message = outcome.expect("every append succeeded against a 2-slot buffer");
    assert!(message.contains("ring buffer full"), "got: {}", message);
    assert!(message.contains("no consumer"), "got: {}", message);
    assert_eq!(now, 200 * MS);
    // The refused append left nothing behind.
    assert_eq!(wal.drain_all().len(), 2);
    assert_eq!(wal.total_appends(), 2);
}

#[test]
fn test_append_batch_with_handles_refuses_an_unfittable_batch() {
    let mut wal = wedged_wal(2, 200);
    let mut now = 0;

    let ops: Vec<WalOperation> = (0..6).map(|_| test_operation()).collect();
    let turn = wal.append_batch_with_handles(ops, &codec(), 0);
    let (result, _) = run_batch(&mut wal, turn, &mut now, None);

    let message = result.expect_err("a 6-op batch cannot fit in a 2-slot buffer").message();
    assert!(message.contains("ring buffer full"), "got: {}", message);
}

#[test]
fn test_append_batch_arms_one_stall_window_for_the_whole_call() {
    const BOUND_MS: u64 = 200;
    let mut wal = wedged_wal(2, BOUND_MS);

    for _ in 0..2 {
        append_async(&mut wal, test_operation())
            .expect("filling a fresh 2-slot ring must succeed");
    }

    let mut now = 0;
    let ops: Vec<WalOperation> = (0..5).map(|_| test_operation()).collect();
    let turn = wal.append_batch(ops, &codec(), 0);
    let (result, _) = run_batch(&mut wal, turn, &mut now, None);

    assert!(result.is_err(), "nothing drained the ring, so the batch must report the stall");
    assert_eq!(wal.last_batch_deadline_arms(), 1);
    assert!(now >= BOUND_MS * MS, "gave up after {}", now);
    assert!(now < 5_000 * MS, "took {}", now);
}

/// 200 entries through two slots that a drainer frees every 25 milliseconds:
/// the call outlives its bound of 1500, and no stall does.
fn slow_drain_batch() -> (Option<Error>, u64, Vec<String>, u64) {
    let mut wal = wedged_wal(2, 1500);
    let mut now = 0;
    let ops: Vec<WalOperation> = (0..200).map(|_| test_operation()).collect();
    let turn = wal.append_batch(ops, &codec(), 0);
    let (result, narrated) = run_batch(&mut wal, turn, &mut now, Some(25 * MS));
    (result.err(), now, narrated, wal.slow_batch_diagnostics())
}

#[test]
fn test_append_batch_completes_while_the_drainer_keeps_making_room() {
    let (error, elapsed, _, _) = slow_drain_batch();

    assert!(error.is_none(), "a drained batch failed anyway: {:?}", error);
    assert!(elapsed > 1500 * MS, "the call finished inside its own bound: {}", elapsed);
}

#[test]
fn test_a_slow_but_progressing_batch_narrates_each_stall_window() {
    let (error, elapsed, narrated, diagnostics) = slow_drain_batch();

    assert!(error.is_none(), "the batch must complete, got {:?}", error);
    assert!(elapsed > 1500 * MS, "took {}", elapsed);
    assert!(diagnostics >= 1, "no diagnostic at all");
    assert_eq!(narrated.len() as u64, diagnostics);
    assert!(
        narrated[0].contains("/200 entries placed after 15") && narrated[0].contains("of 1500ms"),
        "got: {}",
        narrated[0]
    );
}

#[test]
fn test_append_entry_exactly_max_size_succeeds() {
    let mut wal = ConcurrentWal::new(config().with_segment_size(MAX_WAL_ENTRY_SIZE * 2)).unwrap();

    let target_val_len = MAX_WAL_ENTRY_SIZE - OVERHEAD;
    let op = WalOperation::CreateNode { node_id: 1, content: ContentId(target_val_len as u64) };

    assert_eq!(estimate(&op), MAX_WAL_ENTRY_SIZE, "Entry size calculation incorrect");

    let result = append_async(&mut wal, op);
    assert!(result.is_ok(), "Failed to append entry of exactly MAX_WAL_ENTRY_SIZE: {:?}", result);
}

#[test]
fn test_append_entry_exceeding_max_size_fails() {
    let mut wal = ConcurrentWal::new(config().with_segment_size(MAX_WAL_ENTRY_SIZE * 2)).unwrap();

    let target_val_len = MAX_WAL_ENTRY_SIZE - OVERHEAD + 1;
    let op = WalOperation::CreateNode { node_id: 1, content: ContentId(target_val_len as u64) };

    assert_eq!(estimate(&op), MAX_WAL_ENTRY_SIZE + 1, "Entry size calculation incorrect");

    let result = append_async(&mut wal, op);
    assert!(result.is_err(), "Should have rejected oversized entry");

    match result {
        Err(Error::Storage(StorageError::CapacityExceeded { current, limit, .. })) => {
            assert_eq!(current, MAX_WAL_ENTRY_SIZE + 1);
            assert_eq!(limit, MAX_WAL_ENTRY_SIZE);
        }
        _ => panic!("Expected CapacityExceeded error, got {:?}", result),
    }
}

#[test]
fn test_thread_local_switching_between_sizes() {
    // One thread hash serves logs of any number of stripes.
    for thread_hash in [0, 3, 4, 31, 32, u64::MAX] {
        let mut large = ConcurrentWal::new(config().with_num_stripes(32)).unwrap();
        append_from(&mut large, test_operation(), thread_hash).unwrap();

        let mut small = ConcurrentWal::new(config().with_num_stripes(4)).unwrap();
        append_from(&mut small, test_operation(), thread_hash).unwrap();
        assert!(small.get_stripe(thread_hash) < 4);
    }
}

#[test]
fn test_shutdown_graceful_unblocks_wedged_appender() {
    // Two slots, unbounded appends: the third append parks until the close.
    let mut wal = wedged_wal(2, 0);
    append_batch(&mut wal, vec![test_operation(), test_operation()])
        .expect("initial fill succeeds");

    let parked = blocked(wal.append_batch(vec![test_operation()], &codec(), 0));
    let (parked, _) = until_nap(&mut wal, parked, 100 * MS);

    let limit = wal.shutdown_graceful(100 * MS);
    assert_eq!(wal.shutdown_poll(100 * MS, limit), None, "the append is still in flight");

    // The parked appender is refused through the close.
    let (turn, _) = wal.batch_retry(parked, 101 * MS);
    match turn {
        BatchTurn::Refused(error) => {
            assert_eq!(error, Error::wal("WAL buffer closed".to_string()))
        }
        _ => panic!("the close must unblock the appender"),
    }

    assert_eq!(wal.shutdown_poll(101 * MS, limit), Some(ShutdownOutcome::Completed));
    assert_eq!(wal.drain_all().len(), 2, "what was placed is kept");
}

#[test]
fn shutdown_reports_what_is_still_in_flight() {
    let mut wal = wedged_wal(1, 0);
    append_async(&mut wal, test_operation()).unwrap();
    let _parked = blocked(wal.append_batch(vec![test_operation()], &codec(), 0));
    let limit = wal.shutdown_graceful(0);
    assert_eq!(wal.shutdown_poll(limit - 1, limit), None);
    assert_eq!(
        wal.shutdown_poll(limit, limit),
        Some(ShutdownOutcome::TimedOut { active_batches: 1 })
    );
}

#[test]
fn a_shutting_down_log_refuses_new_work() {
    let mut wal = fresh();
    assert!(wal.check_not_shutting_down().is_ok());
    wal.shutdown_graceful(0);
    assert!(wal.check_not_shutting_down().is_err());
    assert!(append_batch(&mut wal, vec![test_operation()]).is_err());
    assert_eq!(wal.current_lsn(), LSN(1), "nothing was reserved");
}

#[test]
fn an_unserializable_batch_leaves_no_residue() {
    let mut wal = fresh();
    let result = append_batch(&mut wal, vec![node(1), node(UNENCODABLE), node(2)]);
    assert_eq!(result.unwrap_err(), Error::other("unencodable".to_string()));
    assert!(wal.drain_all().is_empty());
    assert_eq!(wal.total_appends(), 0);
    wal.shutdown_graceful(0);
    assert_eq!(wal.shutdown_poll(0, 1), Some(ShutdownOutcome::Completed));
}

#[test]
fn a_blocked_append_names_its_cause() {
    let mut wal = wedged_wal(2, 200);
    let timed_out = AppendBlockedKind::TimedOut { waited_ns: 1_500 * MS };

    let flusher =
        wal.map_append_blocked(timed_out, 0, AppendDrainer::BackgroundFlusher).message();
    assert!(flusher.contains("1.5s"), "the wait is written out, got: {}", flusher);
    assert!(flusher.contains("background flusher"), "got: {}", flusher);

    let caller = wal.map_append_blocked(timed_out, 0, AppendDrainer::CallingThread).message();
    assert!(caller.contains("no consumer is draining the buffer"), "got: {}", caller);
    assert!(!caller.contains("background flusher"), "got: {}", caller);

    let closed = wal
        .map_append_blocked(AppendBlockedKind::Closed, 0, AppendDrainer::CallingThread)
        .message();
    assert!(closed.contains("closed"), "got: {}", closed);

    wal.set_async_drainer(AppendDrainer::CallingThread);
    for _ in 0..2 {
        append_async(&mut wal, test_operation()).unwrap();
    }
    let mut now = 0;
    let turn = wal.append_async(test_operation(), &codec(), 0);
    let message = run_append(&mut wal, turn, &mut now).unwrap_err().message();
    assert!(message.contains("no consumer is draining the buffer"), "got: {}", message);
}

#[test]
fn append_sync_waits_for_the_flush() {
    let mut wal = fresh();
    let (lsn, handle) = wal.append_sync(test_operation(), &codec(), 0).unwrap();
    assert_eq!(lsn, LSN(1));
    assert!(wal.append_sync_wait(lsn, handle, 0).is_none());

    let entries = wal.drain_all();
    wal.complete_entries(&entries);
    assert_eq!(wal.append_sync_wait(lsn, handle, MS).expect("answered"), Ok(LSN(1)));
}

#[test]
fn append_sync_does_not_wait_for_room() {
    let mut wal = wedged_wal(1, 200);
    wal.append_sync(test_operation(), &codec(), 0).unwrap();
    assert_eq!(
        wal.append_sync(test_operation(), &codec(), 0).unwrap_err(),
        Error::wal("WAL buffer full - backpressure".to_string())
    );
    assert_eq!(wal.total_appends(), 1);
}

#[test]
fn an_entry_that_is_dropped_answers_its_waiter() {
    let mut wal = fresh();
    let (_, handle) = append_with_handle(&mut wal);
    let entries = wal.drain_all();
    wal.discard_entries(entries);
    let error = wal.wait_durable(handle, 0, MS).expect("answered").unwrap_err();
    assert!(error.message().contains("WAL flush failed: PendingEntry dropped"));
}

#[test]
fn progress_keeps_a_batch_alive() {
    let mut wal = wedged_wal(1, 200);
    append_async(&mut wal, test_operation()).unwrap();
    let batch = blocked(wal.append_batch(vec![node(2), node(3)], &codec(), 0));

    // 150 milliseconds without progress, then room for one entry, then another
    // 150 milliseconds: no single stall reaches the bound.
    let (batch, spins) = until_nap(&mut wal, batch, 0);
    assert_eq!(spins, 10 + 20 + 40 + 80 + 160 + 320 + 640 + 1000 - 1);
    drop(wal.drain_all());
    let (turn, _) = wal.batch_retry(batch, 150 * MS);
    let (batch, _) = until_nap(&mut wal, blocked(turn), 150 * MS);
    drop(wal.drain_all());
    let (turn, _) = wal.batch_retry(batch, 300 * MS);
    assert_eq!(batch_result(turn).unwrap(), vec![LSN(2), LSN(3)]);
    assert_eq!(wal.last_batch_deadline_arms(), 2);
}

#[test]
fn each_handle_of_a_batch_is_answered_by_its_own_entry() {
    let mut wal = fresh();
    let turn = wal.append_batch_with_handles(vec![node(1), node(2), node(3)], &codec(), 0);
    let BatchTurn::Placed { lsns, handles } = turn else { panic!("there is room") };
    assert_eq!(lsns, vec![LSN(1), LSN(2), LSN(3)]);
    let mut entries = wal.drain_all();
    let last = vec![entries.pop().expect("three entries")];
    let middle = vec![entries.pop().expect("three entries")];
    assert_eq!(middle[0].lsn, LSN(2));

    wal.complete_entries(&last);
    let complete: Vec<bool> = handles.iter().map(|h| h.is_complete(wal.completions())).collect();
    assert_eq!(complete, vec![false, false, true]);
    assert!(handles[2].wait(wal.completions()).expect("answered").is_ok());
    assert_eq!(wal.wait_all_durable(&handles, 0, 1), None);

    wal.fail_entries(&middle, "disk full");
    let complete: Vec<bool> = handles.iter().map(|h| h.is_complete(wal.completions())).collect();
    assert_eq!(complete, vec![false, true, true]);
    assert_eq!(handles[1].wait(wal.completions()).expect("answered").unwrap_err(), "disk full");
    assert_eq!(
        wal.wait_all_durable(&handles, 0, 1).expect("one entry failed").unwrap_err(),
        Error::wal("WAL flush failed: disk full".to_string())
    );
}

#[test]
fn a_batch_is_told_of_the_first_entry_that_failed() {
    let mut wal = fresh();
    let turn = wal.append_batch_with_handles(vec![node(1), node(2)], &codec(), 0);
    let BatchTurn::Placed { handles, .. } = turn else { panic!("there is room") };
    let mut entries = wal.drain_all();
    let second = vec![entries.pop().expect("two entries")];
    wal.fail_entries(&second, "second");
    wal.fail_entries(&entries, "first");
    assert_eq!(
        wal.wait_all_durable(&handles, 0, 1).expect("failed").unwrap_err(),
        Error::wal("WAL flush failed: first".to_string())
    );
}

#[test]
fn what_was_appended_is_drained_once_and_in_order() {
    let mut wal = ConcurrentWal::new(config().with_num_stripes(4)).unwrap();
    let mut drained: Vec<u64> = Vec::new();
    for round in 0..5u64 {
        for thread in 0..4u64 {
            let lsn = append_from(&mut wal, node(round), thread).unwrap();
            assert_eq!(lsn, LSN(4 * round + thread + 1));
            assert_eq!(wal.current_lsn(), LSN(lsn.0 + 1));
        }
        if round == 2 {
            let before = wal.current_lsn();
            let entries = wal.drain_all();
            assert_eq!(entries.len(), 12);
            drained.extend(entries.iter().map(|e| e.lsn.0));
            assert!(wal.drain_all().is_empty(), "nothing is left");
            assert_eq!(wal.current_lsn(), before);
            assert_eq!(wal.total_appends(), 12);
        }
    }
    assert_eq!(wal.metrics().total_pending, 8);
    assert_eq!(wal.total_appends(), 12 + 8, "drained and pending");
    drained.extend(wal.drain_all().iter().map(|e| e.lsn.0));
    assert_eq!(drained, (1..=20).collect::<Vec<u64>>());
    assert_eq!(wal.metrics().total_pending, 0);
}

#[test]
fn a_new_entry_has_a_record_of_its_own() {
    let mut wal = fresh();
    let (_, first) = append_with_handle(&mut wal);
    let (_, second) = append_with_handle(&mut wal);
    assert_ne!(first, second);
    let entries = wal.drain_all();
    wal.complete_entries(&entries);
    assert_eq!(wal.wait_durable(first, 0, 1), Some(Ok(())));
    assert_eq!(wal.wait_durable(second, 0, 1), Some(Ok(())));
    let (_, third) = append_with_handle(&mut wal);
    assert_eq!(wal.wait_durable(third, 0, 1), None, "a new entry has a record of its own");
}
