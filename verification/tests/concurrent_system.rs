//! The whole log system over an in-memory list of segments.

use aletheia_wal::{
    heartbeat_staleness_threshold, lock_not_acquired, log_operations_to_wal, AppendTurn,
    AppendWait, BackgroundFlusher, BatchTurn, BatchWait, BufferedWrite, CipherHandle, CommitTurn,
    ConcurrentWalSystem, ConcurrentWalSystemConfig, ContentId, CycleTurn, DrainTurn,
    DurabilityMode, EntryCodec, Error, FlushStats, FlushStep, FrameTurn, FrameWait, KeyringTurn,
    LockSite, OpenOutcome, PendingEntry, StorageError, VersionId, WalKeyring, WalOperation,
    WriteTransaction, INITIAL_WAL_KEY_VERSION, LSN,
};

type TestCodec =
    EntryCodec<fn(&WalOperation) -> usize, fn(LSN, &WalOperation) -> Result<Vec<u8>, Error>>;

const MS: u64 = 1_000_000;

fn estimate(_operation: &WalOperation) -> usize {
    16
}

/// One byte for the kind, and the identifier where there is one.
fn serialize(_lsn: LSN, operation: &WalOperation) -> Result<Vec<u8>, Error> {
    Ok(match operation {
        WalOperation::CreateNode { node_id, .. } => {
            let mut data = vec![1u8];
            data.extend(node_id.to_le_bytes());
            data
        }
        WalOperation::BeginTx { .. } => vec![2u8],
        WalOperation::CommitTx { .. } => vec![3u8],
        _ => vec![4u8],
    })
}

fn codec() -> TestCodec {
    EntryCodec { estimate, serialize, limit: 1024 }
}

fn create_test_operation(node_id: u64) -> WalOperation {
    WalOperation::CreateNode { node_id, content: ContentId(0) }
}

fn node_of(entry: &PendingEntry) -> Option<u64> {
    if entry.data[0] != 1 {
        return None;
    }
    let mut bytes = [0u8; 8];
    bytes.copy_from_slice(&entry.data[1..9]);
    Some(u64::from_le_bytes(bytes))
}

fn config() -> ConcurrentWalSystemConfig {
    ConcurrentWalSystemConfig::new("wal".to_string())
}

fn synchronous() -> ConcurrentWalSystemConfig {
    config().with_durability_mode(DurabilityMode::Synchronous)
}

fn asynchronous(flush_interval_ms: u64) -> ConcurrentWalSystemConfig {
    config().with_durability_mode(DurabilityMode::Async { flush_interval_ms })
}

fn group_commit_config(flush_interval_ms: u64) -> ConcurrentWalSystemConfig {
    config()
        .with_durability_mode(DurabilityMode::GroupCommit { max_batch_size: 8, max_delay_ms: 5 })
        .with_flush_interval_ms(flush_interval_ms)
}

fn wal_keyring(seed: u64) -> WalKeyring {
    WalKeyring::single(CipherHandle(seed))
}

/// A segment, with the key version that its frames are stamped with.
struct Segment {
    key_version: Option<u32>,
    ids: Vec<u64>,
}

/// A system with its flush thread and its segments, driven step by step.
struct Log {
    system: ConcurrentWalSystem,
    flusher: BackgroundFlusher,
    segments: Vec<Segment>,
    broken_disk: Option<String>,
    now: u64,
}

impl Log {
    fn new(config: ConcurrentWalSystemConfig) -> Log {
        let mode = config.durability_mode;
        let system = ConcurrentWalSystem::new(config, 1).unwrap();
        let key_version = system.wal_keyring().map(|k| k.version);
        Log {
            system,
            flusher: BackgroundFlusher::new(mode),
            segments: vec![Segment { key_version, ids: vec![] }],
            broken_disk: None,
            now: 0,
        }
    }

    fn write(&mut self, entries: &[PendingEntry]) -> Result<(), Error> {
        if let Some(why) = self.broken_disk.take() {
            return Err(Error::other(why));
        }
        let segment = self.segments.last_mut().expect("an active segment");
        segment.ids.extend(entries.iter().filter_map(node_of));
        Ok(())
    }

    fn open_segment(&mut self, key_version: Option<u32>) {
        self.segments.push(Segment { key_version, ids: vec![] });
    }

    /// Place an operation, waiting for room as long as it takes.
    fn place(&mut self, first: AppendTurn) -> Result<(LSN, Option<u64>), Error> {
        let mut turn = first;
        loop {
            match turn {
                AppendTurn::Placed { lsn, handle } => {
                    let Some(handle) = handle else { return Ok((lsn, None)) };
                    if let Some(request) = self.system.flush_now() {
                        assert!(request.sync);
                        let written = self.write(&request.entries);
                        self.system.finish_sync_append(handle, request, written)?;
                    }
                    self.system.wait_flushed(handle, 0).expect("the flush is over")?;
                    return Ok((lsn, Some(lsn.0)));
                }
                AppendTurn::Refused(error) => return Err(error),
                AppendTurn::Blocked(blocked) => {
                    match self.system.append_blocked(blocked, self.now) {
                        AppendWait::Refused(error) => return Err(error),
                        AppendWait::Spin { blocked } => turn = self.system.append_retry(blocked),
                        AppendWait::Nap { blocked, nap_ns } => {
                            self.now += nap_ns.unwrap_or(1);
                            turn = self.system.append_retry(blocked);
                        }
                    }
                }
            }
        }
    }

    fn append(&mut self, operation: WalOperation) -> Result<LSN, Error> {
        let turn = self.system.append(operation, &codec(), 0);
        self.place(turn).map(|placed| placed.0)
    }

    fn append_async(&mut self, operation: WalOperation) -> Result<LSN, Error> {
        let turn = self.system.append_async(operation, &codec(), 0);
        self.place(turn).map(|placed| placed.0)
    }

    fn place_batch(&mut self, first: BatchTurn) -> Result<Vec<LSN>, Error> {
        let mut turn = first;
        loop {
            match turn {
                BatchTurn::Placed { lsns, handles } => {
                    if !handles.is_empty() {
                        if let Some(request) = self.system.flush_now() {
                            let written = self.write(&request.entries);
                            self.system.finish_sync_batch(&handles, request, written)?;
                        }
                        self.system.wait_batch_flushed(&handles, 0).expect("over")?;
                    }
                    return Ok(lsns);
                }
                BatchTurn::Refused(error) => return Err(error),
                BatchTurn::Blocked(batch) => match self.system.batch_blocked(batch, self.now) {
                    BatchWait::Refused(error) => return Err(error),
                    BatchWait::Spin { blocked } => {
                        turn = self.system.batch_retry(blocked, self.now).0;
                    }
                    BatchWait::Nap { blocked, nap_ns } => {
                        self.now += nap_ns.unwrap_or(1);
                        turn = self.system.batch_retry(blocked, self.now).0;
                    }
                },
            }
        }
    }

    fn append_batch(&mut self, operations: Vec<WalOperation>) -> Result<Vec<LSN>, Error> {
        let turn = self.system.append_batch(operations, &codec(), 0);
        self.place_batch(turn)
    }

    fn flush(&mut self) -> Result<FlushStats, Error> {
        match self.system.flush() {
            None => Ok(FlushStats { entries_flushed: 0 }),
            Some(request) => {
                let written = self.write(&request.entries);
                self.system.settle_flush(request, written)
            }
        }
    }

    /// One cycle of the flush thread. Returns the lines that it logs.
    fn cycle(&mut self) -> Vec<String> {
        let turn = self.flusher.perform_flush_cycle(&mut self.system);
        let lines = self.finish(turn);
        self.system.beat(self.now / 1_000 + 1);
        lines
    }

    fn finish(
        &mut self,
        (turn, notes): (CycleTurn, Vec<aletheia_wal::CycleNote>),
    ) -> Vec<String> {
        let mut lines: Vec<String> = notes.into_iter().filter_map(|n| n.log).collect();
        if let CycleTurn::Write(cycle) = turn {
            if let OpenOutcome::Refused(note) = &cycle.opened {
                lines.extend(note.log.clone());
            }
            let written = self.write(&cycle.entries);
            let (line, note) = self.flusher.finish_cycle(&mut self.system, cycle, written);
            lines.extend(line);
            lines.extend(note.and_then(|n| n.log));
        }
        lines
    }

    fn shutdown(&mut self) {
        let limit = self.system.shutdown(self.now);
        assert_eq!(self.system.poll_shutdown(self.now, limit), Some(None));
        assert!(self.system.is_shutdown_signaled());
        if self.system.durability_mode().has_flush_thread() {
            let turn = self.flusher.perform_final_flush(&mut self.system);
            self.finish(turn);
            assert!(self.system.finish_shutdown().is_none(), "the thread flushes by itself");
            self.system.flush_thread_joined();
        }
        if let Some(request) = self.system.finish_shutdown() {
            assert!(request.sync);
            let written = self.write(&request.entries);
            self.system.settle_flush(request, written).unwrap();
        }
    }

    /// Seal the active segment, move the keyring on and open the next segment.
    /// A rotation moves on to `rotated`.
    fn roll(&mut self, turn: KeyringTurn, rotated: Option<WalKeyring>) -> Result<(), Error> {
        match turn {
            KeyringTurn::Busy => panic!("no other roll is under way"),
            KeyringTurn::Refused(error) => Err(error),
            KeyringTurn::Seal(request) => {
                if let Some(request) = request {
                    assert!(request.sync);
                    assert!(!self.system.advance_keyring(), "the flush comes first");
                    let written = self.write(&request.entries);
                    self.system.finish_seal_flush(request, written)?;
                }
                match rotated {
                    Some(next) => assert!(self.system.advance_keyring_to(next)),
                    None => assert!(self.system.advance_keyring()),
                }
                let key_version = self.system.wal_keyring().map(|k| k.version);
                self.open_segment(key_version);
                self.system.finish_keyring_change();
                Ok(())
            }
        }
    }

    fn rotate(&mut self, version: u32) -> Result<(), Error> {
        let next = WalKeyring::single_versioned(CipherHandle(9), version);
        let turn = self.system.seal_active_segment_for_rotation();
        self.roll(turn, Some(next))
    }

    fn install(&mut self, keyring: WalKeyring) -> Result<(), Error> {
        let turn = self.system.install_wal_keyring(keyring);
        self.roll(turn, None)
    }

    fn uninstall(&mut self) -> Result<(), Error> {
        let turn = self.system.uninstall_wal_keyring();
        self.roll(turn, None)
    }

    fn recovered_ids(&self) -> Vec<u64> {
        self.segments.iter().flat_map(|s| s.ids.iter().copied()).collect()
    }

    fn recovered_without_keyring(&self) -> Vec<u64> {
        self.segments
            .iter()
            .filter(|s| s.key_version.is_none())
            .flat_map(|s| s.ids.iter().copied())
            .collect()
    }

    fn all_segments_use_key_version(&self, version: u32) -> bool {
        self.segments.iter().all(|s| s.key_version == Some(version))
    }

    fn max_key_version(&self) -> Option<u32> {
        self.segments.iter().filter_map(|s| s.key_version).max()
    }

    fn register(&mut self) -> u64 {
        self.system
            .group_commit_mut()
            .expect("the mode has epochs")
            .register_transaction()
            .expect("registration succeeds")
            .0
    }

    fn refuse_next(&mut self, site: LockSite) {
        self.system.group_commit_mut().expect("the mode has epochs").refuse_next(site);
    }

    fn flushed_epoch(&mut self) -> u64 {
        self.system
            .group_commit_mut()
            .expect("the mode has epochs")
            .flushed_epoch()
            .expect("frontier readable")
    }

    fn wait_for_flush(&self, epoch: u64) -> Result<(), Error> {
        self.system
            .group_commit_coordinator()
            .expect("the mode has epochs")
            .wait_for_flush(epoch, 0)
            .expect("the epoch is over")
    }
}

fn flush_failure(what: &str) -> Result<(), Error> {
    Err(Error::other(what.to_string()))
}

#[test]
fn force_roll_writes_new_generation_and_recovers_both() {
    let mut config = synchronous();
    config.wal_cipher = Some(CipherHandle(7));
    let mut wal = Log::new(config);
    assert_eq!(wal.system.wal_keyring().expect("encrypted").version, INITIAL_WAL_KEY_VERSION);

    wal.append(create_test_operation(1)).unwrap();
    wal.append(create_test_operation(2)).unwrap();

    // Force-roll: what is buffered goes into the old segment, and the next one
    // starts under the new generation.
    wal.rotate(2).unwrap();

    wal.append(create_test_operation(3)).unwrap();
    wal.append(create_test_operation(4)).unwrap();
    wal.flush().unwrap();

    assert_eq!(
        wal.recovered_ids(),
        vec![1, 2, 3, 4],
        "all entries across both generations recover"
    );
    assert_eq!(wal.segments[0].ids, vec![1, 2]);
    assert_eq!(wal.segments[1].ids, vec![3, 4]);
    assert_eq!(wal.segments[0].key_version, Some(INITIAL_WAL_KEY_VERSION));
    assert_eq!(wal.segments[1].key_version, Some(2));
    assert_eq!(wal.system.wal_keyring().expect("encrypted").version, 2);
}

#[test]
fn a_roll_takes_buffered_entries_into_the_old_segment() {
    let mut wal = Log::new(asynchronous(10_000));
    wal.append(create_test_operation(1)).unwrap();
    wal.append(create_test_operation(2)).unwrap();
    wal.install(wal_keyring(7)).unwrap();
    wal.append(create_test_operation(3)).unwrap();
    wal.flush().unwrap();
    assert_eq!(wal.segments[0].ids, vec![1, 2]);
    assert_eq!(wal.segments[0].key_version, None);
    assert_eq!(wal.segments[1].ids, vec![3]);
    assert_eq!(wal.segments[1].key_version, Some(1));
}

/// Four writers commit in turn while the flush thread cycles now and then;
/// `midway` runs in the middle of it.
fn hammer(wal: &mut Log, midway: impl FnOnce(&mut Log)) -> u64 {
    let total = 4 * 200u64;
    let mut midway = Some(midway);
    for id in 1..=total {
        let turn = wal.system.append(create_test_operation(id), &codec(), id % 4);
        wal.place(turn).unwrap();
        assert!(matches!(wal.system.commit(), CommitTurn::Done(Ok(Some(_)))));
        if id == total / 2 {
            if let Some(run) = midway.take() {
                run(wal);
            }
        }
        if id % 7 == 0 {
            wal.cycle();
        }
    }
    wal.flush().unwrap();
    total
}

#[test]
fn append_hammer_across_force_roll_loses_nothing() {
    let mut config = config().with_durability_mode(DurabilityMode::GroupCommit {
        max_batch_size: 16,
        max_delay_ms: 2,
    });
    config.wal_cipher = Some(CipherHandle(7));
    let mut wal = Log::new(config);

    let total = hammer(&mut wal, |wal| {
        wal.rotate(2).unwrap();
    });

    let mut ids = wal.recovered_ids();
    ids.sort_unstable();
    ids.dedup();
    assert_eq!(ids.len() as u64, total, "every acknowledged entry across the roll must recover");
    assert_eq!(*ids.first().unwrap(), 1);
    assert_eq!(*ids.last().unwrap(), total);
}

#[test]
fn install_keyring_during_concurrent_appends_loses_nothing() {
    let mut wal = Log::new(config().with_durability_mode(DurabilityMode::GroupCommit {
        max_batch_size: 16,
        max_delay_ms: 2,
    }));

    let total = hammer(&mut wal, |wal| {
        wal.install(wal_keyring(7)).unwrap();
        assert!(wal.system.is_encrypted());
    });

    let mut ids = wal.recovered_ids();
    ids.sort_unstable();
    ids.dedup();
    assert_eq!(ids.len() as u64, total, "every acknowledged entry across the install must recover");
    assert_eq!(*ids.first().unwrap(), 1);
    assert_eq!(*ids.last().unwrap(), total);
}

#[test]
fn install_keyring_none_to_some_transition() {
    let mut wal = Log::new(synchronous());

    assert!(!wal.system.is_encrypted(), "a fresh plaintext WAL must not be encrypted");
    wal.append(create_test_operation(1)).unwrap();
    wal.append(create_test_operation(2)).unwrap();

    wal.install(wal_keyring(7)).unwrap();
    assert!(wal.system.is_encrypted(), "installing a keyring must flip the WAL to encrypted");
    assert_eq!(wal.system.wal_keyring(), Some(wal_keyring(7)));

    wal.append(create_test_operation(3)).unwrap();
    wal.flush().unwrap();

    assert_eq!(
        wal.recovered_ids(),
        vec![1, 2, 3],
        "pre-install plaintext and post-install encrypted records both recover in order"
    );
}

#[test]
fn install_keyring_mixed_format_recovery() {
    let mut wal = Log::new(synchronous());

    for id in 1..=5 {
        wal.append(create_test_operation(id)).unwrap();
    }
    wal.flush().unwrap();
    assert!(
        !wal.all_segments_use_key_version(1),
        "pre-install segments must be plaintext (no key_version stamp)"
    );

    wal.install(wal_keyring(9)).unwrap();

    for id in 6..=10 {
        wal.append(create_test_operation(id)).unwrap();
    }
    wal.flush().unwrap();

    assert!(
        !wal.all_segments_use_key_version(1),
        "a mixed plaintext+encrypted directory is not wholly one key_version"
    );
    assert_eq!(wal.max_key_version(), Some(1));
    assert_eq!(
        wal.recovered_ids(),
        (1..=10).collect::<Vec<_>>(),
        "both plaintext and encrypted cohorts recover in order"
    );
}

#[test]
fn install_keyring_post_install_segment_is_encrypted_at_rest() {
    let mut wal = Log::new(synchronous());

    for id in 1..=4 {
        wal.append(create_test_operation(id)).unwrap();
    }
    wal.flush().unwrap();
    assert_eq!(wal.max_key_version(), None, "before install all segments are plaintext");

    wal.install(wal_keyring(7)).unwrap();

    for id in 5..=8 {
        wal.append(create_test_operation(id)).unwrap();
    }
    wal.flush().unwrap();

    assert_eq!(wal.max_key_version(), Some(1), "the post-install cohort must be encrypted");
    assert_eq!(wal.recovered_ids(), (1..=8).collect::<Vec<_>>());

    let ids = wal.recovered_without_keyring();
    for id in 1..=4 {
        assert!(ids.contains(&id), "record {} must still read without a keyring", id);
    }
    for id in 5..=8 {
        assert!(!ids.contains(&id), "record {} must not read without the keyring", id);
    }
}

#[test]
fn install_keyring_twice_is_rejected() {
    let mut wal = Log::new(synchronous());

    wal.append(create_test_operation(1)).unwrap();
    wal.install(wal_keyring(7)).unwrap();
    wal.append(create_test_operation(2)).unwrap();

    let err = wal
        .install(wal_keyring(9))
        .expect_err("a second install must be rejected, not silently applied");
    let msg = err.message();
    assert!(
        msg.contains("keyring") || msg.contains("already"),
        "rejection error should explain a keyring is already present, got: {}",
        msg
    );
    assert!(matches!(err, Error::Storage(StorageError::WalKeyringAlreadyInstalled { .. })));
    assert_eq!(wal.system.wal_keyring(), Some(wal_keyring(7)));

    assert!(wal.system.is_encrypted());
    wal.append(create_test_operation(3)).unwrap();
    wal.flush().unwrap();
    assert_eq!(
        wal.recovered_ids(),
        vec![1, 2, 3],
        "a rejected double-install must not lose or corrupt any records"
    );
}

#[test]
fn install_keyring_concurrent_double_install_rejected() {
    let mut wal = Log::new(synchronous());
    for id in 1..=3 {
        wal.append(create_test_operation(id)).unwrap();
    }
    wal.flush().unwrap();

    // While the first install is under way the second waits, and is rejected
    // once it gets its turn.
    let first = wal.system.install_wal_keyring(wal_keyring(7));
    assert!(matches!(wal.system.install_wal_keyring(wal_keyring(9)), KeyringTurn::Busy));
    assert!(matches!(wal.system.uninstall_wal_keyring(), KeyringTurn::Busy));
    wal.roll(first, None).unwrap();
    assert!(wal.install(wal_keyring(9)).is_err());
    assert!(wal.system.is_encrypted(), "the survivor keyring must be installed");
    assert_eq!(wal.system.wal_keyring(), Some(wal_keyring(7)));

    for id in 4..=6 {
        wal.append(create_test_operation(id)).unwrap();
    }
    wal.flush().unwrap();
    assert_eq!(wal.max_key_version(), Some(1));
    assert_eq!(wal.recovered_ids(), (1..=6).collect::<Vec<_>>());
}

#[test]
fn uninstall_keyring_some_to_none_transition() {
    let mut wal = Log::new(synchronous());

    wal.install(wal_keyring(7)).unwrap();
    assert!(wal.system.is_encrypted(), "the WAL must be encrypted before uninstall");

    for id in 1..=4 {
        wal.append(create_test_operation(id)).unwrap();
    }
    wal.flush().unwrap();

    wal.uninstall().unwrap();
    assert!(!wal.system.is_encrypted(), "uninstalling must flip the WAL to plaintext");

    for id in 5..=8 {
        wal.append(create_test_operation(id)).unwrap();
    }
    wal.flush().unwrap();

    assert_eq!(wal.recovered_ids(), (1..=8).collect::<Vec<_>>());
    assert_eq!(wal.recovered_without_keyring(), (5..=8).collect::<Vec<_>>());
}

#[test]
fn uninstall_keyring_when_plaintext_is_rejected() {
    let mut wal = Log::new(synchronous());

    wal.append(create_test_operation(1)).unwrap();
    wal.append(create_test_operation(2)).unwrap();

    let err = wal
        .uninstall()
        .expect_err("uninstalling a plaintext WAL must be rejected, not silently applied");
    let msg = err.message();
    assert!(
        msg.contains("keyring") || msg.contains("plaintext") || msg.contains("not"),
        "rejection error should explain no keyring is installed, got: {}",
        msg
    );
    assert!(matches!(err, Error::Storage(StorageError::WalKeyringNotInstalled { .. })));

    assert!(!wal.system.is_encrypted());
    wal.append(create_test_operation(3)).unwrap();
    wal.flush().unwrap();
    assert_eq!(
        wal.recovered_ids(),
        vec![1, 2, 3],
        "a rejected uninstall must not lose or corrupt any records"
    );
}

#[test]
fn a_failed_seal_calls_the_keyring_change_off() {
    let mut wal = Log::new(asynchronous(10_000));
    wal.append(create_test_operation(1)).unwrap();
    wal.broken_disk = Some("disk full".to_string());
    assert_eq!(wal.install(wal_keyring(7)).unwrap_err(), Error::other("disk full".to_string()));
    assert!(!wal.system.is_encrypted());
    // The next attempt is not in the way of a change that is still under way.
    wal.install(wal_keyring(9)).unwrap();
    assert_eq!(wal.system.wal_keyring(), Some(wal_keyring(9)));
}

#[test]
fn everything_is_flushed_before_the_keyring_moves_on() {
    let mut wal = Log::new(asynchronous(10_000));
    wal.append(create_test_operation(1)).unwrap();
    let KeyringTurn::Seal(Some(request)) = wal.system.install_wal_keyring(wal_keyring(7)) else {
        panic!("there is something to flush");
    };
    assert!(request.sync);

    // The flush is not over yet.
    assert!(!wal.system.advance_keyring());
    assert!(!wal.system.is_encrypted());
    assert!(matches!(wal.system.seal_active_segment_for_rotation(), KeyringTurn::Busy));
    assert!(matches!(wal.system.uninstall_wal_keyring(), KeyringTurn::Busy));

    wal.system.finish_seal_flush(request, Ok(())).unwrap();
    assert!(!wal.system.is_encrypted());
    assert!(wal.system.advance_keyring());
    assert!(wal.system.is_encrypted());
    assert!(!wal.system.advance_keyring(), "once is enough");
    wal.system.finish_keyring_change();
    assert!(!wal.system.advance_keyring());
    assert_eq!(wal.system.wal_keyring(), Some(wal_keyring(7)));
}

#[test]
fn a_rotation_advances_once_and_only_after_its_flush() {
    let mut wal = Log::new(asynchronous(10_000));
    // Without anything to flush it can go on at once.
    assert!(matches!(wal.system.seal_active_segment_for_rotation(), KeyringTurn::Seal(None)));
    assert!(wal.system.advance_keyring());
    assert!(!wal.system.advance_keyring());
    wal.system.finish_keyring_change();

    wal.append(create_test_operation(1)).unwrap();
    let KeyringTurn::Seal(Some(request)) = wal.system.seal_active_segment_for_rotation() else {
        panic!("there is something to flush");
    };
    assert_eq!(
        wal.system.finish_seal_flush(request, flush_failure("disk full")).unwrap_err(),
        Error::other("disk full".to_string())
    );
    assert!(!wal.system.advance_keyring(), "a failed flush calls the rotation off");
    assert_eq!(wal.segments.len(), 1);
}

#[test]
fn a_rotation_moves_the_keyring_on_for_everybody() {
    let mut config = asynchronous(10_000);
    config.wal_cipher = Some(CipherHandle(7));
    let mut wal = Log::new(config);
    let next = WalKeyring::single_versioned(CipherHandle(9), 2);
    assert!(!wal.system.advance_keyring_to(next), "no rotation is under way");

    wal.append(create_test_operation(1)).unwrap();
    let KeyringTurn::Seal(Some(request)) = wal.system.seal_active_segment_for_rotation() else {
        panic!("there is something to flush");
    };
    assert!(!wal.system.advance_keyring_to(next), "the flush comes first");
    assert_eq!(wal.system.wal_keyring(), Some(wal_keyring(7)));

    wal.system.finish_seal_flush(request, Ok(())).unwrap();
    assert!(wal.system.advance_keyring_to(next));
    assert_eq!(wal.system.wal_keyring(), Some(next));
    assert!(!wal.system.advance_keyring_to(wal_keyring(8)), "once is enough");
    assert!(!wal.system.advance_keyring());
    wal.system.finish_keyring_change();
    assert_eq!(wal.system.wal_keyring(), Some(next));
    assert!(wal.system.is_encrypted());
}

#[test]
fn a_failed_flush_leaves_the_old_generation_in_place() {
    let mut config = asynchronous(10_000);
    config.wal_cipher = Some(CipherHandle(7));
    let mut wal = Log::new(config);
    wal.append(create_test_operation(1)).unwrap();
    wal.broken_disk = Some("disk full".to_string());
    assert_eq!(wal.rotate(2).unwrap_err(), Error::other("disk full".to_string()));
    assert_eq!(wal.system.wal_keyring(), Some(wal_keyring(7)));
    assert_eq!(wal.segments.len(), 1);

    wal.rotate(2).unwrap();
    assert_eq!(wal.system.wal_keyring(), Some(WalKeyring::single_versioned(CipherHandle(9), 2)));
    assert_eq!(wal.segments.last().expect("the fresh segment").key_version, Some(2));
}

#[test]
fn only_a_rotation_of_an_encrypted_log_replaces_its_keyring() {
    let next = WalKeyring::single_versioned(CipherHandle(9), 2);
    let mut wal = Log::new(asynchronous(10_000));
    assert!(matches!(wal.system.seal_active_segment_for_rotation(), KeyringTurn::Seal(None)));
    assert!(!wal.system.advance_keyring_to(next), "a plaintext log has no generations");
    assert!(!wal.system.is_encrypted());
    assert!(wal.system.advance_keyring());
    wal.system.finish_keyring_change();

    let turn = wal.system.install_wal_keyring(wal_keyring(7));
    assert!(matches!(turn, KeyringTurn::Seal(None)));
    assert!(!wal.system.advance_keyring_to(next));
    assert!(wal.system.advance_keyring());
    assert_eq!(wal.system.wal_keyring(), Some(wal_keyring(7)));
    wal.system.finish_keyring_change();

    assert!(matches!(wal.system.uninstall_wal_keyring(), KeyringTurn::Seal(None)));
    assert!(!wal.system.advance_keyring_to(next));
    assert!(wal.system.advance_keyring());
    assert!(!wal.system.is_encrypted());
}

#[test]
fn the_initial_keyring_follows_the_configuration() {
    let mut config = synchronous();
    config.wal_cipher = Some(CipherHandle(3));
    config.wal_key_version = Some(5);
    let wal = ConcurrentWalSystem::new(config, 1).unwrap();
    assert!(wal.is_encrypted());
    assert_eq!(wal.wal_keyring(), Some(WalKeyring { cipher: CipherHandle(3), version: 5 }));

    let mut config = synchronous();
    config.wal_key_version = Some(5);
    assert!(!ConcurrentWalSystem::new(config, 1).unwrap().is_encrypted());
}

#[test]
fn test_concurrent_wal_system_creation() {
    let wal = ConcurrentWalSystem::new(config(), 1).unwrap();

    assert_eq!(wal.total_appends(), 0);
    assert_eq!(wal.current_lsn(), LSN(1));
}

#[test]
fn system_accessors_follow_the_configuration() {
    let mut config = group_commit_config(20).with_max_append_block_ms(77);
    config.tolerate_torn_tail = false;
    config.segment_size = 4096;
    let mut wal = ConcurrentWalSystem::new(config, 1).unwrap();
    assert_eq!(wal.wal_dir(), "wal");
    assert_eq!(wal.flush_interval_ms(), 20);
    assert_eq!(wal.max_append_block_ms(), 77);
    assert!(!wal.tolerate_torn_tail());
    assert_eq!(wal.flush_coordinator_config().segment_size, 4096);
    assert!(wal.durability_mode().is_group_commit());
    assert_eq!(wal.wal().num_stripes(), 16);
    wal.set_next_lsn(LSN(40));
    assert_eq!(wal.current_lsn(), LSN(40));
    wal.set_next_lsn(LSN(3));
    assert_eq!(wal.current_lsn(), LSN(40), "the allocator never moves backwards");
}

#[test]
fn test_append_sync_mode() {
    let mut wal = Log::new(synchronous());

    let lsn = wal.append(create_test_operation(1)).unwrap();
    assert_eq!(lsn, LSN(1));
    assert_eq!(wal.system.total_appends(), 1);
}

#[test]
fn test_append_sync_mode_handles_more_than_stripe_capacity() {
    let mut config = synchronous();
    config.stripe_capacity = 8;
    let mut wal = Log::new(config);

    for i in 1..=64 {
        let lsn = wal.append(create_test_operation(i)).unwrap();
        assert_eq!(lsn, LSN(i));
    }

    assert_eq!(wal.system.total_appends(), 64);
    assert_eq!(wal.system.total_flushed(), 64);
}

#[test]
fn test_append_async_mode() {
    let mut wal = Log::new(asynchronous(10_000).with_flush_interval_ms(10_000));

    for i in 1..=10 {
        let lsn = wal.append(create_test_operation(i)).unwrap();
        assert_eq!(lsn, LSN(i));
    }

    assert_eq!(wal.system.total_appends(), 10);

    wal.flush().unwrap();
    assert_eq!(wal.system.total_flushed(), 10, "All 10 entries should be flushed");

    wal.shutdown();
    assert_eq!(wal.system.total_flushed(), 10, "All 10 entries should be flushed");
}

#[test]
fn concurrent_system_test_concurrent_appends() {
    let mut wal = Log::new(asynchronous(100).with_num_stripes(4));

    let num_threads = 4u64;
    let ops_per_thread = 100u64;

    for i in 0..ops_per_thread {
        for t in 0..num_threads {
            let id = t * ops_per_thread + i + 1;
            let turn = wal.system.append_async(create_test_operation(id), &codec(), t);
            wal.place(turn).unwrap();
        }
    }

    assert_eq!(wal.system.total_appends(), num_threads * ops_per_thread);
}

#[test]
fn test_flush_persists_entries() {
    let mut wal = Log::new(synchronous());

    for i in 1..=5 {
        wal.append_async(create_test_operation(i)).unwrap();
    }

    let stats = wal.flush().unwrap();
    assert_eq!(stats.entries_flushed, 5);

    assert_eq!(wal.system.total_flushed(), 5);

    wal.shutdown();
}

#[test]
fn test_group_commit_mode() {
    let mut wal = Log::new(
        config()
            .with_durability_mode(DurabilityMode::GroupCommit {
                max_batch_size: 10,
                max_delay_ms: 10,
            })
            .with_flush_interval_ms(5),
    );

    for i in 1..=5 {
        wal.append(create_test_operation(i)).unwrap();
    }

    wal.cycle();
    assert!(wal.system.total_flushed() >= 1);

    wal.shutdown();
}

#[test]
fn shutdown_flushes_what_a_synchronous_log_has_buffered() {
    let mut wal = Log::new(synchronous());
    wal.append_async(create_test_operation(1)).unwrap();
    assert_eq!(wal.system.total_flushed(), 0);

    wal.shutdown();
    assert_eq!(wal.system.total_flushed(), 1);
    assert_eq!(wal.recovered_ids(), vec![1]);
    assert!(wal.system.finish_shutdown().is_none(), "nothing is left");
    assert!(wal.append_async(create_test_operation(2)).is_err());
}

#[test]
fn the_flush_thread_ends_with_a_final_flush() {
    for mode in [asynchronous(100), group_commit_config(20)] {
        let mut wal = Log::new(mode);
        assert_eq!(BackgroundFlusher::next_step(&wal.system), FlushStep::Cycle);
        wal.append_async(create_test_operation(1)).unwrap();
        let limit = wal.system.shutdown(0);
        assert_eq!(BackgroundFlusher::next_step(&wal.system), FlushStep::Cycle);
        assert_eq!(wal.system.poll_shutdown(0, limit), Some(None));
        assert_eq!(BackgroundFlusher::next_step(&wal.system), FlushStep::FinalFlush);

        let turn = wal.flusher.perform_final_flush(&mut wal.system);
        let CycleTurn::Write(cycle) = &turn.0 else { panic!("there is something to write") };
        assert!(cycle.sync);
        assert_eq!(cycle.entries.len(), 1);
        wal.finish(turn);
        wal.system.flush_thread_joined();
        assert!(wal.system.finish_shutdown().is_none());
        assert_eq!(wal.system.total_flushed(), 1);
    }
}

#[test]
fn a_batch_that_lost_a_part_is_not_durable() {
    let mut config = synchronous().with_num_stripes(1);
    config.stripe_capacity = 2;
    let mut wal = Log::new(config);
    let operations: Vec<WalOperation> = (1..=3).map(create_test_operation).collect();
    let BatchTurn::Blocked(batch) = wal.system.append_batch(operations, &codec(), 0) else {
        panic!("the batch does not fit");
    };

    // Another thread flushes the first two entries, and the disk fails.
    let request = wal.system.flush_now().expect("two entries");
    assert_eq!(request.entries.len(), 2);
    wal.system.settle_flush(request, flush_failure("disk full")).unwrap_err();

    let (turn, _) = wal.system.batch_retry(batch, 0);
    let BatchTurn::Placed { lsns, handles } = turn else { panic!("there is room now") };
    assert_eq!(lsns, vec![LSN(1), LSN(2), LSN(3)]);
    let request = wal.system.flush_now().expect("the last entry");
    assert_eq!(request.entries.len(), 1);
    wal.system.finish_sync_batch(&handles, request, Ok(())).unwrap();

    let error = wal.system.wait_batch_flushed(&handles, 0).expect("answered").unwrap_err();
    assert!(error.message().contains("WAL flush failed: "), "{}", error.message());
    assert_eq!(wal.system.total_flushed(), 1);
}

#[test]
fn a_batch_is_waited_for_until_all_of_it_is_durable() {
    let mut wal = Log::new(synchronous());
    let operations: Vec<WalOperation> = (1..=2).map(create_test_operation).collect();
    let BatchTurn::Placed { handles, .. } = wal.system.append_batch(operations, &codec(), 0) else {
        panic!("there is room");
    };
    assert!(wal.system.wait_batch_flushed(&handles, 0).is_none());
    let request = wal.system.flush_now().expect("two entries");
    wal.system.finish_sync_batch(&handles, request, Ok(())).unwrap();
    assert_eq!(wal.system.wait_batch_flushed(&handles, 0), Some(Ok(())));
    assert_eq!(wal.system.wait_batch_flushed(&vec![], 0), Some(Ok(())));

    let operations: Vec<WalOperation> = (3..=4).map(create_test_operation).collect();
    let BatchTurn::Placed { handles, .. } = wal.system.append_batch(operations, &codec(), 0) else {
        panic!("there is room");
    };
    let error = wal
        .system
        .wait_batch_flushed(&handles, 120_000_000_000)
        .expect("the time is up")
        .unwrap_err();
    assert!(error.message().contains("Completion wait timed out after "), "{}", error.message());
}

#[test]
fn test_shutdown_flushes_remaining() {
    let mut wal = Log::new(asynchronous(100));

    for i in 1..=5 {
        wal.append_async(create_test_operation(i)).unwrap();
    }

    wal.shutdown();

    assert_eq!(wal.system.total_flushed(), 5);
    assert!(wal.append(create_test_operation(6)).is_err(), "the log is shut down");
}

#[test]
fn test_append_batch_async() {
    let mut wal = Log::new(asynchronous(10_000));

    let ops = vec![
        create_test_operation(1),
        create_test_operation(2),
        create_test_operation(3),
    ];

    let lsns = wal.append_batch(ops).unwrap();

    assert_eq!(lsns.len(), 3);
    assert_eq!(lsns[0], LSN(1));
    assert_eq!(lsns[1], LSN(2));
    assert_eq!(lsns[2], LSN(3));
    assert_eq!(wal.system.total_appends(), 3);
}

#[test]
fn test_append_batch_sync() {
    let mut wal = Log::new(synchronous());

    let ops = vec![create_test_operation(1), create_test_operation(2)];

    let lsns = wal.append_batch(ops).unwrap();

    assert_eq!(lsns.len(), 2);
    assert_eq!(lsns[0], LSN(1));
    assert_eq!(lsns[1], LSN(2));
    assert_eq!(wal.system.total_appends(), 2);
}

#[test]
fn test_append_batch_empty() {
    let mut wal = Log::new(config());

    let lsns = wal.append_batch(vec![]).unwrap();

    assert_eq!(lsns.len(), 0);
    assert_eq!(wal.system.total_appends(), 0);
}

#[test]
fn test_append_batch_large() {
    let mut wal = Log::new(asynchronous(10_000));

    let ops: Vec<_> = (1..=100).map(create_test_operation).collect();

    let lsns = wal.append_batch(ops).unwrap();

    assert_eq!(lsns.len(), 100);
    assert_eq!(lsns[0], LSN(1));
    assert_eq!(lsns[99], LSN(100));
    assert_eq!(wal.system.total_appends(), 100);
}

#[test]
fn test_append_sync_persistence_guarantee() {
    let mut wal = Log::new(synchronous());

    assert_eq!(wal.system.total_flushed(), 0);

    let turn = wal.system.append_sync(create_test_operation(1), &codec(), 0);
    let (lsn, waited) = wal.place(turn).unwrap();
    assert_eq!(waited, Some(1), "a synchronous append waits");

    assert_eq!(wal.system.total_flushed(), 1, "Should be flushed immediately after return");
    assert_eq!(lsn, LSN(1));

    let ops = vec![create_test_operation(2), create_test_operation(3)];
    let lsns = wal.append_batch(ops).unwrap();

    assert_eq!(wal.system.total_flushed(), 3, "Batch should be flushed immediately");
    assert_eq!(lsns.len(), 2);
}

#[test]
fn a_failed_synchronous_flush_fails_the_append() {
    let mut wal = Log::new(synchronous());
    wal.broken_disk = Some("disk full".to_string());
    assert_eq!(
        wal.append(create_test_operation(1)).unwrap_err(),
        Error::other("disk full".to_string())
    );
    assert_eq!(wal.system.total_flushed(), 0);
    // The next append is on its own.
    assert_eq!(wal.append(create_test_operation(2)).unwrap(), LSN(2));
    assert_eq!(wal.recovered_ids(), vec![2]);
}

#[test]
fn test_synchronous_mode_async_append_blames_the_caller_not_a_flusher() {
    let mut config = synchronous().with_num_stripes(1).with_max_append_block_ms(200);
    config.stripe_capacity = 2;
    let mut wal = Log::new(config);

    let ops: Vec<WalOperation> = (0..6).map(|_| create_test_operation(1)).collect();
    let turn = wal.system.append_batch_async(ops, &codec(), 0);
    let message = wal.place_batch(turn).map_err(|e| e.message()).unwrap_err();

    assert!(message.contains("no consumer is draining the buffer"), "got: {}", message);
    assert!(!message.contains("background flusher"), "got: {}", message);
}

#[test]
fn an_asynchronous_append_blames_the_flusher() {
    let mut config = asynchronous(10).with_num_stripes(1).with_max_append_block_ms(200);
    config.stripe_capacity = 2;
    let mut wal = Log::new(config);
    for i in 1..=2 {
        wal.append(create_test_operation(i)).unwrap();
    }
    let message = wal.append(create_test_operation(3)).unwrap_err().message();
    assert!(message.contains("background flusher"), "got: {}", message);
    assert!(message.contains("200ms"), "got: {}", message);
}

#[test]
fn test_stranded_finish_flush_is_retried_and_unwedges_the_frontier() {
    let mut wal = Log::new(group_commit_config(3_600_000));

    let epoch = wal.register();
    let errors_before = wal.system.flush_cycle_errors();

    // Cycle 1: start_flush opens `epoch`, finish_flush is refused.
    wal.refuse_next(LockSite::FinishFlush);
    wal.cycle();

    assert_eq!(
        wal.system.flush_cycle_errors(),
        errors_before + 1,
        "the refused finish_flush must be counted, not swallowed silently"
    );
    assert!(
        wal.flushed_epoch() < epoch,
        "precondition: the frontier is frozen behind the stranded epoch"
    );

    // Cycle 2: the retained epoch is retried and lands.
    wal.cycle();
    assert!(wal.flushed_epoch() >= epoch, "the durability frontier never recovered");
    wal.wait_for_flush(epoch)
        .expect("the transaction waiting on the stranded epoch must be released");

    let next_epoch = wal.register();
    wal.cycle();
    assert!(
        wal.flushed_epoch() >= next_epoch,
        "a transaction registered after the strand must still reach durability"
    );
    wal.wait_for_flush(next_epoch)
        .expect("post-recovery commit must not wait out its deadlock-detection timeout");
}

#[test]
fn test_failed_flush_outcome_survives_an_outstanding_pending_finish() {
    let mut wal = Log::new(group_commit_config(3_600_000));

    // Epoch A: opened, then stranded by a refused finish_flush.
    let epoch_a = wal.register();
    wal.refuse_next(LockSite::FinishFlush);
    wal.cycle();
    assert!(wal.flushed_epoch() < epoch_a, "epoch A must be stranded before the failing flush");

    // Epoch B: registered behind the strand, whose flush then fails on disk.
    let epoch_b = wal.register();
    assert!(epoch_b > epoch_a, "B must be the epoch after A");
    wal.flusher
        .simulate_flush_outcome(&mut wal.system, flush_failure("injected disk flush failure"));

    wal.cycle();
    wal.cycle();
    assert!(wal.flushed_epoch() >= epoch_b, "the frontier never recovered past epoch B");

    wal.wait_for_flush(epoch_a)
        .expect("epoch A's flush succeeded, so its waiters must be released cleanly");

    let err = wal
        .wait_for_flush(epoch_b)
        .expect_err("epoch B's flush FAILED, but its waiters were told it is durable");
    let msg = err.message();
    assert!(
        msg.contains("injected disk flush failure"),
        "the epoch's own flush error must reach its waiters, got: {}",
        msg
    );
}

#[test]
fn test_queued_finishes_drain_fifo_with_their_own_outcomes() {
    let mut wal = Log::new(group_commit_config(3_600_000));

    // Strand A with a SUCCESSFUL outcome.
    let epoch_a = wal.register();
    wal.refuse_next(LockSite::FinishFlush);
    wal.cycle();

    // Strand B, behind A, with a FAILING outcome.
    let epoch_b = wal.register();
    wal.refuse_next(LockSite::FinishFlush);
    wal.flusher
        .simulate_flush_outcome(&mut wal.system, flush_failure("epoch B never reached disk"));

    // One cycle drains both, oldest first.
    wal.cycle();
    assert!(wal.flushed_epoch() >= epoch_b, "both queued finishes must land");

    wal.wait_for_flush(epoch_a)
        .expect("epoch A succeeded and must resolve as a success");
    let msg = wal
        .wait_for_flush(epoch_b)
        .expect_err("epoch B failed and must resolve as a failure")
        .message();
    assert!(
        msg.contains("epoch B never reached disk"),
        "each queued epoch must carry its own outcome, got: {}",
        msg
    );
}

#[test]
fn a_retry_stops_at_the_first_refusal() {
    let mut wal = Log::new(group_commit_config(3_600_000));

    // Three stranded epochs; the second one failed.
    let mut epochs = Vec::new();
    for outcome in [Ok(()), flush_failure("second"), Ok(())] {
        epochs.push(wal.register());
        wal.refuse_next(LockSite::FinishFlush);
        wal.flusher.simulate_flush_outcome(&mut wal.system, outcome);
    }
    assert_eq!(wal.flushed_epoch(), 0);

    // One finish gets through, and the next one is refused.
    wal.system
        .group_commit_mut()
        .expect("epochs")
        .refuse_after(LockSite::FinishFlush, 1);
    let note = wal.flusher.drain_pending_finishes(&mut wal.system).unwrap_err();
    assert!(note.log.expect("a line").contains("retrying the deferred group-commit finish_flush"));
    assert_eq!(wal.flushed_epoch(), epochs[0]);

    // The rest lands later, each epoch with its own outcome.
    assert!(wal.flusher.drain_pending_finishes(&mut wal.system).is_ok());
    assert_eq!(wal.flushed_epoch(), epochs[2]);
    wal.wait_for_flush(epochs[0]).unwrap();
    assert!(wal.wait_for_flush(epochs[1]).unwrap_err().message().contains("second"));
    wal.wait_for_flush(epochs[2]).unwrap();
}

#[test]
fn test_failed_flush_outcome_survives_a_refused_start_flush() {
    let mut wal = Log::new(group_commit_config(3_600_000));

    let epoch = wal.register();

    // The disk flush fails AND the epoch cannot be opened to report it.
    wal.refuse_next(LockSite::StartFlush);
    wal.flusher.simulate_flush_outcome(
        &mut wal.system,
        flush_failure("disk exploded before the epoch opened"),
    );

    // The next cycle opens that same epoch (nothing advanced).
    wal.cycle();
    assert!(
        wal.flushed_epoch() >= epoch,
        "the frontier must still advance once the coordinator recovers"
    );

    let msg = wal
        .wait_for_flush(epoch)
        .expect_err("the lost flush was reported as a clean success")
        .message();
    assert!(
        msg.contains("disk exploded before the epoch opened"),
        "the carried failure must name the original error, got: {}",
        msg
    );
}

#[test]
fn the_flusher_does_not_drain_inside_the_append_register_window() {
    let mut config = group_commit_config(3_600_000).with_num_stripes(1);
    config.stripe_capacity = 2;
    let mut wal = Log::new(config);

    // The frame needs three slots: the transaction is blocked inside its
    // window, and the flusher has to wait.
    let ops = vec![
        WalOperation::BeginTx { tx_id: 1 },
        create_test_operation(1),
        WalOperation::CommitTx { tx_id: 1, entry_count: 1, commit_timestamp: 5 },
    ];
    let batch = match wal.system.append_batch_and_commit(ops, &codec(), 0) {
        FrameTurn::Blocked(batch) => batch,
        _ => panic!("three entries do not fit into two slots"),
    };
    assert!(wal.system.is_membership_held());
    assert!(matches!(BackgroundFlusher::drain_and_open_epoch(&mut wal.system), DrainTurn::Busy));
    assert!(matches!(
        wal.system.append_batch_and_commit(vec![create_test_operation(9)], &codec(), 0),
        FrameTurn::Busy(_)
    ));

    // An explicit flush makes room, and the transaction registers.
    let batch = match wal.system.frame_blocked(batch, 0) {
        FrameWait::Spin { blocked } => blocked,
        FrameWait::Nap { .. } => panic!("a writer spins first"),
        FrameWait::Refused(error) => panic!("{:?}", error),
    };
    assert_eq!(wal.flush().unwrap().entries_flushed, 2);
    let wait_epoch = match wal.system.frame_retry(batch, MS).0 {
        FrameTurn::Done(Ok((Some(LSN(1)), Some(epoch)))) => epoch,
        _ => panic!("the frame is placed"),
    };
    assert!(!wal.system.is_membership_held());

    // The drain sees the registered transaction; a failing flush reaches it.
    wal.broken_disk = Some("the frame never reached disk".to_string());
    let lines = wal.cycle();
    assert!(lines[0].contains("the frame never reached disk"), "got: {}", lines[0]);
    let msg = wal.wait_for_flush(wait_epoch).expect_err("the flush failed").message();
    assert!(msg.contains("the frame never reached disk"), "got: {}", msg);
}

#[test]
fn test_flush_thread_survives_injected_cycle_error() {
    let mut wal = Log::new(group_commit_config(20));

    wal.system.inject_cycle_error();
    let lines = wal.cycle();

    assert!(wal.system.flush_cycle_errors() >= 1, "no cycle was ever skipped-and-counted");
    assert!(lines[0].starts_with("WAL flush cycle skipped: "), "got: {}", lines[0]);

    let beat_after_error = wal.system.flush_heartbeat();
    wal.cycle();
    assert!(
        wal.system.flush_heartbeat() > beat_after_error,
        "the flush thread did not survive the injected error"
    );
    assert_eq!(wal.system.flush_cycle_errors(), 1, "the error was injected once");

    wal.append(create_test_operation(1))
        .expect("append after an injected flush-cycle error must succeed");
    wal.flush()
        .expect("flush after an injected flush-cycle error must succeed");
    assert!(wal.system.total_flushed() >= 1, "the post-error append must reach disk");
}

#[test]
fn the_flush_path_survives_every_refusal() {
    for site in [
        LockSite::Register,
        LockSite::StartFlush,
        LockSite::FinishFlush,
        LockSite::BatchSize,
        LockSite::Frontier,
    ] {
        for broken in [false, true] {
            let mut wal = Log::new(group_commit_config(20));
            wal.append(create_test_operation(1)).unwrap();
            let epoch = wal.register();
            wal.refuse_next(site);
            if broken {
                wal.broken_disk = Some("disk gone".to_string());
            }
            wal.cycle();
            let turn = wal.flusher.perform_final_flush(&mut wal.system);
            wal.finish(turn);
            // Whatever was refused, the transaction is answered for what
            // became of its entries.
            if site != LockSite::Frontier && site != LockSite::Register {
                assert!(wal.flushed_epoch() >= epoch, "{:?}", site);
            }
            if wal.recovered_ids().is_empty() {
                assert!(wal.wait_for_flush(epoch).is_err(), "{:?}", site);
            } else {
                assert!(wal.wait_for_flush(epoch).is_ok(), "{:?}", site);
            }
        }
    }
}

#[test]
fn a_poisoned_coordinator_ends_the_flush_thread() {
    let mut wal = Log::new(group_commit_config(20));
    wal.system.group_commit_mut().expect("epochs").poison();
    let (turn, notes) = wal.flusher.perform_flush_cycle(&mut wal.system);
    assert!(matches!(turn, CycleTurn::Fatal));
    assert!(notes.iter().any(|n| n.fatal.is_some()));
}

#[test]
fn test_flush_heartbeat_advances() {
    let mut wal = Log::new(group_commit_config(10));

    wal.cycle();
    assert!(wal.system.flush_heartbeat() >= 1, "the flusher publishes no liveness signal");

    let first = wal.system.flush_heartbeat();
    wal.cycle();
    assert!(wal.system.flush_heartbeat() > first, "the signal does not advance per cycle");
}

#[test]
fn test_is_healthy_detects_stale_heartbeat() {
    // One startup cycle, then a ~1h sleep.
    let mut wal = Log::new(group_commit_config(3_600_000));
    wal.cycle();
    wal.system.set_health_staleness_override_micros(50_000); // 50ms

    assert!(wal.system.is_healthy(2));
    assert!(
        !wal.system.is_healthy(5_000_000),
        "a wedged flusher is invisible to health checks"
    );
    assert_eq!(
        wal.system.consecutive_flush_errors(),
        0,
        "no flush actually failed here; only the heartbeat is stale"
    );
}

#[test]
fn test_is_healthy_true_without_flush_thread() {
    let mut wal = Log::new(synchronous());

    assert_eq!(wal.system.flush_heartbeat(), 0, "Synchronous mode runs no background flusher");
    wal.system.set_health_staleness_override_micros(1); // absurdly strict

    assert!(
        wal.system.is_healthy(20_000),
        "a WAL with no flush thread has no heartbeat that can go stale"
    );
    wal.append(create_test_operation(1)).unwrap();
    assert!(wal.system.is_healthy(u64::MAX));
}

#[test]
fn repeated_flush_errors_are_unhealthy_until_one_succeeds() {
    let mut wal = Log::new(asynchronous(10));
    let mut last = Vec::new();
    for i in 1..=3 {
        wal.append(create_test_operation(i)).unwrap();
        wal.broken_disk = Some("disk gone".to_string());
        last = wal.cycle();
        assert_eq!(wal.system.consecutive_flush_errors(), i);
    }
    assert_eq!(
        last,
        vec![
            "CRITICAL: WAL flush failed 3 consecutive times. Data durability may be \
             compromised. Last error: disk gone"
                .to_string()
        ]
    );
    assert!(!wal.system.is_healthy(1));

    wal.append(create_test_operation(4)).unwrap();
    assert!(wal.cycle().is_empty());
    assert_eq!(wal.system.consecutive_flush_errors(), 0);
    assert!(wal.system.is_healthy(1));
    assert_eq!(wal.recovered_ids(), vec![4]);
}

#[test]
fn test_staleness_threshold_formula() {
    assert_eq!(
        heartbeat_staleness_threshold(10),
        5_000,
        "short intervals are floored at 5s"
    );
    assert_eq!(
        heartbeat_staleness_threshold(200),
        5_000,
        "2s of ten-intervals is still below the floor"
    );
    assert_eq!(
        heartbeat_staleness_threshold(1000),
        10_000,
        "above the floor the threshold is 10x the interval"
    );
    assert_eq!(
        heartbeat_staleness_threshold(0),
        5_000,
        "a zero interval still gets the floor"
    );
}

#[test]
fn commits_follow_the_durability_mode() {
    // Asynchronous: nobody waits.
    let mut wal = Log::new(asynchronous(10));
    wal.append(create_test_operation(1)).unwrap();
    assert!(matches!(wal.system.commit(), CommitTurn::Done(Ok(None))));

    // Synchronous: the commit flushes what is buffered.
    let mut wal = Log::new(synchronous());
    wal.append_async(create_test_operation(1)).unwrap();
    match wal.system.commit() {
        CommitTurn::Flush(request) => {
            assert_eq!(request.entries.len(), 1);
            assert!(request.sync);
            let written = wal.write(&request.entries);
            assert_eq!(wal.system.finish_commit(request, written), Ok(None));
        }
        CommitTurn::Done(_) => panic!("something is buffered"),
    }
    assert!(matches!(wal.system.commit(), CommitTurn::Done(Ok(None))));

    // Group commit: the transaction waits for the open epoch.
    let mut wal = Log::new(group_commit_config(10));
    assert!(matches!(wal.system.commit(), CommitTurn::Done(Ok(Some(1)))));
    wal.cycle();
    wal.wait_for_flush(1).unwrap();
    assert!(matches!(wal.system.commit(), CommitTurn::Done(Ok(Some(2)))));
}

#[test]
fn a_full_batch_wakes_the_flush_thread() {
    let mut wal = Log::new(group_commit_config(10));
    for i in 1..=8 {
        assert!(!wal.system.take_flush_signal(), "before commit {}", i);
        assert!(matches!(wal.system.commit(), CommitTurn::Done(Ok(Some(1)))));
    }
    assert!(wal.system.take_flush_signal(), "eight transactions fill the batch");
    assert!(!wal.system.take_flush_signal(), "the signal is taken once");
}

#[test]
fn a_transaction_is_logged_as_one_frame() {
    let mut wal = Log::new(group_commit_config(10));
    let tx = WriteTransaction {
        tx_id: 7,
        buffer: vec![
            BufferedWrite::CreateNode { node_id: 11, content: ContentId(0) },
            BufferedWrite::DeleteNode { node_id: 12, content: ContentId(0) },
        ],
    };
    let ids = vec![VersionId(90)];
    let epoch = match log_operations_to_wal(&mut wal.system, &tx, 55, &ids, &codec(), 0) {
        FrameTurn::Done(Ok((base, epoch))) => {
            assert_eq!(base, Some(LSN(1)));
            epoch.expect("the mode has epochs")
        }
        _ => panic!("there is room"),
    };
    assert_eq!(wal.system.total_appends(), 4, "begin, two writes, commit");
    wal.cycle();
    wal.wait_for_flush(epoch).unwrap();
    assert_eq!(wal.recovered_ids(), vec![11]);

    let empty = WriteTransaction { tx_id: 8, buffer: vec![] };
    match log_operations_to_wal(&mut wal.system, &empty, 56, &vec![], &codec(), 0) {
        FrameTurn::Done(Ok((None, _))) => {}
        _ => panic!("nothing is logged for an empty transaction"),
    }
    assert_eq!(wal.system.total_appends(), 4);
}

#[test]
fn a_state_that_is_not_acquired_in_time_is_named() {
    let text = "GroupCommitCoordinator state lock was not acquired within 250 ms";
    assert_eq!(lock_not_acquired(250), Error::wal(text.to_string()));

    let mut config = group_commit_config(20);
    config.acquire_timeout_ms = 250;
    let mut wal = Log::new(config);
    wal.refuse_next(LockSite::Register);
    let CommitTurn::Done(result) = wal.system.commit() else { panic!("nothing to flush") };
    assert_eq!(result, Err(Error::wal(text.to_string())));
}

#[test]
fn only_a_flush_thread_has_a_heartbeat() {
    let mut wal = Log::new(synchronous());
    wal.system.beat(5);
    assert_eq!(wal.system.flush_heartbeat(), 0);

    let mut wal = Log::new(asynchronous(100));
    wal.system.beat(5);
    wal.system.beat(6);
    assert_eq!(wal.system.flush_heartbeat(), 2);
}

#[test]
fn a_synchronous_commit_writes_everything() {
    let mut wal = Log::new(synchronous());
    for i in 1..=3 {
        wal.append_async(create_test_operation(i)).unwrap();
    }
    let CommitTurn::Flush(request) = wal.system.commit() else { panic!("three entries") };
    assert!(request.sync);
    assert_eq!(request.entries.len(), 3);
    assert_eq!(wal.system.finish_commit(request, Ok(())), Ok(None));
    assert_eq!(wal.system.total_flushed(), 3);
    let CommitTurn::Done(result) = wal.system.commit() else { panic!("nothing is left") };
    assert_eq!(result, Ok(None));
}
