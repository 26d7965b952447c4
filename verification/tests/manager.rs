use flowy_revision::error::{ApplyError, DecodeError, OpenError, StoreError, SubmitError};
use flowy_revision::field::{Cell, Field, FieldKind};
use flowy_revision::manager::{RevisionManager, SnapshotOutcome};
use flowy_revision::memory::{MemoryRevisionStore, MemorySnapshotStore};
use flowy_revision::operation::{Operation, OperationSet};
use flowy_revision::pad::Pad;
use flowy_revision::revision::{Revision, RevisionView, Snapshot, SnapshotView};
use flowy_revision::store::{RevisionStore, SnapshotStore};

const INTERVAL: u64 = 600;

type Manager = RevisionManager<MemoryRevisionStore, MemorySnapshotStore>;

fn f1() -> Field {
    Field { id: 1, name: "F1".to_string(), kind: FieldKind::Text }
}

fn set(ops: Vec<Operation>) -> OperationSet {
    let mut out = OperationSet::new();
    for op in ops {
        out.push(op);
    }
    out
}

fn add_f1() -> OperationSet {
    set(vec![Operation::AddField(f1())])
}

fn insert_row(id: u64) -> OperationSet {
    set(vec![Operation::InsertRow(id)])
}

fn open(revisions: MemoryRevisionStore, snapshots: MemorySnapshotStore) -> Manager {
    match RevisionManager::open(revisions, snapshots, INTERVAL) {
        Ok(manager) => manager,
        Err(e) => panic!("the stores do not open: {:?}", e),
    }
}

fn fresh() -> Manager {
    open(MemoryRevisionStore::new(100), MemorySnapshotStore::new(100))
}

fn open_error<R: RevisionStore, S: SnapshotStore>(revisions: R, snapshots: S) -> OpenError {
    match RevisionManager::open(revisions, snapshots, INTERVAL) {
        Ok(_) => panic!("the stores open"),
        Err(e) => e,
    }
}

/// A revision store that holds what it is told to hold and takes nothing.
struct FixedLog {
    revisions: Vec<Revision>,
}

impl RevisionStore for FixedLog {
    fn revisions(&self) -> vstd::map::Map<u64, RevisionView> {
        unreachable!()
    }

    fn append(&mut self, _revision: &Revision) -> Result<(), StoreError> {
        Err(StoreError::Unavailable)
    }

    fn get(&self, sequence_id: u64) -> Option<Revision> {
        self.revisions.iter().find(|r| r.sequence_id == sequence_id).cloned()
    }

    fn max_sequence_id(&self) -> u64 {
        self.revisions.iter().map(|r| r.sequence_id).max().unwrap_or(0)
    }
}

/// A snapshot store that holds one snapshot at most and takes nothing.
struct FixedSnapshot {
    snapshot: Option<Snapshot>,
}

impl SnapshotStore for FixedSnapshot {
    fn snapshots(&self) -> vstd::map::Map<u64, SnapshotView> {
        unreachable!()
    }

    fn put(&mut self, _snapshot: &Snapshot) -> Result<(), StoreError> {
        Err(StoreError::Unavailable)
    }

    fn get(&self, sequence_id: Option<u64>) -> Option<Snapshot> {
        match (&self.snapshot, sequence_id) {
            (Some(s), None) => Some(s.clone()),
            (Some(s), Some(id)) if s.at_sequence_id == id => Some(s.clone()),
            _ => None,
        }
    }
}

fn revision(sequence_id: u64, ops: &OperationSet) -> Revision {
    Revision {
        sequence_id,
        base_sequence_id: sequence_id.saturating_sub(1),
        payload: ops.to_bytes(),
        created_at: 0,
    }
}

#[test]
fn adding_a_field_makes_revision_zero() {
    let mut manager = fresh();
    let made = manager.submit(&add_f1(), 17).unwrap();
    assert_eq!(made.sequence_id, 0);
    assert_eq!(made.base_sequence_id, 0);
    assert_eq!(made.created_at, 17);
    assert_eq!(made.payload, add_f1().to_bytes());
    let stored = manager.get_revision(0).unwrap();
    assert_eq!(stored, made);
    let ops = OperationSet::from_bytes(&stored.payload).unwrap();
    let pad = Pad::from_operations(&ops).unwrap();
    assert_eq!(pad.fields(), &vec![f1()]);
    assert!(pad.rows().is_empty());
    assert!(pad.cells().is_empty());
    assert_eq!(&pad, manager.pad());
}

#[test]
fn adding_and_removing_a_field_shows_no_fields() {
    let mut manager = fresh();
    manager.submit(&add_f1(), 0).unwrap();
    manager.submit(&set(vec![Operation::RemoveField(1)]), 1).unwrap();
    assert_eq!(manager.pad().to_display_string(), "fields: 0\nrows: 0\ncells: 0\n");
    assert_eq!(manager.get_revision(0).unwrap().sequence_id, 0);
    assert_eq!(manager.get_revision(1).unwrap().sequence_id, 1);
    assert_eq!(manager.get_revision(1).unwrap().base_sequence_id, 0);
    assert_eq!(manager.get_revision(2), None);
    assert_eq!(manager.current_sequence_id(), 1);
}

#[test]
fn a_snapshot_after_the_write_interval_holds_the_pad() {
    let mut manager = fresh();
    manager.submit(&add_f1(), 1_000).unwrap();
    let outcome = manager.generate_snapshot(1_000 + 2 * INTERVAL).unwrap();
    let snapshot = manager.read_snapshot(None).unwrap();
    assert_eq!(outcome, SnapshotOutcome::Written(snapshot.clone()));
    assert_eq!(snapshot.at_sequence_id, 0);
    let ops = OperationSet::from_bytes(&snapshot.data).unwrap();
    assert_eq!(ops, manager.pad().to_operations());
    assert_eq!(Pad::from_operations(&ops).unwrap().to_display_string(), "fields: 1\n1 F1 (text)\nrows: 0\ncells: 0\n");
    assert_eq!(manager.read_snapshot(Some(0)), Some(snapshot));
    assert_eq!(manager.read_snapshot(Some(1)), None);
}

#[test]
fn a_fresh_manager_has_nothing() {
    let manager = fresh();
    assert_eq!(manager.current_sequence_id(), 0);
    assert_eq!(manager.last_sequence_id(), None);
    assert_eq!(manager.get_revision(0), None);
    assert_eq!(manager.read_snapshot(None), None);
    assert_eq!(manager.pad(), &Pad::new());
    assert_eq!(manager.write_interval(), INTERVAL);
    assert_eq!(manager.last_snapshot_at(), None);
    assert!(!manager.snapshot_pending());
    assert_eq!(manager.snapshot_failure(), None);
}

#[test]
fn sequence_ids_count_up_from_zero_without_gaps() {
    let mut manager = fresh();
    for n in 0..25u64 {
        let made = manager.submit(&insert_row(1000 + n), n).unwrap();
        assert_eq!(made.sequence_id, n);
        assert_eq!(made.base_sequence_id, n.saturating_sub(1));
        assert_eq!(manager.current_sequence_id(), n);
        assert_eq!(manager.last_sequence_id(), Some(n));
    }
    for n in 0..25u64 {
        assert_eq!(manager.get_revision(n).unwrap().sequence_id, n);
    }
    assert_eq!(manager.get_revision(25), None);
}

#[test]
fn a_failed_submission_uses_no_sequence_id() {
    let mut manager = fresh();
    manager.submit(&add_f1(), 0).unwrap();
    assert_eq!(manager.submit(&add_f1(), 1), Err(SubmitError::Apply(ApplyError::DuplicateField(1))));
    let made = manager.submit(&insert_row(1), 2).unwrap();
    assert_eq!(made.sequence_id, 1);
}

#[test]
fn an_empty_operation_set_is_a_revision_too() {
    let mut manager = fresh();
    let made = manager.submit(&OperationSet::new(), 3).unwrap();
    assert_eq!(made.sequence_id, 0);
    assert_eq!(made.payload, Vec::<u8>::new());
    assert_eq!(manager.pad(), &Pad::new());
}

#[test]
fn submit_rejects_what_does_not_apply_and_stays_as_it_was() {
    let mut manager = fresh();
    manager.submit(&add_f1(), 0).unwrap();
    let before = manager.pad().to_bytes();
    let bad = set(vec![Operation::InsertRow(1), Operation::RemoveField(9)]);
    assert_eq!(manager.submit(&bad, 1), Err(SubmitError::Apply(ApplyError::UnknownField(9))));
    assert_eq!(manager.current_sequence_id(), 0);
    assert_eq!(manager.pad().to_bytes(), before);
    assert_eq!(manager.get_revision(1), None);
}

#[test]
fn a_store_failure_rolls_the_submission_back() {
    let mut manager = open(MemoryRevisionStore::new(1), MemorySnapshotStore::new(10));
    manager.submit(&add_f1(), 0).unwrap();
    let pad = manager.pad().to_bytes();
    let display = manager.pad().to_display_string();
    let result = manager.submit(&insert_row(1), 1);
    assert_eq!(result, Err(SubmitError::Store(StoreError::OutOfSpace)));
    assert_eq!(manager.current_sequence_id(), 0);
    assert_eq!(manager.last_sequence_id(), Some(0));
    assert_eq!(manager.pad().to_bytes(), pad);
    assert_eq!(manager.pad().to_display_string(), display);
    assert_eq!(manager.get_revision(1), None);
}

#[test]
fn a_store_failure_on_the_first_submission_leaves_the_manager_empty() {
    let log = FixedLog { revisions: Vec::new() };
    let mut manager = match RevisionManager::open(log, MemorySnapshotStore::new(10), INTERVAL) {
        Ok(manager) => manager,
        Err(e) => panic!("{:?}", e),
    };
    assert_eq!(manager.submit(&add_f1(), 0), Err(SubmitError::Store(StoreError::Unavailable)));
    assert_eq!(manager.last_sequence_id(), None);
    assert_eq!(manager.current_sequence_id(), 0);
    assert_eq!(manager.pad(), &Pad::new());
    assert_eq!(manager.read_snapshot(None), None);
}

#[test]
fn sequence_ids_run_out_at_the_greatest() {
    let log = FixedLog { revisions: vec![revision(u64::MAX, &OperationSet::new())] };
    let snapshot = FixedSnapshot { snapshot: Some(Snapshot { at_sequence_id: u64::MAX, data: Vec::new() }) };
    let mut manager = match RevisionManager::open(log, snapshot, INTERVAL) {
        Ok(manager) => manager,
        Err(e) => panic!("{:?}", e),
    };
    assert_eq!(manager.current_sequence_id(), u64::MAX);
    assert_eq!(manager.submit(&add_f1(), 0), Err(SubmitError::Exhausted));
    assert_eq!(manager.current_sequence_id(), u64::MAX);
    assert_eq!(manager.pad(), &Pad::new());
}

#[test]
fn the_first_submission_writes_a_snapshot() {
    let mut manager = fresh();
    manager.submit(&add_f1(), 50).unwrap();
    assert_eq!(manager.last_snapshot_at(), Some(50));
    let snapshot = manager.read_snapshot(None).unwrap();
    assert_eq!(snapshot.at_sequence_id, 0);
    assert_eq!(snapshot.data, manager.pad().to_bytes());
}

#[test]
fn submissions_within_the_write_interval_write_no_snapshot() {
    let mut manager = fresh();
    manager.submit(&add_f1(), 0).unwrap();
    manager.submit(&insert_row(1), INTERVAL - 1).unwrap();
    assert!(manager.snapshot_pending());
    assert_eq!(manager.last_snapshot_at(), Some(0));
    assert_eq!(manager.read_snapshot(None).unwrap().at_sequence_id, 0);
    manager.submit(&insert_row(2), INTERVAL).unwrap();
    assert!(!manager.snapshot_pending());
    assert_eq!(manager.last_snapshot_at(), Some(INTERVAL));
    assert_eq!(manager.read_snapshot(None).unwrap().at_sequence_id, 2);
    assert_eq!(manager.read_snapshot(Some(1)), None);
    let (_, snapshots) = manager.close();
    assert_eq!(snapshots.writes(), 2);
}

#[test]
fn requests_closer_than_the_write_interval_write_once() {
    let mut manager = open(MemoryRevisionStore::new(10), MemorySnapshotStore::new(10));
    manager.submit(&add_f1(), 0).unwrap();
    let first = manager.request_snapshot(INTERVAL).unwrap();
    let second = manager.request_snapshot(2 * INTERVAL - 1).unwrap();
    assert!(matches!(first, SnapshotOutcome::Written(_)));
    assert_eq!(second, SnapshotOutcome::Deferred);
    assert!(manager.snapshot_pending());
    assert_eq!(manager.last_snapshot_at(), Some(INTERVAL));
    let (_, snapshots) = manager.close();
    // One from the first submission, one from the first request.
    assert_eq!(snapshots.writes(), 2);
}

#[test]
fn requests_a_write_interval_apart_both_write() {
    let mut manager = open(MemoryRevisionStore::new(10), MemorySnapshotStore::new(10));
    manager.submit(&add_f1(), 0).unwrap();
    let first = manager.request_snapshot(INTERVAL).unwrap();
    let second = manager.request_snapshot(2 * INTERVAL).unwrap();
    assert!(matches!(first, SnapshotOutcome::Written(_)));
    assert!(matches!(second, SnapshotOutcome::Written(_)));
    assert!(!manager.snapshot_pending());
    assert_eq!(manager.last_snapshot_at(), Some(2 * INTERVAL));
    let (_, snapshots) = manager.close();
    assert_eq!(snapshots.writes(), 3);
}

#[test]
fn a_forced_snapshot_does_not_wait() {
    let mut manager = fresh();
    manager.submit(&add_f1(), 0).unwrap();
    assert!(!manager.snapshot_due(1));
    let forced = manager.generate_snapshot(1).unwrap();
    assert!(matches!(forced, SnapshotOutcome::Written(_)));
    assert_eq!(manager.last_snapshot_at(), Some(1));
    assert_eq!(manager.request_snapshot(INTERVAL).unwrap(), SnapshotOutcome::Deferred);
    assert!(manager.snapshot_due(INTERVAL + 1));
    let (_, snapshots) = manager.close();
    assert_eq!(snapshots.writes(), 2);
}

#[test]
fn before_the_first_revision_there_is_nothing_to_snapshot() {
    let mut manager = fresh();
    assert_eq!(manager.generate_snapshot(10), Ok(SnapshotOutcome::Empty));
    assert_eq!(manager.request_snapshot(10), Ok(SnapshotOutcome::Empty));
    assert_eq!(manager.last_snapshot_at(), None);
    assert!(!manager.snapshot_pending());
    assert_eq!(manager.read_snapshot(None), None);
}

#[test]
fn a_clock_that_goes_back_defers() {
    let mut manager = fresh();
    manager.submit(&add_f1(), 5_000).unwrap();
    assert!(!manager.snapshot_due(4_000));
    assert_eq!(manager.request_snapshot(0).unwrap(), SnapshotOutcome::Deferred);
    assert!(manager.snapshot_due(5_000 + INTERVAL));
    assert!(!manager.snapshot_due(5_000 + INTERVAL - 1));
}

#[test]
fn a_write_interval_of_zero_never_defers() {
    let mut manager = match RevisionManager::open(MemoryRevisionStore::new(10), MemorySnapshotStore::new(10), 0) {
        Ok(manager) => manager,
        Err(e) => panic!("{:?}", e),
    };
    manager.submit(&add_f1(), 7).unwrap();
    manager.submit(&insert_row(1), 7).unwrap();
    assert!(matches!(manager.request_snapshot(7).unwrap(), SnapshotOutcome::Written(_)));
    let (_, snapshots) = manager.close();
    assert_eq!(snapshots.writes(), 3);
}

#[test]
fn a_snapshot_that_fails_does_not_fail_the_submission() {
    let mut manager = open(MemoryRevisionStore::new(10), MemorySnapshotStore::new(0));
    let made = manager.submit(&add_f1(), 0).unwrap();
    assert_eq!(made.sequence_id, 0);
    assert_eq!(manager.get_revision(0), Some(made));
    assert_eq!(manager.read_snapshot(None), None);
    assert_eq!(manager.last_snapshot_at(), None);
    assert_eq!(manager.snapshot_failure(), Some(StoreError::OutOfSpace));
    assert_eq!(manager.generate_snapshot(1), Err(StoreError::OutOfSpace));
    assert_eq!(manager.request_snapshot(1), Err(StoreError::OutOfSpace));
    assert_eq!(manager.last_snapshot_at(), None);
    assert!(!manager.snapshot_pending());
    assert_eq!(manager.snapshot_failure(), Some(StoreError::OutOfSpace));
    assert_eq!(manager.submit(&insert_row(1), 2).unwrap().sequence_id, 1);
    assert_eq!(manager.pad().rows(), &vec![1]);
}

/// A snapshot store that takes every second snapshot, starting with none.
struct EverySecond {
    inner: MemorySnapshotStore,
    asked: u64,
}

impl SnapshotStore for EverySecond {
    fn snapshots(&self) -> vstd::map::Map<u64, SnapshotView> {
        unreachable!()
    }

    fn put(&mut self, snapshot: &Snapshot) -> Result<(), StoreError> {
        self.asked += 1;
        if self.asked % 2 == 1 {
            Err(StoreError::Unavailable)
        } else {
            self.inner.put(snapshot)
        }
    }

    fn get(&self, sequence_id: Option<u64>) -> Option<Snapshot> {
        self.inner.get(sequence_id)
    }
}

#[test]
fn the_store_s_own_error_is_noted_and_a_later_snapshot_clears_it() {
    let snapshots = EverySecond { inner: MemorySnapshotStore::new(10), asked: 0 };
    let mut manager = match RevisionManager::open(MemoryRevisionStore::new(10), snapshots, INTERVAL) {
        Ok(manager) => manager,
        Err(e) => panic!("{:?}", e),
    };
    // The snapshot that the first submission asks for fails.
    manager.submit(&add_f1(), 0).unwrap();
    assert_eq!(manager.snapshot_failure(), Some(StoreError::Unavailable));
    assert_eq!(manager.last_snapshot_at(), None);
    assert_eq!(manager.read_snapshot(None), None);
    // None was written, so one is still due, and the second attempt is taken.
    assert!(manager.snapshot_due(1));
    manager.submit(&insert_row(1), 1).unwrap();
    assert_eq!(manager.snapshot_failure(), None);
    assert_eq!(manager.last_snapshot_at(), Some(1));
    assert_eq!(manager.read_snapshot(None).unwrap().at_sequence_id, 1);
    // Within the write interval nothing is asked of the store.
    manager.submit(&insert_row(2), 2).unwrap();
    assert_eq!(manager.snapshot_failure(), None);
    assert!(manager.snapshot_pending());
    // A forced snapshot that fails is noted too, and returned.
    assert_eq!(manager.generate_snapshot(3), Err(StoreError::Unavailable));
    assert_eq!(manager.snapshot_failure(), Some(StoreError::Unavailable));
    assert_eq!(manager.last_snapshot_at(), Some(1));
    assert!(manager.snapshot_pending());
    assert!(matches!(manager.generate_snapshot(4), Ok(SnapshotOutcome::Written(_))));
    assert_eq!(manager.snapshot_failure(), None);
    assert!(!manager.snapshot_pending());
}

/// A revision store that takes nothing and says why as it was told to.
struct Refusing {
    error: StoreError,
}

impl RevisionStore for Refusing {
    fn revisions(&self) -> vstd::map::Map<u64, RevisionView> {
        unreachable!()
    }

    fn append(&mut self, _revision: &Revision) -> Result<(), StoreError> {
        Err(self.error)
    }

    fn get(&self, _sequence_id: u64) -> Option<Revision> {
        None
    }

    fn max_sequence_id(&self) -> u64 {
        0
    }
}

#[test]
fn a_failed_submission_returns_the_store_s_own_error() {
    for error in [StoreError::OutOfSpace, StoreError::OutOfOrder, StoreError::Unavailable] {
        let log = Refusing { error };
        let mut manager = match RevisionManager::open(log, MemorySnapshotStore::new(10), INTERVAL) {
            Ok(manager) => manager,
            Err(e) => panic!("{:?}", e),
        };
        assert_eq!(manager.submit(&add_f1(), 0), Err(SubmitError::Store(error)));
        assert_eq!(manager.last_sequence_id(), None);
        assert_eq!(manager.pad(), &Pad::new());
        assert_eq!(manager.snapshot_failure(), None);
    }
}

#[test]
fn reopening_gives_the_same_pad_with_and_without_snapshots() {
    let mut manager = fresh();
    manager.submit(&add_f1(), 0).unwrap();
    manager.submit(&insert_row(1), 10).unwrap();
    manager
        .submit(&set(vec![Operation::SetCell(Cell { row_id: 1, field_id: 1, value: "v".to_string() })]), INTERVAL)
        .unwrap();
    manager.submit(&insert_row(2), INTERVAL + 1).unwrap();
    manager.submit(&set(vec![Operation::RemoveRow(1)]), INTERVAL + 2).unwrap();
    let live = manager.pad().clone();
    let (revisions, snapshots) = manager.close();
    assert!(snapshots.get(Some(2)).is_some());

    let mut replayed = MemoryRevisionStore::new(100);
    for id in 0..5 {
        replayed.append(&revisions.get(id).unwrap()).unwrap();
    }
    let from_scratch = open(replayed, MemorySnapshotStore::new(0));
    assert_eq!(from_scratch.pad(), &live);
    assert_eq!(from_scratch.pad().to_bytes(), live.to_bytes());

    let from_snapshot = open(revisions, snapshots);
    assert_eq!(from_snapshot.pad(), &live);
    assert_eq!(from_snapshot.current_sequence_id(), 4);
    assert_eq!(from_snapshot.last_snapshot_at(), None);
}

#[test]
fn reopening_goes_on_with_the_next_sequence_id() {
    let mut manager = fresh();
    manager.submit(&add_f1(), 0).unwrap();
    manager.submit(&insert_row(1), 1).unwrap();
    let (revisions, snapshots) = manager.close();
    let mut again = open(revisions, snapshots);
    let made = again.submit(&insert_row(2), 2).unwrap();
    assert_eq!(made.sequence_id, 2);
    assert_eq!(made.base_sequence_id, 1);
    assert_eq!(again.pad().rows(), &vec![1, 2]);
}

#[test]
fn opening_starts_from_the_latest_snapshot() {
    // The log's first revision does not decode, but the snapshot at it does.
    let bad = Revision { sequence_id: 0, base_sequence_id: 0, payload: vec![99], created_at: 0 };
    let log = FixedLog { revisions: vec![bad, revision(1, &insert_row(7))] };
    let snapshot = FixedSnapshot {
        snapshot: Some(Snapshot { at_sequence_id: 0, data: add_f1().to_bytes() }),
    };
    let manager = match RevisionManager::open(log, snapshot, INTERVAL) {
        Ok(manager) => manager,
        Err(e) => panic!("{:?}", e),
    };
    assert_eq!(manager.pad().fields(), &vec![f1()]);
    assert_eq!(manager.pad().rows(), &vec![7]);
    assert_eq!(manager.current_sequence_id(), 1);
}

#[test]
fn opening_fails_on_a_snapshot_that_does_not_decode() {
    let log = FixedLog { revisions: vec![revision(0, &add_f1())] };
    let snapshot = FixedSnapshot { snapshot: Some(Snapshot { at_sequence_id: 0, data: vec![0, 1] }) };
    assert_eq!(open_error(log, snapshot), OpenError::Snapshot(DecodeError::Truncated));
}

#[test]
fn opening_fails_on_a_snapshot_that_is_no_document() {
    let log = FixedLog { revisions: vec![revision(0, &add_f1())] };
    let data = set(vec![Operation::RemoveRow(3)]).to_bytes();
    let snapshot = FixedSnapshot { snapshot: Some(Snapshot { at_sequence_id: 0, data }) };
    assert_eq!(
        open_error(log, snapshot),
        OpenError::Snapshot(DecodeError::Invalid(ApplyError::UnknownRow(3)))
    );
}

#[test]
fn opening_fails_on_a_snapshot_ahead_of_the_log() {
    let log = FixedLog { revisions: vec![revision(0, &add_f1())] };
    let snapshot = FixedSnapshot { snapshot: Some(Snapshot { at_sequence_id: 1, data: Vec::new() }) };
    assert_eq!(open_error(log, snapshot), OpenError::SnapshotAhead(1));
    let empty = FixedLog { revisions: Vec::new() };
    let snapshot = FixedSnapshot { snapshot: Some(Snapshot { at_sequence_id: 0, data: Vec::new() }) };
    assert_eq!(open_error(empty, snapshot), OpenError::SnapshotAhead(0));
}

#[test]
fn opening_fails_on_a_gap_in_the_log() {
    let log = FixedLog { revisions: vec![revision(0, &add_f1()), revision(2, &insert_row(1))] };
    assert_eq!(open_error(log, FixedSnapshot { snapshot: None }), OpenError::MissingRevision(1));
}

#[test]
fn opening_fails_on_a_revision_that_does_not_decode() {
    let bad = Revision { sequence_id: 1, base_sequence_id: 0, payload: vec![3, 0], created_at: 0 };
    let log = FixedLog { revisions: vec![revision(0, &add_f1()), bad] };
    assert_eq!(
        open_error(log, FixedSnapshot { snapshot: None }),
        OpenError::Revision(1, DecodeError::Truncated)
    );
}

#[test]
fn opening_fails_on_a_revision_that_does_not_apply() {
    let log = FixedLog { revisions: vec![revision(0, &add_f1()), revision(1, &add_f1())] };
    assert_eq!(
        open_error(log, FixedSnapshot { snapshot: None }),
        OpenError::Revision(1, DecodeError::Invalid(ApplyError::DuplicateField(1)))
    );
}

#[test]
fn close_gives_back_what_was_stored() {
    let mut manager = fresh();
    let made = manager.submit(&add_f1(), 0).unwrap();
    let (revisions, snapshots) = manager.close();
    assert_eq!(revisions.len(), 1);
    assert_eq!(revisions.get(0), Some(made));
    assert_eq!(revisions.max_sequence_id(), 0);
    assert_eq!(snapshots.get(None).unwrap().at_sequence_id, 0);
}

#[test]
fn submitting_bytes_is_submitting_the_operations() {
    let mut manager = fresh();
    let made = manager.submit_bytes(&add_f1().to_bytes(), 3).unwrap();
    assert_eq!(made.sequence_id, 0);
    assert_eq!(made.payload, add_f1().to_bytes());
    assert_eq!(manager.pad().fields(), &vec![f1()]);
    assert_eq!(
        manager.submit_bytes(&add_f1().to_bytes(), 4),
        Err(SubmitError::Apply(ApplyError::DuplicateField(1)))
    );
}

#[test]
fn submitting_bytes_that_do_not_decode_changes_nothing() {
    let mut manager = fresh();
    manager.submit(&add_f1(), 0).unwrap();
    let before = manager.pad().to_bytes();
    assert_eq!(
        manager.submit_bytes(&[0, 1, 2], 1),
        Err(SubmitError::Decode(DecodeError::Truncated))
    );
    assert_eq!(
        manager.submit_bytes(&[200], 1),
        Err(SubmitError::Decode(DecodeError::UnknownOperation(200)))
    );
    assert_eq!(manager.current_sequence_id(), 0);
    assert_eq!(manager.pad().to_bytes(), before);
    assert_eq!(manager.get_revision(1), None);
}
