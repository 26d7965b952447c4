use flowy_revision::field::{Field, FieldKind};
use flowy_revision::manager::{RevisionManager, REVISION_WRITE_INTERVAL_IN_MILLIS};
use flowy_revision::memory::{MemoryRevisionStore, MemorySnapshotStore};
use flowy_revision::operation::{Operation, OperationSet};
use flowy_revision::pad::Pad;
use flowy_revision::revision::{Revision, Snapshot};

enum SnapshotScript {
    WriteSnapshot,
    AssertSnapshot { rev_id: u64, expected: Option<Snapshot> },
    AssertSnapshotContent { snapshot: Snapshot, expected: String },
    CreateField { field: Field },
    DeleteField { field: Field },
}

struct SnapshotTest {
    manager: RevisionManager<MemoryRevisionStore, MemorySnapshotStore>,
    now: u64,
    current_snapshot: Option<Snapshot>,
    current_revision: Option<Revision>,
}

fn one(op: Operation) -> OperationSet {
    let mut ops = OperationSet::new();
    ops.push(op);
    ops
}

fn new_test() -> SnapshotTest {
    let manager = match RevisionManager::open(
        MemoryRevisionStore::new(64),
        MemorySnapshotStore::new(64),
        REVISION_WRITE_INTERVAL_IN_MILLIS,
    ) {
        Ok(manager) => manager,
        Err(e) => panic!("{:?}", e),
    };
    SnapshotTest { manager, now: 1_000_000, current_snapshot: None, current_revision: None }
}

fn run_script(test: &mut SnapshotTest, script: SnapshotScript) {
    match script {
        SnapshotScript::WriteSnapshot => {
            test.now += 2 * REVISION_WRITE_INTERVAL_IN_MILLIS;
            test.manager.generate_snapshot(test.now).unwrap();
            test.current_snapshot = test.manager.read_snapshot(None);
        },
        SnapshotScript::AssertSnapshot { rev_id, expected } => {
            assert_eq!(test.manager.read_snapshot(Some(rev_id)), expected);
        },
        SnapshotScript::AssertSnapshotContent { snapshot, expected } => {
            let operations = OperationSet::from_bytes(&snapshot.data).unwrap();
            let pad = Pad::from_operations(&operations).unwrap();
            assert_eq!(pad.to_display_string(), expected);
        },
        SnapshotScript::CreateField { field } => {
            test.now += 1;
            test.manager.submit(&one(Operation::AddField(field)), test.now).unwrap();
            let current = test.manager.current_sequence_id();
            test.current_revision = test.manager.get_revision(current);
        },
        SnapshotScript::DeleteField { field } => {
            test.now += 1;
            test.manager.submit(&one(Operation::RemoveField(field.id)), test.now).unwrap();
        },
    }
}

fn run_scripts(test: &mut SnapshotTest, scripts: Vec<SnapshotScript>) {
    for script in scripts {
        run_script(test, script);
    }
}

fn text_field(id: u64, name: &str) -> Field {
    Field { id, name: name.to_string(), kind: FieldKind::Text }
}

#[test]
fn the_default_write_interval() {
    assert_eq!(REVISION_WRITE_INTERVAL_IN_MILLIS, 600);
}

#[test]
fn written_snapshot_holds_the_pad_of_that_moment() {
    let mut test = new_test();
    run_scripts(
        &mut test,
        vec![SnapshotScript::CreateField { field: text_field(1, "Name") }, SnapshotScript::WriteSnapshot],
    );
    let snapshot = test.current_snapshot.clone().unwrap();
    let content = test.manager.pad().to_display_string();
    assert_eq!(snapshot.at_sequence_id, 0);
    run_scripts(
        &mut test,
        vec![
            SnapshotScript::AssertSnapshotContent { snapshot: snapshot.clone(), expected: content },
            SnapshotScript::AssertSnapshot { rev_id: 0, expected: Some(snapshot) },
            SnapshotScript::AssertSnapshot { rev_id: 1, expected: None },
        ],
    );
}

#[test]
fn snapshot_stays_as_it_was_when_the_pad_goes_on() {
    let mut test = new_test();
    run_scripts(
        &mut test,
        vec![SnapshotScript::CreateField { field: text_field(1, "Name") }, SnapshotScript::WriteSnapshot],
    );
    let snapshot = test.current_snapshot.clone().unwrap();
    run_scripts(
        &mut test,
        vec![
            SnapshotScript::CreateField { field: text_field(2, "Other") },
            SnapshotScript::DeleteField { field: text_field(1, "Name") },
            SnapshotScript::AssertSnapshotContent {
                snapshot,
                expected: "fields: 1\n1 Name (text)\nrows: 0\ncells: 0\n".to_string(),
            },
        ],
    );
    assert_eq!(
        test.manager.pad().to_display_string(),
        "fields: 1\n2 Other (text)\nrows: 0\ncells: 0\n"
    );
    assert_eq!(test.current_revision.as_ref().unwrap().sequence_id, 1);
    assert_eq!(test.manager.current_sequence_id(), 2);
}

#[test]
fn a_second_written_snapshot_is_the_latest() {
    let mut test = new_test();
    run_scripts(
        &mut test,
        vec![
            SnapshotScript::CreateField { field: text_field(1, "Name") },
            SnapshotScript::WriteSnapshot,
            SnapshotScript::CreateField { field: text_field(2, "Other") },
            SnapshotScript::WriteSnapshot,
        ],
    );
    let latest = test.current_snapshot.clone().unwrap();
    assert_eq!(latest.at_sequence_id, 1);
    assert_eq!(latest.data, test.manager.pad().to_bytes());
    run_scripts(
        &mut test,
        vec![SnapshotScript::AssertSnapshotContent {
            snapshot: latest,
            expected: "fields: 2\n1 Name (text)\n2 Other (text)\nrows: 0\ncells: 0\n".to_string(),
        }],
    );
}
