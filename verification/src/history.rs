//! The model of a document's history: how the log and the snapshots
//! determine the document, and what the manager's state is to the contracts.

use crate::error::{DecodeError, OpenError, StoreError, SubmitError};
use crate::operation::{
    all_fit, lemma_parse_operations_bytes, operations_bytes, parse_operations, OperationView,
};
use crate::pad_view::{
    decode_pad, encode_pad, lemma_apply_all_wf, lemma_decode_encode, PadView,
};
use crate::revision::{RevisionView, SnapshotView};
use crate::store::{has_highest, highest, latest_snapshot, lemma_highest};
use vstd::prelude::*;

verus! {

/// What the operations that `payload` stands for make of `pad`.
pub open spec fn apply_payload(pad: PadView, payload: Seq<u8>) -> Result<PadView, DecodeError> {
    match parse_operations(payload) {
        Err(e) => Err(e),
        Ok(ops) => match pad.apply_all(ops) {
            Ok(next) => Ok(next),
            Err(e) => Err(DecodeError::Invalid(e)),
        },
    }
}

/// The number of revisions of a log whose last sequence id is `last`.
pub open spec fn count_of(last: Option<u64>) -> int {
    match last {
        Some(id) => id + 1,
        None => 0,
    }
}

/// The greatest sequence id of `log`, if it holds any revision.
pub open spec fn last_id(log: Map<u64, RevisionView>) -> Option<u64> {
    if has_highest(log.dom()) {
        Some(highest(log.dom()))
    } else {
        None
    }
}

/// What the revisions `from`, `from + 1`, ... up to but without `to` make of
/// `start`, applied in that order.
pub open spec fn replay(log: Map<u64, RevisionView>, from: int, to: int, start: PadView) -> Result<
    PadView,
    OpenError,
>
    decreases to - from,
{
    if to <= from {
        Ok(start)
    } else {
        match replay(log, from, to - 1, start) {
            Err(e) => Err(e),
            Ok(pad) => {
                let id = (to - 1) as u64;
                if !log.contains_key(id) {
                    Err(OpenError::MissingRevision(id))
                } else {
                    match apply_payload(pad, log[id].payload) {
                        Ok(next) => Ok(next),
                        Err(e) => Err(OpenError::Revision(id, e)),
                    }
                }
            },
        }
    }
}

/// The document as it is opened: the latest snapshot, if there is one, and
/// the revisions behind it; else all revisions from the empty document.
pub open spec fn materialize(
    log: Map<u64, RevisionView>,
    snapshots: Map<u64, SnapshotView>,
) -> Result<PadView, OpenError> {
    let count = count_of(last_id(log));
    match latest_snapshot(snapshots) {
        None => replay(log, 0, count, PadView::empty()),
        Some(snapshot) => {
            if snapshot.at_sequence_id >= count {
                Err(OpenError::SnapshotAhead(snapshot.at_sequence_id))
            } else {
                match decode_pad(snapshot.data) {
                    Err(e) => Err(OpenError::Snapshot(e)),
                    Ok(pad) => replay(log, snapshot.at_sequence_id + 1, count, pad),
                }
            }
        },
    }
}

/// The log holds exactly the revisions `0` to `last`, each under its own
/// sequence id and based on the one before: no gap and nothing twice.
pub open spec fn log_gapless(log: Map<u64, RevisionView>, last: Option<u64>) -> bool {
    &&& forall|id: u64| log.contains_key(id) <==> id < count_of(last)
    &&& forall|id: u64| #[trigger]
        log.contains_key(id) ==> log[id].sequence_id == id && log[id].base_sequence_id == (if id
            == 0 {
            0
        } else {
            id - 1
        })
}

/// Every snapshot stands under the sequence id at which it was taken, and is
/// the document that the revisions up to that id build.
pub open spec fn snapshots_faithful(
    log: Map<u64, RevisionView>,
    snapshots: Map<u64, SnapshotView>,
    count: int,
) -> bool {
    forall|id: u64| #[trigger]
        snapshots.contains_key(id) ==> {
            &&& id < count
            &&& snapshots[id].at_sequence_id == id
            &&& replay(log, 0, id + 1, PadView::empty()) matches Ok(pad)
            &&& decode_pad(snapshots[id].data) == Ok::<PadView, DecodeError>(pad)
        }
}

/// One successful submission: the operations, the time, and what the
/// snapshot store said to the snapshot that was asked for, if one was due.
pub struct Submission {
    pub ops: Seq<OperationView>,
    pub now: u64,
    pub snapshot_answer: Result<(), StoreError>,
}

/// What a freshly made snapshot holds, or that none was made.
pub enum SnapshotOutcomeView {
    Empty,
    Deferred,
    Written(SnapshotView),
}

/// The state of a revision manager.
pub struct ManagerView {
    /// What the revision store holds.
    pub log: Map<u64, RevisionView>,
    /// What the snapshot store holds.
    pub snapshots: Map<u64, SnapshotView>,
    /// The live document.
    pub pad: PadView,
    /// The sequence id of the latest revision, if there is one.
    pub last: Option<u64>,
    /// The least time between two snapshots that were not forced, in
    /// milliseconds.
    pub write_interval: u64,
    /// When the last snapshot was written, if one was since the document was
    /// opened.
    pub last_snapshot_at: Option<u64>,
    /// Whether a snapshot was asked for and put off.
    pub snapshot_pending: bool,
    /// Why the snapshot store did not take the last snapshot that it was
    /// given, if it did not.
    pub snapshot_failure: Option<StoreError>,
}

impl ManagerView {
    /// The number of revisions.
    pub open spec fn count(self) -> int {
        count_of(self.last)
    }

    /// The sequence id of the latest revision, and zero before the first.
    pub open spec fn current_sequence_id(self) -> u64 {
        match self.last {
            Some(id) => id,
            None => 0,
        }
    }

    /// The stores and the live document agree: the log is gapless, replaying
    /// it gives the live document, and every snapshot is faithful.
    pub open spec fn coherent(self) -> bool {
        &&& self.pad.wf()
        &&& log_gapless(self.log, self.last)
        &&& snapshots_faithful(self.log, self.snapshots, self.count())
        &&& replay(self.log, 0, self.count(), PadView::empty()) == Ok::<PadView, OpenError>(
            self.pad,
        )
    }

    /// What a submission of `ops` at time `now` prepares: the revision and
    /// the document that it leads to.
    pub open spec fn stage(self, ops: Seq<OperationView>, now: u64) -> Result<
        (RevisionView, PadView),
        SubmitError,
    > {
        if self.last == Some(u64::MAX) {
            Err(SubmitError::Exhausted)
        } else {
            match self.pad.apply_all(ops) {
                Err(e) => Err(SubmitError::Apply(e)),
                Ok(pad) => Ok(
                    (
                        RevisionView {
                            sequence_id: self.count() as u64,
                            base_sequence_id: self.current_sequence_id(),
                            payload: operations_bytes(ops),
                            created_at: now,
                        },
                        pad,
                    ),
                ),
            }
        }
    }

    /// Whether a submission of `ops` at time `now` may return `outcome` and
    /// leave the state `after`.
    ///
    /// Where nothing can be staged, the error says why and the state stays.
    /// Else the revision store decides. Where it takes the revision, the
    /// staged revision comes back, it is stored, the staged document is the
    /// live one, and a snapshot was asked for at time `now`; what the
    /// snapshot store said to it, if it was asked, stands in the state.
    /// Where it does not, an error of the store comes back and the state
    /// stays.
    pub open spec fn submits(
        self,
        ops: Seq<OperationView>,
        now: u64,
        outcome: Result<RevisionView, SubmitError>,
        after: ManagerView,
    ) -> bool {
        match self.stage(ops, now) {
            Err(e) => outcome == Err::<RevisionView, SubmitError>(e) && after == self,
            Ok((revision, pad)) => match outcome {
                Ok(made) => {
                    let stored = self.with_revision(revision, pad);
                    &&& made == revision
                    &&& after == stored.requested(now, after.snapshot_answer())
                },
                Err(e) => e is Store && after == self,
            },
        }
    }

    /// The state once it is noted that the revision `id` was stored and
    /// that `pad` is the live document.
    pub open spec fn with_revision_noted(self, id: u64, pad: PadView) -> ManagerView {
        ManagerView { pad, last: Some(id), ..self }
    }

    /// The state once `revision` is stored and `pad` is the live document.
    pub open spec fn with_revision(self, revision: RevisionView, pad: PadView) -> ManagerView {
        ManagerView {
            log: self.log.insert(revision.sequence_id, revision),
            pad,
            last: Some(revision.sequence_id),
            ..self
        }
    }

    /// Whether a snapshot that is asked for at time `now` is written rather
    /// than put off: none was written yet, or the last one at least a write
    /// interval ago.
    pub open spec fn snapshot_due(self, now: u64) -> bool {
        match self.last_snapshot_at {
            None => true,
            Some(at) => now >= at && now - at >= self.write_interval,
        }
    }

    /// The snapshot of the live document.
    pub open spec fn snapshot(self) -> SnapshotView {
        SnapshotView { at_sequence_id: self.current_sequence_id(), data: encode_pad(self.pad) }
    }

    /// The state once the snapshot of the live document was written at time
    /// `now`.
    pub open spec fn with_snapshot(self, now: u64) -> ManagerView {
        ManagerView {
            snapshots: self.snapshots.insert(self.current_sequence_id(), self.snapshot()),
            last_snapshot_at: Some(now),
            snapshot_pending: false,
            snapshot_failure: None,
            ..self
        }
    }

    /// The state once it is noted that a snapshot was written at time `now`.
    pub open spec fn with_snapshot_noted(self, now: u64) -> ManagerView {
        ManagerView {
            last_snapshot_at: Some(now),
            snapshot_pending: false,
            snapshot_failure: None,
            ..self
        }
    }

    /// The state once it is noted that the snapshot store did not take a
    /// snapshot, and why.
    pub open spec fn with_snapshot_failed(self, error: StoreError) -> ManagerView {
        ManagerView { snapshot_failure: Some(error), ..self }
    }

    /// What the snapshot store said to the last snapshot that it was given,
    /// as far as the state tells: that it took it, where no failure is
    /// noted.
    pub open spec fn snapshot_answer(self) -> Result<(), StoreError> {
        match self.snapshot_failure {
            Some(error) => Err(error),
            None => Ok(()),
        }
    }

    /// The state once a snapshot was asked for and put off.
    pub open spec fn with_request(self) -> ManagerView {
        ManagerView { snapshot_pending: true, ..self }
    }

    /// The state after the snapshot store said `answer` to the snapshot of
    /// the live document, at time `now`: the snapshot is stored and the time
    /// noted, or the failure is noted.
    pub open spec fn attempted(self, now: u64, answer: Result<(), StoreError>) -> ManagerView {
        match answer {
            Ok(_) => self.with_snapshot(now),
            Err(error) => self.with_snapshot_failed(error),
        }
    }

    /// The state after a snapshot was asked for at time `now`, where
    /// `answer` is what the store said to what it was given, if anything.
    pub open spec fn requested(self, now: u64, answer: Result<(), StoreError>) -> ManagerView {
        if self.last is None {
            self
        } else if !self.snapshot_due(now) {
            self.with_request()
        } else {
            self.attempted(now, answer)
        }
    }

    /// The state after a snapshot was forced at time `now`, where `answer`
    /// is what the store said to what it was given, if anything.
    pub open spec fn forced(self, now: u64, answer: Result<(), StoreError>) -> ManagerView {
        if self.last is None {
            self
        } else {
            self.attempted(now, answer)
        }
    }

    /// What forcing a snapshot comes to, where the store takes what it is
    /// given.
    pub open spec fn forced_outcome(self) -> SnapshotOutcomeView {
        if self.last is None {
            SnapshotOutcomeView::Empty
        } else {
            SnapshotOutcomeView::Written(self.snapshot())
        }
    }

    /// What asking for a snapshot at time `now` comes to, where the store
    /// takes what it is given.
    pub open spec fn request_outcome(self, now: u64) -> SnapshotOutcomeView {
        if self.last is None {
            SnapshotOutcomeView::Empty
        } else if !self.snapshot_due(now) {
            SnapshotOutcomeView::Deferred
        } else {
            SnapshotOutcomeView::Written(self.snapshot())
        }
    }
}

/// A gapless log ends at its last sequence id.
pub proof fn lemma_last_id(log: Map<u64, RevisionView>, last: Option<u64>)
    requires
        forall|id: u64| log.contains_key(id) <==> id < count_of(last),
    ensures
        last_id(log) == last,
{
    match last {
        Some(id) => {
            assert(log.dom().contains(id));
            lemma_highest(log.dom(), id);
        },
        None => {
            if has_highest(log.dom()) {
                assert(log.dom().contains(highest(log.dom())));
            }
        },
    }
}

/// Replaying a range is replaying its first part and then the rest.
pub proof fn lemma_replay_split(
    log: Map<u64, RevisionView>,
    from: int,
    middle: int,
    to: int,
    start: PadView,
)
    requires
        from <= middle <= to,
    ensures
        replay(log, from, to, start) == match replay(log, from, middle, start) {
            Ok(pad) => replay(log, middle, to, pad),
            Err(e) => Err(e),
        },
    decreases to - middle,
{
    if middle < to {
        lemma_replay_split(log, from, middle, to - 1, start);
    }
}

/// Replaying a range reads the log in that range only.
pub proof fn lemma_replay_frame(
    log: Map<u64, RevisionView>,
    other: Map<u64, RevisionView>,
    from: int,
    to: int,
    start: PadView,
)
    requires
        0 <= from,
        to <= u64::MAX + 1,
        forall|id: u64|
            #![trigger log.contains_key(id)]
            from <= id < to ==> (log.contains_key(id) <==> other.contains_key(id)) && (
            log.contains_key(id) ==> log[id] == other[id]),
    ensures
        replay(log, from, to, start) == replay(other, from, to, start),
    decreases to - from,
{
    if from < to {
        lemma_replay_frame(log, other, from, to - 1, start);
    }
}

/// Replaying onto a well-formed document gives a well-formed document.
pub proof fn lemma_replay_wf(log: Map<u64, RevisionView>, from: int, to: int, start: PadView)
    requires
        start.wf(),
    ensures
        replay(log, from, to, start) matches Ok(pad) ==> pad.wf(),
    decreases to - from,
{
    if from < to {
        lemma_replay_wf(log, from, to - 1, start);
        if let Ok(pad) = replay(log, from, to - 1, start) {
            let id = (to - 1) as u64;
            if let Ok(ops) = parse_operations(log[id].payload) {
                lemma_apply_all_wf(pad, ops);
            }
        }
    }
}

/// Opening from the latest snapshot gives the document that replaying the
/// whole log from the empty document gives, where the log is gapless and the
/// snapshots are faithful.
pub proof fn lemma_replay_equivalence(
    log: Map<u64, RevisionView>,
    snapshots: Map<u64, SnapshotView>,
    last: Option<u64>,
)
    requires
        log_gapless(log, last),
        snapshots_faithful(log, snapshots, count_of(last)),
    ensures
        materialize(log, snapshots) == replay(log, 0, count_of(last), PadView::empty()),
{
    lemma_last_id(log, last);
    if has_highest(snapshots.dom()) {
        let id = highest(snapshots.dom());
        assert(snapshots.dom().contains(id));
        assert(snapshots.contains_key(id));
        lemma_replay_split(log, 0, id + 1, count_of(last), PadView::empty());
    }
}

/// The state of a manager that was just opened on these stores, with `pad`
/// as the document that they determine.
pub open spec fn opened(
    log: Map<u64, RevisionView>,
    snapshots: Map<u64, SnapshotView>,
    pad: PadView,
    write_interval: u64,
) -> ManagerView {
    ManagerView {
        log,
        snapshots,
        pad,
        last: last_id(log),
        write_interval,
        last_snapshot_at: None,
        snapshot_pending: false,
        snapshot_failure: None,
    }
}

/// What the stores of a coherent manager hold opens as its live document:
/// the latest snapshot with the revisions behind it gives what the manager
/// built by applying every revision in turn.
pub proof fn lemma_reopen(manager: ManagerView)
    requires
        manager.coherent(),
    ensures
        materialize(manager.log, manager.snapshots) == Ok::<PadView, OpenError>(manager.pad),
{
    lemma_replay_equivalence(manager.log, manager.snapshots, manager.last);
}

/// A submission that fails leaves the manager as it was: the same current
/// sequence id, the same document, the same bytes of the document.
pub proof fn lemma_rollback(
    manager: ManagerView,
    ops: Seq<OperationView>,
    now: u64,
    outcome: Result<RevisionView, SubmitError>,
    after: ManagerView,
)
    requires
        manager.submits(ops, now, outcome, after),
        outcome is Err,
    ensures
        after == manager,
        after.current_sequence_id() == manager.current_sequence_id(),
        encode_pad(after.pad) == encode_pad(manager.pad),
{
}

/// A manager that is opened on a gapless log with faithful snapshots is
/// coherent.
pub proof fn lemma_opened_coherent(
    log: Map<u64, RevisionView>,
    snapshots: Map<u64, SnapshotView>,
    last: Option<u64>,
    write_interval: u64,
)
    requires
        log_gapless(log, last),
        snapshots_faithful(log, snapshots, count_of(last)),
    ensures
        materialize(log, snapshots) matches Ok(pad) ==> opened(
            log,
            snapshots,
            pad,
            write_interval,
        ).coherent(),
{
    lemma_replay_equivalence(log, snapshots, last);
    lemma_last_id(log, last);
    lemma_replay_wf(log, 0, count_of(last), PadView::empty());
}

/// Storing a staged revision keeps a coherent manager coherent.
pub proof fn lemma_submit_coherent(manager: ManagerView, ops: Seq<OperationView>, now: u64)
    requires
        manager.coherent(),
        all_fit(ops),
    ensures
        manager.stage(ops, now) matches Ok((revision, pad)) ==> manager.with_revision(
            revision,
            pad,
        ).coherent(),
{
    if let Ok((revision, pad)) = manager.stage(ops, now) {
        let next = manager.with_revision(revision, pad);
        let count = manager.count();
        lemma_apply_all_wf(manager.pad, ops);
        lemma_parse_operations_bytes(ops);
        lemma_replay_frame(manager.log, next.log, 0, count, PadView::empty());
        assert(next.log.contains_key(count as u64));
        assert forall|id: u64| #[trigger] next.snapshots.contains_key(id) implies {
            &&& id < next.count()
            &&& next.snapshots[id].at_sequence_id == id
            &&& replay(next.log, 0, id + 1, PadView::empty()) matches Ok(at)
            &&& decode_pad(next.snapshots[id].data) == Ok::<PadView, DecodeError>(at)
        } by {
            lemma_replay_frame(manager.log, next.log, 0, id + 1, PadView::empty());
        }
    }
}

/// Writing the snapshot of the live document keeps a coherent manager
/// coherent.
pub proof fn lemma_snapshot_coherent(manager: ManagerView, now: u64)
    requires
        manager.coherent(),
        manager.last is Some,
        all_fit(manager.pad.to_operations()),
    ensures
        manager.with_snapshot(now).coherent(),
{
    lemma_decode_encode(manager.pad);
}

/// The state after the submissions of `submissions`, one after the other,
/// where each was staged and stored; the error of the first that could not
/// be staged otherwise.
pub open spec fn submit_all(manager: ManagerView, submissions: Seq<Submission>) -> Result<
    ManagerView,
    SubmitError,
>
    decreases submissions.len(),
{
    if submissions.len() == 0 {
        Ok(manager)
    } else {
        match submit_all(manager, submissions.drop_last()) {
            Err(e) => Err(e),
            Ok(before) => {
                let last = submissions.last();
                match before.stage(last.ops, last.now) {
                    Err(e) => Err(e),
                    Ok((revision, pad)) => Ok(
                        before.with_revision(revision, pad).requested(
                            last.now,
                            last.snapshot_answer,
                        ),
                    ),
                }
            },
        }
    }
}

/// Sequence ids are given out in order. After any number of submissions to
/// a manager with an empty log, the log holds one revision for each, under
/// the sequence ids from zero up with no gap and nothing twice, and the
/// revision under an id holds the operations that were submitted at that
/// place.
pub proof fn lemma_ordering(manager: ManagerView, submissions: Seq<Submission>)
    requires
        manager.last is None,
        manager.log == Map::<u64, RevisionView>::empty(),
    ensures
        submit_all(manager, submissions) matches Ok(after) ==> {
            &&& after.count() == submissions.len()
            &&& forall|id: u64| after.log.contains_key(id) <==> id < submissions.len()
            &&& forall|id: u64|
                id < submissions.len() ==> (#[trigger] after.log[id]).sequence_id == id
                    && after.log[id].payload == operations_bytes(submissions[id as int].ops)
        },
    decreases submissions.len(),
{
    if submissions.len() > 0 {
        let front = submissions.drop_last();
        lemma_ordering(manager, front);
        if let Ok(after) = submit_all(manager, submissions) {
            let before = submit_all(manager, front)->Ok_0;
            assert forall|id: u64| id < submissions.len() implies (
            #[trigger] after.log[id]).sequence_id == id && after.log[id].payload
                == operations_bytes(submissions[id as int].ops) by {
                if id < front.len() {
                    assert(front[id as int] == submissions[id as int]);
                    assert(after.log[id] == before.log[id]);
                }
            }
        }
    }
}

/// A snapshot that the store does not take changes nothing but the note of
/// the failure: the stores, the document and the time of the last snapshot
/// stay, so a snapshot is still due.
pub proof fn lemma_failed_snapshot(manager: ManagerView, now: u64, error: StoreError)
    requires
        manager.last is Some,
        manager.snapshot_due(now),
    ensures
        manager.requested(now, Err(error)) == manager.with_snapshot_failed(error),
        manager.forced(now, Err(error)) == manager.with_snapshot_failed(error),
        manager.requested(now, Err(error)).snapshot_failure == Some(error),
        manager.requested(now, Err(error)).snapshots == manager.snapshots,
        manager.requested(now, Err(error)).snapshot_due(now),
        manager.coherent() ==> manager.requested(now, Err(error)).coherent(),
{
}

/// The write interval at work. Where a snapshot is due at time `first` and
/// written, one that is asked for less than a write interval later is put
/// off and leaves the snapshot store as it is, and one that is asked for a
/// write interval later or more is written too.
pub proof fn lemma_debounce(manager: ManagerView, first: u64, second: u64)
    requires
        manager.last is Some,
        manager.snapshot_due(first),
        first <= second,
    ensures
        manager.request_outcome(first) == SnapshotOutcomeView::Written(manager.snapshot()),
        manager.requested(first, Ok(())).snapshots == manager.snapshots.insert(
            manager.current_sequence_id(),
            manager.snapshot(),
        ),
        second - first < manager.write_interval ==> {
            let after = manager.requested(first, Ok(()));
            &&& after.request_outcome(second) == SnapshotOutcomeView::Deferred
            &&& after.requested(second, Ok(())).snapshots == after.snapshots
            &&& after.requested(second, Ok(())).snapshot_pending
            &&& after.requested(second, Ok(())).last_snapshot_at == Some(first)
        },
        second - first >= manager.write_interval ==> {
            let after = manager.requested(first, Ok(()));
            &&& after.request_outcome(second) == SnapshotOutcomeView::Written(after.snapshot())
            &&& after.requested(second, Ok(())).snapshots == after.snapshots.insert(
                after.current_sequence_id(),
                after.snapshot(),
            )
            &&& after.requested(second, Ok(())).last_snapshot_at == Some(second)
        },
{
}

} // verus!
