//! The revision manager: the one writer of a document.
//!
//! It owns the live pad and the two stores. It turns each submitted
//! operation set into the next revision, applies it, persists it, and
//! decides by the write interval whether a snapshot of the pad is written
//! too. Time is not read here: every call that depends on it is told what
//! time it is, in milliseconds.

use crate::error::{DecodeError, OpenError, StoreError, SubmitError};
use crate::history::{
    count_of, lemma_replay_split, lemma_snapshot_coherent, lemma_submit_coherent, materialize,
    opened, replay, ManagerView, SnapshotOutcomeView,
};
use crate::operation::{parse_operations, OperationSet};
use crate::pad::Pad;
use crate::pad_view::PadView;
use crate::revision::{Revision, RevisionView, Snapshot};
use crate::store::{has_highest, highest, latest_snapshot, RevisionStore, SnapshotStore};
use vstd::prelude::*;

verus! {

/// The write interval that documents are opened with where nothing else is
/// asked for, in milliseconds.
pub const REVISION_WRITE_INTERVAL_IN_MILLIS: u64 = 600;

/// What asking for a snapshot came to.
#[derive(Debug, PartialEq, Eq)]
pub enum SnapshotOutcome {
    /// There is no revision yet, so there is nothing to take a snapshot of.
    Empty,
    /// The last snapshot is less than a write interval old. The request is
    /// noted and nothing is written.
    Deferred,
    /// This snapshot was written.
    Written(Snapshot),
}

impl View for SnapshotOutcome {
    type V = SnapshotOutcomeView;

    open spec fn view(&self) -> SnapshotOutcomeView {
        match self {
            SnapshotOutcome::Empty => SnapshotOutcomeView::Empty,
            SnapshotOutcome::Deferred => SnapshotOutcomeView::Deferred,
            SnapshotOutcome::Written(snapshot) => SnapshotOutcomeView::Written(snapshot@),
        }
    }
}

/// What a submission returned, with the revision as the contracts see it.
pub open spec fn outcome_view(r: Result<Revision, SubmitError>) -> Result<
    RevisionView,
    SubmitError,
> {
    match r {
        Ok(revision) => Ok(revision@),
        Err(e) => Err(e),
    }
}

/// What the snapshot store said, as far as the result of asking for a
/// snapshot tells: that it took what it was given, where the result is no
/// error.
pub open spec fn answer_view(r: Result<SnapshotOutcome, StoreError>) -> Result<(), StoreError> {
    match r {
        Ok(_) => Ok(()),
        Err(e) => Err(e),
    }
}

/// The revision manager of one open document.
pub struct RevisionManager<R: RevisionStore, S: SnapshotStore> {
    revisions: R,
    snapshots: S,
    pad: Pad,
    last: Option<u64>,
    write_interval: u64,
    last_snapshot_at: Option<u64>,
    snapshot_pending: bool,
    snapshot_failure: Option<StoreError>,
}

impl<R: RevisionStore, S: SnapshotStore> View for RevisionManager<R, S> {
    type V = ManagerView;

    closed spec fn view(&self) -> ManagerView {
        ManagerView {
            log: self.revisions.revisions(),
            snapshots: self.snapshots.snapshots(),
            pad: self.pad@,
            last: self.last,
            write_interval: self.write_interval,
            last_snapshot_at: self.last_snapshot_at,
            snapshot_pending: self.snapshot_pending,
            snapshot_failure: self.snapshot_failure,
        }
    }
}

impl<R: RevisionStore, S: SnapshotStore> RevisionManager<R, S> {
    /// Opens the document that the two stores hold: the latest snapshot, if
    /// there is one, with the revisions behind it applied in order, or else
    /// all revisions applied to the empty document. Empty stores give the
    /// empty document.
    ///
    /// `write_interval` is the least time, in milliseconds, between two
    /// snapshots that are not forced.
    pub fn open(revisions: R, snapshots: S, write_interval: u64) -> (r: Result<Self, OpenError>)
        ensures
            match materialize(revisions.revisions(), snapshots.snapshots()) {
                Ok(pad) => r matches Ok(manager) && pad.wf() && manager@ == opened(
                    revisions.revisions(),
                    snapshots.snapshots(),
                    pad,
                    write_interval,
                ),
                Err(e) => r matches Err(f) && f == e,
            },
    {
        let ghost log = revisions.revisions();
        let max = revisions.max_sequence_id();
        let last: Option<u64> = match revisions.get(max) {
            Some(_) => Some(max),
            None => None,
        };
        proof {
            if has_highest(log.dom()) {
                assert(log.dom().contains(highest(log.dom())));
            }
        }
        let end: u128 = match last {
            Some(id) => id as u128 + 1,
            None => 0,
        };
        let mut pad = Pad::new();
        let mut next: u128 = 0;
        match snapshots.get(None) {
            None => {
                proof {
                    let keys = snapshots.snapshots().dom();
                    if has_highest(keys) {
                        assert(keys.contains(highest(keys)));
                    }
                }
            },
            Some(snapshot) => {
                if snapshot.at_sequence_id as u128 >= end {
                    return Err(OpenError::SnapshotAhead(snapshot.at_sequence_id));
                }
                match Pad::from_bytes(snapshot.data.as_slice()) {
                    Ok(decoded) => {
                        pad = decoded;
                        next = snapshot.at_sequence_id as u128 + 1;
                    },
                    Err(e) => {
                        return Err(OpenError::Snapshot(e));
                    },
                }
            },
        }
        let ghost from = next as int;
        let ghost start = pad@;
        while next < end
            invariant
                0 <= from <= next <= end,
                end == count_of(last),
                revisions.revisions() == log,
                replay(log, from, next as int, start) == Ok::<PadView, OpenError>(pad@),
                materialize(log, snapshots.snapshots()) == replay(log, from, end as int, start),
            decreases end - next,
        {
            let id = next as u64;
            proof {
                lemma_replay_split(log, from, next + 1, end as int, start);
            }
            let revision = match revisions.get(id) {
                Some(revision) => revision,
                None => {
                    return Err(OpenError::MissingRevision(id));
                },
            };
            let ops = match OperationSet::from_bytes(revision.payload.as_slice()) {
                Ok(ops) => ops,
                Err(e) => {
                    return Err(OpenError::Revision(id, e));
                },
            };
            match pad.apply(&ops) {
                Ok(applied) => {
                    pad = applied;
                },
                Err(e) => {
                    return Err(OpenError::Revision(id, DecodeError::Invalid(e)));
                },
            }
            next += 1;
        }
        let manager = RevisionManager {
            revisions,
            snapshots,
            pad,
            last,
            write_interval,
            last_snapshot_at: None,
            snapshot_pending: false,
            snapshot_failure: None,
        };
        proof {
            use_type_invariant(&manager.pad);
        }
        Ok(manager)
    }

    /// Gives the two stores back.
    pub fn close(self) -> (r: (R, S))
        ensures
            r.0.revisions() == self@.log,
            r.1.snapshots() == self@.snapshots,
    {
        (self.revisions, self.snapshots)
    }

    /// The sequence id of the latest revision, and zero before the first.
    pub fn current_sequence_id(&self) -> (r: u64)
        ensures
            r == self@.current_sequence_id(),
    {
        match self.last {
            Some(id) => id,
            None => 0,
        }
    }

    /// The sequence id of the latest revision, if there is one.
    pub fn last_sequence_id(&self) -> (r: Option<u64>)
        ensures
            r == self@.last,
    {
        self.last
    }

    /// The live pad.
    pub fn pad(&self) -> (r: &Pad)
        ensures
            r@ == self@.pad,
            r@.wf(),
    {
        proof {
            use_type_invariant(&self.pad);
        }
        &self.pad
    }

    /// The least time between two snapshots that are not forced, in
    /// milliseconds.
    pub fn write_interval(&self) -> (r: u64)
        ensures
            r == self@.write_interval,
    {
        self.write_interval
    }

    /// When the last snapshot was written, if one was since the document was
    /// opened.
    pub fn last_snapshot_at(&self) -> (r: Option<u64>)
        ensures
            r == self@.last_snapshot_at,
    {
        self.last_snapshot_at
    }

    /// Whether a snapshot was asked for and put off, and none was written
    /// since.
    pub fn snapshot_pending(&self) -> (r: bool)
        ensures
            r == self@.snapshot_pending,
    {
        self.snapshot_pending
    }

    /// Why the snapshot store did not take the last snapshot that it was
    /// given, if it did not. This is where a snapshot that failed within
    /// `submit` shows.
    pub fn snapshot_failure(&self) -> (r: Option<StoreError>)
        ensures
            r == self@.snapshot_failure,
    {
        self.snapshot_failure
    }

    /// Whether a snapshot that is asked for at time `now` would be written
    /// rather than put off.
    pub fn snapshot_due(&self, now: u64) -> (r: bool)
        ensures
            r == self@.snapshot_due(now),
    {
        match self.last_snapshot_at {
            None => true,
            Some(at) => now >= at && now - at >= self.write_interval,
        }
    }

    /// The revision with this sequence id, if the log holds it.
    pub fn get_revision(&self, sequence_id: u64) -> (r: Option<Revision>)
        ensures
            match r {
                Some(revision) => self@.log.contains_key(sequence_id) && revision@
                    == self@.log[sequence_id],
                None => !self@.log.contains_key(sequence_id),
            },
    {
        self.revisions.get(sequence_id)
    }

    /// With an id, the snapshot that was taken at it, if there is one.
    /// Without, the latest snapshot, if there is any.
    pub fn read_snapshot(&self, sequence_id: Option<u64>) -> (r: Option<Snapshot>)
        ensures
            match sequence_id {
                Some(id) => match r {
                    Some(snapshot) => self@.snapshots.contains_key(id) && snapshot@
                        == self@.snapshots[id],
                    None => !self@.snapshots.contains_key(id),
                },
                None => match r {
                    Some(snapshot) => latest_snapshot(self@.snapshots) == Some(snapshot@),
                    None => self@.snapshots.dom() == Set::<u64>::empty(),
                },
            },
    {
        self.snapshots.get(sequence_id)
    }

    /// Makes `ops` the next revision: applies them to the pad, persists the
    /// revision, and asks for a snapshot as `request_snapshot` does.
    ///
    /// Fails with `Exhausted` where no sequence id is left, with `Apply`
    /// where the operations do not apply to the pad, and with `Store` where
    /// the revision store does not take the revision. After a failure the
    /// manager is as it was. A snapshot that fails to be written does not
    /// make the submission fail: the failure is noted, and
    /// `snapshot_failure` tells it.
    pub fn submit(&mut self, ops: &OperationSet, now: u64) -> (r: Result<Revision, SubmitError>)
        ensures
            old(self)@.submits(ops@, now, outcome_view(r), final(self)@),
            old(self)@.coherent() ==> final(self)@.coherent(),
    {
        let sequence_id: u64 = match self.last {
            None => 0,
            Some(id) => {
                if id == u64::MAX {
                    return Err(SubmitError::Exhausted);
                }
                id + 1
            },
        };
        let pad = match self.pad.apply(ops) {
            Ok(pad) => pad,
            Err(e) => {
                return Err(SubmitError::Apply(e));
            },
        };
        let revision = Revision {
            sequence_id,
            base_sequence_id: self.current_sequence_id(),
            payload: ops.to_bytes(),
            created_at: now,
        };
        let stored = self.revisions.append(&revision);
        let made = match self.settle_revision(revision, pad, stored) {
            Ok(made) => made,
            Err(e) => {
                return Err(e);
            },
        };
        proof {
            if old(self)@.coherent() {
                lemma_submit_coherent(old(self)@, ops@, now);
            }
        }
        let _ = self.request_snapshot(now);
        Ok(made)
    }

    /// Takes note of what the revision store said to `revision`. Where it
    /// took it, `pad` is the live pad, the revision is the latest, and the
    /// revision comes back. Where it did not, its error comes back as a
    /// `Store` error and nothing is noted.
    fn settle_revision(
        &mut self,
        revision: Revision,
        pad: Pad,
        stored: Result<(), StoreError>,
    ) -> (r: Result<Revision, SubmitError>)
        ensures
            match stored {
                Ok(_) => r == Ok::<Revision, SubmitError>(revision) && final(self)@
                    == old(self)@.with_revision_noted(revision.sequence_id, pad@),
                Err(e) => r == Err::<Revision, SubmitError>(SubmitError::Store(e))
                    && final(self)@ == old(self)@,
            },
    {
        match stored {
            Ok(()) => {
                self.pad = pad;
                self.last = Some(revision.sequence_id);
                Ok(revision)
            },
            Err(e) => Err(SubmitError::Store(e)),
        }
    }

    /// As `submit`, for an operation set in its byte form. Fails with
    /// `Decode` where `payload` is not the byte form of an operation set;
    /// the manager is then as it was.
    pub fn submit_bytes(&mut self, payload: &[u8], now: u64) -> (r: Result<Revision, SubmitError>)
        ensures
            match parse_operations(payload@) {
                Err(e) => r == Err::<Revision, SubmitError>(SubmitError::Decode(e))
                    && final(self)@ == old(self)@,
                Ok(ops) => old(self)@.submits(ops, now, outcome_view(r), final(self)@),
            },
            old(self)@.coherent() ==> final(self)@.coherent(),
    {
        match OperationSet::from_bytes(payload) {
            Ok(ops) => self.submit(&ops, now),
            Err(e) => Err(SubmitError::Decode(e)),
        }
    }

    /// Writes a snapshot of the live pad at the current sequence id, whatever
    /// the write interval says, and notes `now` as the time of the last
    /// snapshot. Before the first revision there is nothing to write, and
    /// the outcome is `Empty`.
    ///
    /// Fails where the snapshot store does not take the snapshot. The
    /// failure is noted and the manager is as it was otherwise.
    pub fn generate_snapshot(&mut self, now: u64) -> (r: Result<SnapshotOutcome, StoreError>)
        ensures
            final(self)@ == old(self)@.forced(now, answer_view(r)),
            r matches Ok(outcome) ==> outcome@ == old(self)@.forced_outcome(),
            r is Err ==> old(self)@.last is Some,
            old(self)@.coherent() ==> final(self)@.coherent(),
    {
        match self.last {
            None => Ok(SnapshotOutcome::Empty),
            Some(id) => match self.write_snapshot(id, now) {
                Ok(snapshot) => Ok(SnapshotOutcome::Written(snapshot)),
                Err(e) => Err(e),
            },
        }
    }

    /// Asks for a snapshot of the live pad at time `now`. It is written
    /// where none was written yet or the last one is at least a write
    /// interval old. Else the request is noted and put off: the outcome is
    /// `Deferred`. Before the first revision the outcome is `Empty`.
    ///
    /// Fails where the snapshot store does not take the snapshot. The
    /// failure is noted and the manager is as it was otherwise.
    pub fn request_snapshot(&mut self, now: u64) -> (r: Result<SnapshotOutcome, StoreError>)
        ensures
            final(self)@ == old(self)@.requested(now, answer_view(r)),
            r matches Ok(outcome) ==> outcome@ == old(self)@.request_outcome(now),
            r is Err ==> old(self)@.last is Some && old(self)@.snapshot_due(now),
            old(self)@.coherent() ==> final(self)@.coherent(),
    {
        match self.last {
            None => Ok(SnapshotOutcome::Empty),
            Some(id) => {
                if !self.snapshot_due(now) {
                    self.snapshot_pending = true;
                    return Ok(SnapshotOutcome::Deferred);
                }
                match self.write_snapshot(id, now) {
                    Ok(snapshot) => Ok(SnapshotOutcome::Written(snapshot)),
                    Err(e) => Err(e),
                }
            },
        }
    }

    /// Hands the snapshot of the live pad to the snapshot store, which takes
    /// it or does not. Where it does, the snapshot comes back, it is stored,
    /// and `now` is the time of the last snapshot. Where it does not, the
    /// failure is noted and the manager is as it was otherwise.
    fn write_snapshot(&mut self, id: u64, now: u64) -> (r: Result<Snapshot, StoreError>)
        requires
            old(self)@.last == Some(id),
        ensures
            match r {
                Ok(snapshot) => snapshot@ == old(self)@.snapshot() && final(self)@
                    == old(self)@.with_snapshot(now),
                Err(e) => final(self)@ == old(self)@.with_snapshot_failed(e),
            },
            old(self)@.coherent() ==> final(self)@.coherent(),
    {
        let snapshot = Snapshot { at_sequence_id: id, data: self.pad.to_bytes() };
        let stored = self.snapshots.put(&snapshot);
        let r = self.settle_snapshot(snapshot, now, stored);
        proof {
            if old(self)@.coherent() && r is Ok {
                lemma_snapshot_coherent(old(self)@, now);
            }
        }
        r
    }

    /// Takes note of what the snapshot store said to `snapshot`. Where it
    /// took it, `now` is the time of the last snapshot, no request is open,
    /// and the snapshot comes back. Where it did not, its error comes back
    /// and is noted.
    fn settle_snapshot(
        &mut self,
        snapshot: Snapshot,
        now: u64,
        stored: Result<(), StoreError>,
    ) -> (r: Result<Snapshot, StoreError>)
        ensures
            match stored {
                Ok(_) => r == Ok::<Snapshot, StoreError>(snapshot) && final(self)@
                    == old(self)@.with_snapshot_noted(now),
                Err(e) => r == Err::<Snapshot, StoreError>(e) && final(self)@
                    == old(self)@.with_snapshot_failed(e),
            },
    {
        match stored {
            Ok(()) => {
                self.last_snapshot_at = Some(now);
                self.snapshot_pending = false;
                self.snapshot_failure = None;
                Ok(snapshot)
            },
            Err(e) => {
                self.snapshot_failure = Some(e);
                Err(e)
            },
        }
    }
}

} // verus!
