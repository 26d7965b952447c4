//! The contracts of the two stores that persist revisions and snapshots, and
//! an in-memory store for each.
//!
//! The library does not persist anything itself. Whoever opens a document
//! hands the manager a revision store and a snapshot store. What the manager
//! promises holds for stores that keep these contracts: a value is stored
//! when the call says so, nothing is stored when the call fails, and what is
//! read is what was stored.

use crate::error::StoreError;
use crate::revision::{Revision, RevisionView, Snapshot, SnapshotView};
use vstd::prelude::*;

verus! {

/// Whether `key` is the greatest of `keys`.
pub open spec fn is_highest(keys: Set<u64>, key: u64) -> bool {
    keys.contains(key) && forall|other: u64| keys.contains(other) ==> other <= key
}

/// Whether `keys` has a greatest key.
pub open spec fn has_highest(keys: Set<u64>) -> bool {
    exists|key: u64| is_highest(keys, key)
}

/// The greatest of `keys`, where there is one.
pub open spec fn highest(keys: Set<u64>) -> u64 {
    choose|key: u64| is_highest(keys, key)
}

/// A set of keys has one greatest key at most.
pub proof fn lemma_highest(keys: Set<u64>, key: u64)
    requires
        is_highest(keys, key),
    ensures
        has_highest(keys),
        highest(keys) == key,
{
    assert(is_highest(keys, highest(keys)));
}

/// The snapshot with the greatest key, if there is any snapshot.
pub open spec fn latest_snapshot(snapshots: Map<u64, SnapshotView>) -> Option<SnapshotView> {
    if has_highest(snapshots.dom()) {
        Some(snapshots[highest(snapshots.dom())])
    } else {
        None
    }
}

/// Persists revisions by sequence id.
pub trait RevisionStore {
    /// The revisions that the store holds, by the sequence id under which
    /// each was stored.
    spec fn revisions(&self) -> Map<u64, RevisionView>;

    /// Stores `revision` under its sequence id. When the call succeeds the
    /// revision is stored; when it fails the store holds what it held.
    fn append(&mut self, revision: &Revision) -> (r: Result<(), StoreError>)
        ensures
            r is Ok ==> final(self).revisions() == old(self).revisions().insert(
                revision.sequence_id,
                revision@,
            ),
            r is Err ==> final(self).revisions() == old(self).revisions(),
    ;

    /// The revision stored under `sequence_id`, if there is one.
    fn get(&self, sequence_id: u64) -> (r: Option<Revision>)
        ensures
            match r {
                Some(revision) => self.revisions().contains_key(sequence_id) && revision@
                    == self.revisions()[sequence_id],
                None => !self.revisions().contains_key(sequence_id),
            },
    ;

    /// The greatest sequence id under which a revision is stored, and zero
    /// where none is.
    fn max_sequence_id(&self) -> (r: u64)
        ensures
            has_highest(self.revisions().dom()) ==> r == highest(self.revisions().dom()),
            !has_highest(self.revisions().dom()) ==> r == 0 && self.revisions().dom()
                == Set::<u64>::empty(),
    ;
}

/// Persists snapshots by the sequence id at which each was taken.
pub trait SnapshotStore {
    /// The snapshots that the store holds, by the sequence id under which
    /// each was stored.
    spec fn snapshots(&self) -> Map<u64, SnapshotView>;

    /// Stores `snapshot` under the sequence id at which it was taken, in
    /// place of an earlier one for that id. When the call succeeds the
    /// snapshot is stored; when it fails the store holds what it held.
    fn put(&mut self, snapshot: &Snapshot) -> (r: Result<(), StoreError>)
        ensures
            r is Ok ==> final(self).snapshots() == old(self).snapshots().insert(
                snapshot.at_sequence_id,
                snapshot@,
            ),
            r is Err ==> final(self).snapshots() == old(self).snapshots(),
    ;

    /// With an id, the snapshot stored under it, if there is one. Without,
    /// the snapshot with the greatest id, if there is any.
    fn get(&self, sequence_id: Option<u64>) -> (r: Option<Snapshot>)
        ensures
            match sequence_id {
                Some(id) => match r {
                    Some(snapshot) => self.snapshots().contains_key(id) && snapshot@
                        == self.snapshots()[id],
                    None => !self.snapshots().contains_key(id),
                },
                None => match r {
                    Some(snapshot) => latest_snapshot(self.snapshots()) == Some(snapshot@),
                    None => self.snapshots().dom() == Set::<u64>::empty(),
                },
            },
    ;
}

} // verus!
