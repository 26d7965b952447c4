//! The two values that are persisted: revisions and snapshots.

use vstd::prelude::*;

verus! {

/// One state transition of a document: an operation set in its byte form,
/// numbered by the manager that accepted it. Never changed once made.
#[derive(Debug, PartialEq, Eq)]
pub struct Revision {
    /// The position of this revision in the log, counted from zero.
    pub sequence_id: u64,
    /// The sequence id of the state that the operations were made for: the
    /// one just before, and zero for the first revision.
    pub base_sequence_id: u64,
    /// The operation set, as bytes.
    pub payload: Vec<u8>,
    /// When the revision was made, in milliseconds. For information only.
    pub created_at: u64,
}

/// What a [`Revision`] is to the contracts.
pub struct RevisionView {
    pub sequence_id: u64,
    pub base_sequence_id: u64,
    pub payload: Seq<u8>,
    pub created_at: u64,
}

impl View for Revision {
    type V = RevisionView;

    open spec fn view(&self) -> RevisionView {
        RevisionView {
            sequence_id: self.sequence_id,
            base_sequence_id: self.base_sequence_id,
            payload: self.payload@,
            created_at: self.created_at,
        }
    }
}

/// A copy of `bytes`.
pub fn copy_bytes(bytes: &Vec<u8>) -> (r: Vec<u8>)
    ensures
        r@ == bytes@,
{
    let mut out: Vec<u8> = Vec::new();
    let mut i: usize = 0;
    while i < bytes.len()
        invariant
            i <= bytes@.len(),
            out@ == bytes@.take(i as int),
        decreases bytes@.len() - i,
    {
        out.push(bytes[i]);
        i += 1;
        assert(out@ =~= bytes@.take(i as int));
    }
    assert(bytes@.take(i as int) =~= bytes@);
    out
}

impl Clone for Revision {
    fn clone(&self) -> (r: Self)
        ensures
            r@ == self@,
    {
        Revision {
            sequence_id: self.sequence_id,
            base_sequence_id: self.base_sequence_id,
            payload: copy_bytes(&self.payload),
            created_at: self.created_at,
        }
    }
}

/// The materialised document as it was right after one revision.
#[derive(Debug, PartialEq, Eq)]
pub struct Snapshot {
    /// The sequence id of the last revision that the snapshot holds.
    pub at_sequence_id: u64,
    /// The document, written as the operation set that builds it.
    pub data: Vec<u8>,
}

/// What a [`Snapshot`] is to the contracts.
pub struct SnapshotView {
    pub at_sequence_id: u64,
    pub data: Seq<u8>,
}

impl View for Snapshot {
    type V = SnapshotView;

    open spec fn view(&self) -> SnapshotView {
        SnapshotView { at_sequence_id: self.at_sequence_id, data: self.data@ }
    }
}

impl Clone for Snapshot {
    fn clone(&self) -> (r: Self)
        ensures
            r@ == self@,
    {
        Snapshot { at_sequence_id: self.at_sequence_id, data: copy_bytes(&self.data) }
    }
}

} // verus!
