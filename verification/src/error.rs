//! The error kinds of the library.

use vstd::prelude::*;

verus! {

/// Why an operation set does not apply to a pad.
#[derive(Clone, Copy, Debug, PartialEq, Eq)]
pub enum ApplyError {
    /// A field with this id is already there.
    DuplicateField(u64),
    /// No field has this id.
    UnknownField(u64),
    /// A row with this id is already there.
    DuplicateRow(u64),
    /// No row has this id.
    UnknownRow(u64),
}

/// Why a payload is not an operation set, or not a document.
#[derive(Clone, Copy, Debug, PartialEq, Eq)]
pub enum DecodeError {
    /// The bytes end inside a value.
    Truncated,
    /// An operation starts with a tag that no operation has.
    UnknownOperation(u8),
    /// A field names a kind that no field kind has.
    UnknownFieldKind(u8),
    /// A text is not valid UTF-8.
    InvalidText,
    /// The operations are well-formed one by one but do not build a document.
    Invalid(ApplyError),
}

/// Why a store did not persist what it was given.
#[derive(Clone, Copy, Debug, PartialEq, Eq)]
pub enum StoreError {
    /// The store has no room left.
    OutOfSpace,
    /// The store takes revisions only in the order of their sequence ids.
    OutOfOrder,
    /// The store could not be reached or failed while writing.
    Unavailable,
}

/// Why a submitted operation set did not become a revision.
#[derive(Clone, Copy, Debug, PartialEq, Eq)]
pub enum SubmitError {
    /// The payload is not the byte form of an operation set.
    Decode(DecodeError),
    /// Every sequence id has been given out.
    Exhausted,
    /// The operations do not apply to the current pad.
    Apply(ApplyError),
    /// The revision store did not take the revision.
    Store(StoreError),
}

/// Why a document could not be opened from what the stores hold.
#[derive(Clone, Copy, Debug, PartialEq, Eq)]
pub enum OpenError {
    /// The latest snapshot does not decode to a document.
    Snapshot(DecodeError),
    /// The latest snapshot was taken at a sequence id that the log has not
    /// reached.
    SnapshotAhead(u64),
    /// The log has no revision with this sequence id, but a later one.
    MissingRevision(u64),
    /// The revision with this sequence id does not decode, or does not apply
    /// to the document that the earlier ones built.
    Revision(u64, DecodeError),
}

} // verus!
