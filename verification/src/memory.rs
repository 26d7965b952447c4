//! Stores that keep what they are given in memory, up to a capacity.

use crate::error::StoreError;
use crate::revision::{Revision, RevisionView, Snapshot, SnapshotView};
use crate::store::{lemma_highest, RevisionStore, SnapshotStore};
use vstd::prelude::*;

verus! {

/// A revision store in memory. It takes revisions in the order of their
/// sequence ids, starting at zero, and no more of them than its capacity.
pub struct MemoryRevisionStore {
    entries: Vec<Revision>,
    capacity: usize,
}

impl MemoryRevisionStore {
    /// The number of revisions that the store takes.
    pub closed spec fn spec_capacity(&self) -> usize {
        self.capacity
    }

    /// An empty store that takes `capacity` revisions.
    pub fn new(capacity: usize) -> (r: Self)
        ensures
            r.revisions() == Map::<u64, RevisionView>::empty(),
            r.spec_capacity() == capacity,
            r.spec_len() == 0,
    {
        let r = MemoryRevisionStore { entries: Vec::new(), capacity };
        assert(r.revisions() =~= Map::<u64, RevisionView>::empty());
        r
    }

    /// The number of revisions that the store holds.
    pub closed spec fn spec_len(&self) -> nat {
        self.entries@.len()
    }

    /// The number of revisions that the store holds.
    pub fn len(&self) -> (r: usize)
        ensures
            r == self.spec_len(),
            forall|k: u64| self.revisions().contains_key(k) <==> k < r,
    {
        self.entries.len()
    }
}

impl RevisionStore for MemoryRevisionStore {
    closed spec fn revisions(&self) -> Map<u64, RevisionView> {
        Map::new(|k: u64| k < self.entries@.len(), |k: u64| self.entries@[k as int]@)
    }

    /// Fails with `OutOfSpace` where the store is full, and with
    /// `OutOfOrder` where the revision is not the next one.
    fn append(&mut self, revision: &Revision) -> (r: Result<(), StoreError>)
        ensures
            r == (if old(self).spec_len() >= old(self).spec_capacity() {
                Err::<(), StoreError>(StoreError::OutOfSpace)
            } else if revision.sequence_id != old(self).spec_len() {
                Err(StoreError::OutOfOrder)
            } else {
                Ok(())
            }),
            r is Ok ==> final(self).spec_len() == old(self).spec_len() + 1,
            r is Err ==> final(self).spec_len() == old(self).spec_len(),
            final(self).spec_capacity() == old(self).spec_capacity(),
    {
        if self.entries.len() >= self.capacity {
            return Err(StoreError::OutOfSpace);
        }
        if revision.sequence_id != self.entries.len() as u64 {
            return Err(StoreError::OutOfOrder);
        }
        self.entries.push(revision.clone());
        assert(final(self).revisions() =~= old(self).revisions().insert(
            revision.sequence_id,
            revision@,
        ));
        Ok(())
    }

    fn get(&self, sequence_id: u64) -> (r: Option<Revision>) {
        if sequence_id < self.entries.len() as u64 {
            Some(self.entries[sequence_id as usize].clone())
        } else {
            None
        }
    }

    fn max_sequence_id(&self) -> (r: u64) {
        if self.entries.len() == 0 {
            assert(self.revisions().dom() =~= Set::<u64>::empty());
            0
        } else {
            let last = (self.entries.len() - 1) as u64;
            proof {
                lemma_highest(self.revisions().dom(), last);
            }
            last
        }
    }
}

/// The snapshots of `entries` by their ids, a later one in place of an
/// earlier one for the same id.
pub open spec fn snapshot_map(entries: Seq<Snapshot>) -> Map<u64, SnapshotView>
    decreases entries.len(),
{
    if entries.len() == 0 {
        Map::empty()
    } else {
        snapshot_map(entries.drop_last()).insert(entries.last().at_sequence_id, entries.last()@)
    }
}

/// Whether one of `entries` is a snapshot for `id`.
pub open spec fn holds(entries: Seq<Snapshot>, id: u64) -> bool {
    exists|i: int| 0 <= i < entries.len() && (#[trigger] entries[i]).at_sequence_id == id
}

/// `snapshot_map` holds a snapshot for `id` exactly when one of the entries
/// is for `id`.
pub proof fn lemma_snapshot_map_keys(entries: Seq<Snapshot>, id: u64)
    ensures
        snapshot_map(entries).contains_key(id) <==> holds(entries, id),
    decreases entries.len(),
{
    if entries.len() > 0 {
        let front = entries.drop_last();
        lemma_snapshot_map_keys(front, id);
        if holds(front, id) {
            let i = choose|i: int|
                0 <= i < front.len() && (#[trigger] front[i]).at_sequence_id == id;
            assert(entries[i].at_sequence_id == id);
        }
        if holds(entries, id) && id != entries.last().at_sequence_id {
            let i = choose|i: int|
                0 <= i < entries.len() && (#[trigger] entries[i]).at_sequence_id == id;
            assert(front[i].at_sequence_id == id);
        }
        if id == entries.last().at_sequence_id {
            assert(entries[entries.len() - 1].at_sequence_id == id);
        }
    }
}

/// A snapshot store in memory. It keeps every snapshot that it is given, up
/// to its capacity, and reads the one that was written last for an id.
pub struct MemorySnapshotStore {
    entries: Vec<Snapshot>,
    capacity: usize,
}

impl MemorySnapshotStore {
    /// The number of snapshots that the store takes.
    pub closed spec fn spec_capacity(&self) -> usize {
        self.capacity
    }

    /// The number of snapshots that were written to the store.
    pub closed spec fn spec_writes(&self) -> nat {
        self.entries@.len()
    }

    /// An empty store that takes `capacity` snapshots.
    pub fn new(capacity: usize) -> (r: Self)
        ensures
            r.snapshots() == Map::<u64, SnapshotView>::empty(),
            r.spec_capacity() == capacity,
            r.spec_writes() == 0,
    {
        MemorySnapshotStore { entries: Vec::new(), capacity }
    }

    /// The number of snapshots that were written to the store.
    pub fn writes(&self) -> (r: usize)
        ensures
            r == self.spec_writes(),
    {
        self.entries.len()
    }

    /// The snapshot that was written last for `id`, if there is one.
    fn find(&self, id: u64) -> (r: Option<Snapshot>)
        ensures
            match r {
                Some(snapshot) => self.snapshots().contains_key(id) && snapshot@
                    == self.snapshots()[id],
                None => !self.snapshots().contains_key(id),
            },
    {
        let mut i: usize = self.entries.len();
        assert(self.entries@.take(i as int) =~= self.entries@);
        while i > 0
            invariant
                i <= self.entries@.len(),
                self.snapshots().contains_key(id) <==> snapshot_map(
                    self.entries@.take(i as int),
                ).contains_key(id),
                self.snapshots().contains_key(id) ==> self.snapshots()[id] == snapshot_map(
                    self.entries@.take(i as int),
                )[id],
            decreases i,
        {
            proof {
                let upto = self.entries@.take(i as int);
                assert(upto.drop_last() =~= self.entries@.take(i - 1));
                assert(upto.last() == self.entries@[i - 1]);
            }
            i -= 1;
            if self.entries[i].at_sequence_id == id {
                return Some(self.entries[i].clone());
            }
        }
        None
    }
}

impl SnapshotStore for MemorySnapshotStore {
    closed spec fn snapshots(&self) -> Map<u64, SnapshotView> {
        snapshot_map(self.entries@)
    }

    /// Fails with `OutOfSpace` where the store is full, and only then.
    fn put(&mut self, snapshot: &Snapshot) -> (r: Result<(), StoreError>)
        ensures
            r == (if old(self).spec_writes() >= old(self).spec_capacity() {
                Err::<(), StoreError>(StoreError::OutOfSpace)
            } else {
                Ok(())
            }),
            r is Ok ==> final(self).spec_writes() == old(self).spec_writes() + 1,
            r is Err ==> final(self).spec_writes() == old(self).spec_writes(),
            final(self).spec_capacity() == old(self).spec_capacity(),
    {
        if self.entries.len() >= self.capacity {
            return Err(StoreError::OutOfSpace);
        }
        let copy = snapshot.clone();
        self.entries.push(copy);
        proof {
            assert(self.entries@.drop_last() =~= old(self).entries@);
            assert(self.entries@.last()@ == snapshot@);
        }
        Ok(())
    }

    fn get(&self, sequence_id: Option<u64>) -> (r: Option<Snapshot>) {
        match sequence_id {
            Some(id) => self.find(id),
            None => {
                if self.entries.len() == 0 {
                    assert(self.snapshots().dom() =~= Set::<u64>::empty());
                    return None;
                }
                let mut top: u64 = self.entries[0].at_sequence_id;
                let mut i: usize = 1;
                while i < self.entries.len()
                    invariant
                        1 <= i <= self.entries@.len(),
                        exists|k: int|
                            0 <= k < i && (#[trigger] self.entries@[k]).at_sequence_id == top,
                        forall|k: int|
                            0 <= k < i ==> (#[trigger] self.entries@[k]).at_sequence_id <= top,
                    decreases self.entries@.len() - i,
                {
                    if self.entries[i].at_sequence_id > top {
                        top = self.entries[i].at_sequence_id;
                    }
                    i += 1;
                }
                proof {
                    lemma_snapshot_map_keys(self.entries@, top);
                    assert forall|other: u64|
                        self.snapshots().dom().contains(other) implies other <= top by {
                        lemma_snapshot_map_keys(self.entries@, other);
                    }
                    lemma_highest(self.snapshots().dom(), top);
                }
                self.find(top)
            },
        }
    }
}

} // verus!
