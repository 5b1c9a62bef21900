//! The vector store: append-only slots holding fixed-dimension vectors.
//! Deleting a slot leaves a tombstone; offsets are never reused, so an
//! updated point always receives a fresh offset.

use vstd::prelude::*;
use vstd::pervasive::VecAdditionalExecFns;

use crate::types::PointOffsetType;
use crate::types::VectorElementType;

verus! {

/// Number of tombstoned slots.
pub open spec fn dead_count(s: Seq<Option<Vec<VectorElementType>>>) -> nat
    decreases s.len(),
{
    if s.len() == 0 {
        0
    } else {
        dead_count(s.drop_last()) + (if s.last() is None { 1nat } else { 0nat })
    }
}

/// There are never more tombstones than slots.
pub proof fn lemma_dead_count_le(s: Seq<Option<Vec<VectorElementType>>>)
    ensures
        dead_count(s) <= s.len(),
    decreases s.len(),
{
    if s.len() > 0 {
        lemma_dead_count_le(s.drop_last());
    }
}

/// A live slot leaves room for one more tombstone.
pub proof fn lemma_dead_count_lt(s: Seq<Option<Vec<VectorElementType>>>, i: int)
    requires
        0 <= i < s.len(),
        s[i] is Some,
    ensures
        dead_count(s) < s.len(),
    decreases s.len(),
{
    if i == s.len() - 1 {
        lemma_dead_count_le(s.drop_last());
    } else {
        assert(s.drop_last()[i] == s[i]);
        lemma_dead_count_lt(s.drop_last(), i);
    }
}

/// Appending a slot adds a tombstone exactly when the slot is empty.
pub proof fn lemma_dead_count_push(s: Seq<Option<Vec<VectorElementType>>>, v: Option<Vec<VectorElementType>>)
    ensures
        dead_count(s.push(v)) == dead_count(s) + (if v is None { 1nat } else { 0nat }),
{
    assert(s.push(v).drop_last() =~= s);
    assert(s.push(v).last() == v);
}

/// Overwriting slot `i` trades its tombstone state for the new one's.
pub proof fn lemma_dead_count_update(
    s: Seq<Option<Vec<VectorElementType>>>,
    i: int,
    v: Option<Vec<VectorElementType>>,
)
    requires
        0 <= i < s.len(),
    ensures
        dead_count(s.update(i, v)) + (if s[i] is None { 1nat } else { 0nat })
            == dead_count(s) + (if v is None { 1nat } else { 0nat }),
    decreases s.len(),
{
    let u = s.update(i, v);
    if i == s.len() - 1 {
        assert(u.drop_last() =~= s.drop_last());
        assert(u.last() == v);
    } else {
        assert(u.drop_last() =~= s.drop_last().update(i, v));
        assert(s.drop_last()[i] == s[i]);
        lemma_dead_count_update(s.drop_last(), i, v);
        assert(u.last() == s.last());
    }
}

/// The vector store.
#[derive(Debug)]
pub struct VectorStorage {
    /// Fixed dimension of every stored and queried vector.
    pub dim: usize,
    /// Slot `i` holds the vector at offset `i`, or a tombstone.
    pub slots: Vec<Option<Vec<VectorElementType>>>,
    /// Tombstone count, kept in step with `slots`.
    pub deleted: usize,
}

impl VectorStorage {
    /// Well-formedness: the tombstone counter is exact and every live
    /// vector has the fixed dimension.
    pub open spec fn wf(&self) -> bool {
        &&& self.deleted == dead_count(self.slots@)
        &&& forall|i: int| #[trigger] self.is_live(i) ==> self.vector_at(i).len() == self.dim
    }

    /// Slot `off` exists and holds a vector.
    pub open spec fn is_live(&self, off: int) -> bool {
        0 <= off < self.slots@.len() && self.slots@[off] is Some
    }

    /// The vector held at a live slot.
    pub open spec fn vector_at(&self, off: int) -> Seq<VectorElementType> {
        self.slots@[off].unwrap()@
    }

    /// Number of live slots.
    pub open spec fn live_count(&self) -> int {
        self.slots@.len() - dead_count(self.slots@)
    }

    /// An empty store of the given fixed dimension.
    pub fn new(dim: usize) -> (r: Self)
        ensures
            r.wf(),
            r.dim == dim,
            r.slots@.len() == 0,
            r.deleted == 0,
            r.live_count() == 0,
    {
        VectorStorage { dim, slots: Vec::new(), deleted: 0 }
    }

    /// The fixed dimension.
    pub fn vector_dim(&self) -> (r: usize)
        ensures
            r == self.dim,
    {
        self.dim
    }

    /// Number of live vectors.
    pub fn vector_count(&self) -> (r: usize)
        requires
            self.wf(),
        ensures
            r == self.live_count(),
    {
        proof {
            lemma_dead_count_le(self.slots@);
        }
        self.slots.len() - self.deleted
    }

    /// Number of tombstoned slots.
    pub fn deleted_count(&self) -> (r: usize)
        requires
            self.wf(),
        ensures
            r == dead_count(self.slots@),
    {
        self.deleted
    }

    /// Store a copy of `vector` in a fresh slot and return its offset.
    pub fn put_vector(&mut self, vector: &Vec<VectorElementType>) -> (offset: PointOffsetType)
        requires
            old(self).wf(),
            vector@.len() == old(self).dim,
        ensures
            final(self).wf(),
            final(self).dim == old(self).dim,
            offset == old(self).slots@.len(),
            final(self).slots@.len() == old(self).slots@.len() + 1,
            final(self).is_live(offset as int),
            final(self).vector_at(offset as int) == vector@,
            forall|i: int| 0 <= i < old(self).slots@.len()
                ==> final(self).slots@[i] == old(self).slots@[i],
            final(self).deleted == old(self).deleted,
            final(self).live_count() == old(self).live_count() + 1,
    {
        let offset = self.slots.len();
        let stored = copy_vector(vector);
        proof {
            lemma_dead_count_push(self.slots@, Some(stored));
        }
        self.slots.push(Some(stored));
        assert forall|i: int| #[trigger] self.is_live(i)
            implies self.vector_at(i).len() == self.dim by {
            if i < offset {
                assert(old(self).is_live(i));
            }
        }
        offset
    }

    /// Tombstone slot `offset`; an offset that is out of range or already
    /// dead is left as it is.
    pub fn delete(&mut self, offset: PointOffsetType)
        requires
            old(self).wf(),
        ensures
            final(self).wf(),
            final(self).dim == old(self).dim,
            final(self).slots@.len() == old(self).slots@.len(),
            !final(self).is_live(offset as int),
            forall|i: int| 0 <= i < old(self).slots@.len() && i != offset
                ==> final(self).slots@[i] == old(self).slots@[i],
            old(self).is_live(offset as int) ==> {
                &&& final(self).deleted == old(self).deleted + 1
                &&& final(self).live_count() == old(self).live_count() - 1
            },
            !old(self).is_live(offset as int) ==> *final(self) == *old(self),
    {
        if offset < self.slots.len() {
            let live = match &self.slots[offset] {
                Some(_) => true,
                None => false,
            };
            if live {
                proof {
                    lemma_dead_count_lt(self.slots@, offset as int);
                    lemma_dead_count_update(self.slots@, offset as int, None);
                }
                self.slots.set(offset, None);
                self.deleted = self.deleted + 1;
                assert forall|i: int| #[trigger] self.is_live(i)
                    implies self.vector_at(i).len() == self.dim by {
                    assert(old(self).is_live(i));
                }
            } else {
                assert(self.slots@ =~= old(self).slots@);
            }
        }
    }

    /// A copy of the vector at `offset`, if that slot is live.
    pub fn get_vector(&self, offset: PointOffsetType) -> (r: Option<Vec<VectorElementType>>)
        ensures
            self.is_live(offset as int) ==> r is Some && r.unwrap()@ == self.vector_at(offset as int),
            !self.is_live(offset as int) ==> r is None,
    {
        if offset < self.slots.len() {
            match &self.slots[offset] {
                Some(v) => Some(copy_vector(v)),
                None => None,
            }
        } else {
            None
        }
    }
}

/// An element-for-element copy of a vector.
pub fn copy_vector(v: &Vec<VectorElementType>) -> (r: Vec<VectorElementType>)
    ensures
        r@ == v@,
{
    let mut out: Vec<VectorElementType> = Vec::new();
    let mut i: usize = 0;
    while i < v.len()
        invariant
            i <= v@.len(),
            out@.len() == i,
            forall|j: int| 0 <= j < i ==> out@[j] == v@[j],
        decreases v@.len() - i,
    {
        out.push(v[i]);
        i += 1;
    }
    assert(out@ =~= v@);
    out
}

} // verus!
