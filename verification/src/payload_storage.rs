//! The payload store: one payload per internal offset, grown on demand.
//! An offset with no slot simply has the empty payload; payload left at a
//! tombstoned offset stays until the store reclaims it on its own schedule.

use vstd::prelude::*;
use vstd::pervasive::VecAdditionalExecFns;

use crate::payload::Payload;
use crate::types::PayloadKeyType;
use crate::types::PayloadType;
use crate::types::PayloadValue;
use crate::types::PointOffsetType;

verus! {

/// The payload store.
#[derive(Debug)]
pub struct PayloadStorage {
    /// Slot `i` holds the payload of offset `i`.
    pub slots: Vec<Payload>,
}

impl PayloadStorage {
    /// Well-formedness: every stored payload is well-formed.
    pub open spec fn wf(&self) -> bool {
        forall|i: int| 0 <= i < self.slots@.len() ==> (#[trigger] self.slots@[i]).wf()
    }

    /// The payload attached to `off`: empty when no slot exists.
    pub open spec fn at(&self, off: int) -> Map<Seq<char>, PayloadValue> {
        if 0 <= off < self.slots@.len() {
            self.slots@[off]@
        } else {
            Map::empty()
        }
    }

    /// An empty store.
    pub fn new() -> (r: Self)
        ensures
            r.wf(),
            r.slots@.len() == 0,
            forall|off: int| r.at(off) == Map::<Seq<char>, PayloadValue>::empty(),
    {
        PayloadStorage { slots: Vec::new() }
    }

    /// Ensure a slot exists for `offset`, filling fresh slots with the
    /// empty payload.
    fn grow_past(&mut self, offset: PointOffsetType)
        requires
            old(self).wf(),
        ensures
            final(self).wf(),
            final(self).slots@.len() == (if old(self).slots@.len() > offset {
                old(self).slots@.len() as int
            } else {
                offset + 1
            }),
            forall|off: int| final(self).at(off) == old(self).at(off),
    {
        while self.slots.len() <= offset
            invariant
                self.wf(),
                self.slots@.len() <= offset + 1 || self.slots@.len() == old(self).slots@.len(),
                old(self).slots@.len() <= self.slots@.len(),
                forall|off: int| self.at(off) == old(self).at(off),
            decreases offset + 1 - self.slots@.len(),
        {
            let p = Payload::new();
            self.slots.push(p);
            assert forall|off: int| self.at(off) == old(self).at(off) by {
                if 0 <= off < self.slots@.len() - 1 {
                } else if off == self.slots@.len() - 1 {
                    assert(self.at(off) == Map::<Seq<char>, PayloadValue>::empty());
                }
            }
        }
    }

    /// Replace the whole payload at `offset`.
    pub fn assign_all(&mut self, offset: PointOffsetType, payload: Payload)
        requires
            old(self).wf(),
            payload.wf(),
        ensures
            final(self).wf(),
            final(self).at(offset as int) == payload@,
            forall|off: int| off != offset ==> final(self).at(off) == old(self).at(off),
            final(self).slots@.len() == (if old(self).slots@.len() > offset {
                old(self).slots@.len() as int
            } else {
                offset + 1
            }),
    {
        self.grow_past(offset);
        self.slots.set(offset, payload);
    }

    /// Merge one key into the payload at `offset`, leaving other keys as
    /// they are.
    pub fn assign(&mut self, offset: PointOffsetType, key: &PayloadKeyType, value: PayloadType)
        requires
            old(self).wf(),
        ensures
            final(self).wf(),
            final(self).at(offset as int) == old(self).at(offset as int).insert(key@, value@),
            forall|off: int| off != offset ==> final(self).at(off) == old(self).at(off),
            final(self).slots@.len() == (if old(self).slots@.len() > offset {
                old(self).slots@.len() as int
            } else {
                offset + 1
            }),
    {
        self.grow_past(offset);
        let mut p = self.slots[offset].clone();
        p.insert(key, value);
        self.slots.set(offset, p);
    }

    /// Remove one key from the payload at `offset`; an absent key is not
    /// an error.
    pub fn delete(&mut self, offset: PointOffsetType, key: &PayloadKeyType)
        requires
            old(self).wf(),
        ensures
            final(self).wf(),
            final(self).at(offset as int) == old(self).at(offset as int).remove(key@),
            forall|off: int| off != offset ==> final(self).at(off) == old(self).at(off),
            final(self).slots@.len() == old(self).slots@.len(),
    {
        if offset < self.slots.len() {
            let mut p = self.slots[offset].clone();
            p.remove(key);
            self.slots.set(offset, p);
        } else {
            proof {
                assert(Map::<Seq<char>, PayloadValue>::empty().remove(key@)
                    =~= Map::<Seq<char>, PayloadValue>::empty());
            }
        }
    }

    /// Detach and return the payload at `offset`, leaving it empty; a
    /// payload that is already empty is reported as absent.
    pub fn drop_payload(&mut self, offset: PointOffsetType) -> (r: Option<Payload>)
        requires
            old(self).wf(),
        ensures
            final(self).wf(),
            final(self).at(offset as int) == Map::<Seq<char>, PayloadValue>::empty(),
            forall|off: int| off != offset ==> final(self).at(off) == old(self).at(off),
            final(self).slots@.len() == old(self).slots@.len(),
            r is Some ==> r.unwrap().wf() && r.unwrap()@ == old(self).at(offset as int),
            r is None ==> old(self).at(offset as int) == Map::<Seq<char>, PayloadValue>::empty(),
    {
        if offset < self.slots.len() {
            let p = self.slots[offset].clone();
            if p.is_empty() {
                None
            } else {
                let empty = Payload::new();
                self.slots.set(offset, empty);
                Some(p)
            }
        } else {
            None
        }
    }

    /// A copy of the payload at `offset`.
    pub fn payload(&self, offset: PointOffsetType) -> (r: Payload)
        requires
            self.wf(),
        ensures
            r.wf(),
            r@ == self.at(offset as int),
    {
        if offset < self.slots.len() {
            self.slots[offset].clone()
        } else {
            Payload::new()
        }
    }
}

} // verus!
