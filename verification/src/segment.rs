//! The segment: coordinates the identifier index, the vector store and the
//! payload store under a stream of versioned write operations, and serves
//! point-in-time similarity search.
//!
//! Every mutating operation is version-gated: an operation whose sequence
//! number is at or below the segment's high-water mark is reported as
//! skipped and leaves the stored points untouched, which makes replay
//! idempotent and rejects out-of-order operations.

use vstd::prelude::*;

use crate::id_mapper::IdMapper;
use crate::id_mapper::lemma_links_of_injective;
use crate::id_mapper::maps_to_offset;
use crate::payload::Payload;
use crate::payload_storage::PayloadStorage;
use crate::query_planner::ScanPlanner;
use crate::query_planner::dot;
use crate::query_planner::passes_filter;
use crate::types::Filter;
use crate::types::OpResult;
use crate::types::OperationError;
use crate::types::PayloadKeyType;
use crate::types::PayloadType;
use crate::types::PayloadValue;
use crate::types::PointIdType;
use crate::types::PointOffsetType;
use crate::types::ScoredPoint;
use crate::types::SearchParams;
use crate::types::SegmentStats;
use crate::types::SeqNumberType;
use crate::types::VectorElementType;
use crate::vector_storage::VectorStorage;
use crate::vector_storage::dead_count;

verus! {

/// The high-water mark after an operation: it rises to `op_num` exactly
/// when the operation is fresh, and never falls.
pub open spec fn version_step(version: SeqNumberType, op_num: SeqNumberType) -> SeqNumberType {
    if op_num > version {
        op_num
    } else {
        version
    }
}

/// Every point other than `except` keeps its presence, vector and payload
/// across a state change.
pub open spec fn points_unchanged_except(pre: &Segment, post: &Segment, except: PointIdType) -> bool {
    forall|p: PointIdType| p != except ==> {
        &&& (#[trigger] post.has(p)) == pre.has(p)
        &&& (pre.has(p) ==> post.vec_of(p) == pre.vec_of(p) && post.payload_of(p) == pre.payload_of(p))
    }
}

/// Every point keeps its presence, vector and payload across a state change.
pub open spec fn points_unchanged(pre: &Segment, post: &Segment) -> bool {
    forall|p: PointIdType| {
        &&& (#[trigger] post.has(p)) == pre.has(p)
        &&& (pre.has(p) ==> post.vec_of(p) == pre.vec_of(p) && post.payload_of(p) == pre.payload_of(p))
    }
}

/// The per-shard coordination unit: one identifier index, one vector
/// store, one payload store and one query planner.
#[derive(Debug)]
pub struct Segment {
    /// High-water mark of applied operation sequence numbers.
    pub version: SeqNumberType,
    pub id_mapper: IdMapper,
    pub vector_storage: VectorStorage,
    pub payload_storage: PayloadStorage,
    pub query_planner: ScanPlanner,
    /// Capability flag reported to callers, not enforced here.
    pub appendable_flag: bool,
}

impl Segment {
    /// Cross-store consistency: each store is well-formed, every linked
    /// offset holds a live vector, every live vector is linked to exactly
    /// one external identifier, and payload slots never outrun vector
    /// slots, so a fresh offset always starts with an empty payload.
    pub open spec fn wf(&self) -> bool {
        &&& self.id_mapper.wf()
        &&& self.vector_storage.wf()
        &&& self.payload_storage.wf()
        &&& forall|p: PointIdType| #[trigger] self.id_mapper@.contains_key(p)
                ==> self.vector_storage.is_live(self.id_mapper@[p] as int)
        &&& forall|off: PointOffsetType| #[trigger] self.vector_storage.is_live(off as int)
                ==> maps_to_offset(self.id_mapper@, off)
        &&& self.payload_storage.slots@.len() <= self.vector_storage.slots@.len()
    }

    /// The high-water mark.
    pub open spec fn spec_version(&self) -> SeqNumberType {
        self.version
    }

    /// The fixed vector dimension.
    pub open spec fn dim(&self) -> usize {
        self.vector_storage.dim
    }

    /// Whether the point exists.
    pub open spec fn has(&self, point_id: PointIdType) -> bool {
        self.id_mapper@.contains_key(point_id)
    }

    /// The internal offset of a stored point.
    pub open spec fn offset_of(&self, point_id: PointIdType) -> int {
        self.id_mapper@[point_id] as int
    }

    /// The vector of a stored point.
    pub open spec fn vec_of(&self, point_id: PointIdType) -> Seq<VectorElementType> {
        self.vector_storage.vector_at(self.offset_of(point_id))
    }

    /// The payload of a stored point.
    pub open spec fn payload_of(&self, point_id: PointIdType) -> Map<Seq<char>, PayloadValue> {
        self.payload_storage.at(self.offset_of(point_id))
    }

    /// Number of stored points.
    pub open spec fn point_count(&self) -> int {
        self.vector_storage.live_count()
    }

    /// Number of tombstoned offsets.
    pub open spec fn deleted_point_count(&self) -> int {
        dead_count(self.vector_storage.slots@) as int
    }

    /// A fresh, empty segment fixed to the given vector dimension.
    pub fn new(dim: usize, appendable: bool) -> (r: Segment)
        ensures
            r.wf(),
            r.spec_version() == 0,
            r.dim() == dim,
            r.appendable_flag == appendable,
            r.point_count() == 0,
            r.deleted_point_count() == 0,
            forall|p: PointIdType| !r.has(p),
    {
        Segment {
            version: 0,
            id_mapper: IdMapper::new(),
            vector_storage: VectorStorage::new(dim),
            payload_storage: PayloadStorage::new(),
            query_planner: ScanPlanner::new(),
            appendable_flag: appendable,
        }
    }

    /// Version gate: a stale operation is skipped; a fresh one raises the
    /// high-water mark before its body runs.
    fn skip_by_version(&mut self, op_num: SeqNumberType) -> (skip: bool)
        ensures
            skip == (op_num <= old(self).version),
            final(self).version == version_step(old(self).version, op_num),
            final(self).id_mapper == old(self).id_mapper,
            final(self).vector_storage == old(self).vector_storage,
            final(self).payload_storage == old(self).payload_storage,
            final(self).query_planner == old(self).query_planner,
            final(self).appendable_flag == old(self).appendable_flag,
            skip ==> *final(self) == *old(self),
    {
        if op_num <= self.version {
            true
        } else {
            self.version = op_num;
            false
        }
    }

    /// Resolve a point's internal offset, or report it as not found.
    fn lookup_internal_id(&self, point_id: PointIdType) -> (r: OpResult<PointOffsetType>)
        requires
            self.id_mapper.wf(),
        ensures
            match r {
                Ok(off) => self.has(point_id) && off == self.id_mapper@[point_id],
                Err(e) => !self.has(point_id)
                    && e == (OperationError::PointNotFound { point_id }),
            },
    {
        let internal_id_opt = self.id_mapper.internal_id(point_id);
        match internal_id_opt {
            Some(internal_id) => Ok(internal_id),
            None => Err(OperationError::PointNotFound { point_id }),
        }
    }

    /// The update path for an existing point: capture its payload, retire
    /// the old offset, store the new vector at a fresh offset and re-attach
    /// the captured payload there. The identifier index is left to the
    /// caller.
    fn update_vector(&mut self, old_internal_id: PointOffsetType, vector: &Vec<VectorElementType>) -> (new_internal_id: PointOffsetType)
        requires
            old(self).vector_storage.wf(),
            old(self).payload_storage.wf(),
            vector@.len() == old(self).vector_storage.dim,
            old(self).vector_storage.is_live(old_internal_id as int),
            old(self).payload_storage.slots@.len() <= old(self).vector_storage.slots@.len(),
        ensures
            final(self).id_mapper == old(self).id_mapper,
            final(self).version == old(self).version,
            final(self).query_planner == old(self).query_planner,
            final(self).appendable_flag == old(self).appendable_flag,
            final(self).vector_storage.wf(),
            final(self).payload_storage.wf(),
            final(self).vector_storage.dim == old(self).vector_storage.dim,
            new_internal_id == old(self).vector_storage.slots@.len(),
            final(self).vector_storage.slots@.len() == old(self).vector_storage.slots@.len() + 1,
            final(self).payload_storage.slots@.len() <= final(self).vector_storage.slots@.len(),
            final(self).vector_storage.is_live(new_internal_id as int),
            final(self).vector_storage.vector_at(new_internal_id as int) == vector@,
            !final(self).vector_storage.is_live(old_internal_id as int),
            forall|i: int| 0 <= i < old(self).vector_storage.slots@.len() && i != old_internal_id
                ==> final(self).vector_storage.slots@[i] == old(self).vector_storage.slots@[i],
            final(self).vector_storage.live_count() == old(self).vector_storage.live_count(),
            final(self).payload_storage.at(new_internal_id as int)
                == old(self).payload_storage.at(old_internal_id as int),
            final(self).payload_storage.at(old_internal_id as int)
                == Map::<Seq<char>, PayloadValue>::empty(),
            forall|off: int| off != old_internal_id && off != new_internal_id
                ==> final(self).payload_storage.at(off) == old(self).payload_storage.at(off),
    {
        let payload = self.payload_storage.drop_payload(old_internal_id);
        self.vector_storage.delete(old_internal_id);
        let new_internal_id = self.vector_storage.put_vector(vector);
        match payload {
            Some(p) => self.payload_storage.assign_all(new_internal_id, p),
            None => (),
        }
        new_internal_id
    }

    /// Store or replace a point's vector under the version gate.
    ///
    /// A fresh point is linked to a fresh offset with an empty payload; an
    /// existing point keeps its payload while its vector moves to a fresh
    /// offset. Reports whether an existing point was replaced.
    pub fn upsert_point(
        &mut self,
        op_num: SeqNumberType,
        point_id: PointIdType,
        vector: &Vec<VectorElementType>,
    ) -> (r: OpResult<bool>)
        requires
            old(self).wf(),
        ensures
            final(self).wf(),
            final(self).dim() == old(self).dim(),
            final(self).appendable_flag == old(self).appendable_flag,
            final(self).spec_version() == version_step(old(self).spec_version(), op_num),
            op_num <= old(self).spec_version()
                ==> r == Ok::<bool, OperationError>(false) && *final(self) == *old(self),
            op_num > old(self).spec_version() ==> match r {
                Ok(replaced) => {
                    &&& vector@.len() == old(self).dim()
                    &&& replaced == old(self).has(point_id)
                    &&& final(self).has(point_id)
                    &&& final(self).vec_of(point_id) == vector@
                    &&& (old(self).has(point_id) ==> {
                        &&& final(self).payload_of(point_id) == old(self).payload_of(point_id)
                        &&& final(self).point_count() == old(self).point_count()
                    })
                    &&& (!old(self).has(point_id) ==> {
                        &&& final(self).payload_of(point_id)
                            == Map::<Seq<char>, PayloadValue>::empty()
                        &&& final(self).point_count() == old(self).point_count() + 1
                    })
                    &&& points_unchanged_except(old(self), final(self), point_id)
                }
                Err(e) => {
                    &&& vector@.len() != old(self).dim()
                    &&& e == (OperationError::DimensionMismatch {
                        expected: old(self).dim(),
                        received: vector@.len() as usize,
                    })
                    &&& points_unchanged(old(self), final(self))
                    &&& final(self).point_count() == old(self).point_count()
                }
            },
    {
        if self.skip_by_version(op_num) {
            return Ok(false);
        }

        let vector_dim = self.vector_storage.vector_dim();
        if vector_dim != vector.len() {
            return Err(OperationError::DimensionMismatch {
                expected: vector_dim,
                received: vector.len(),
            });
        }

        proof {
            lemma_links_of_injective(self.id_mapper.links@);
        }

        let stored_internal_point = self.id_mapper.internal_id(point_id);

        let (was_replaced, new_index) = match stored_internal_point {
            Some(existing_internal_id) => (true, self.update_vector(existing_internal_id, vector)),
            None => (false, self.vector_storage.put_vector(vector)),
        };

        assert forall|p: PointIdType|
            #[trigger] self.id_mapper@.contains_key(p) && self.id_mapper@[p] == new_index
            implies p == point_id by {
            assert(old(self).vector_storage.is_live(old(self).id_mapper@[p] as int));
        }
        self.id_mapper.set_link(point_id, new_index);

        proof {
            let pre = old(self);
            let post = &*self;
            assert forall|p: PointIdType| #[trigger] post.id_mapper@.contains_key(p)
                implies post.vector_storage.is_live(post.id_mapper@[p] as int) by {
                if p != point_id {
                    assert(pre.vector_storage.is_live(pre.id_mapper@[p] as int));
                }
            }
            assert forall|off: PointOffsetType| #[trigger] post.vector_storage.is_live(off as int)
                implies maps_to_offset(post.id_mapper@, off) by {
                if off == new_index {
                    assert(post.id_mapper@.contains_key(point_id)
                        && post.id_mapper@[point_id] == off);
                } else {
                    assert(pre.vector_storage.is_live(off as int));
                    let q = choose|q: PointIdType|
                        #[trigger] pre.id_mapper@.contains_key(q) && pre.id_mapper@[q] == off;
                    assert(q != point_id ==> post.id_mapper@.contains_key(q)
                        && post.id_mapper@[q] == off);
                    if q == point_id {
                        assert(pre.has(point_id) && pre.id_mapper@[point_id] as int
                            != off as int);
                    }
                }
            }
            assert forall|p: PointIdType| p != point_id implies {
                &&& (#[trigger] post.has(p)) == pre.has(p)
                &&& (pre.has(p) ==> post.vec_of(p) == pre.vec_of(p)
                    && post.payload_of(p) == pre.payload_of(p))
            } by {
                if pre.has(p) {
                    assert(pre.vector_storage.is_live(pre.id_mapper@[p] as int));
                }
            }
        }
        Ok(was_replaced)
    }

    /// Remove a point under the version gate. An unknown point is a no-op,
    /// not an error; its offset is tombstoned and its payload is left for
    /// the payload store to reclaim. Reports whether a point was removed.
    pub fn delete_point(&mut self, op_num: SeqNumberType, point_id: PointIdType) -> (r: OpResult<bool>)
        requires
            old(self).wf(),
        ensures
            final(self).wf(),
            final(self).dim() == old(self).dim(),
            final(self).appendable_flag == old(self).appendable_flag,
            final(self).spec_version() == version_step(old(self).spec_version(), op_num),
            op_num <= old(self).spec_version()
                ==> r == Ok::<bool, OperationError>(false) && *final(self) == *old(self),
            op_num > old(self).spec_version() ==> {
                &&& r == Ok::<bool, OperationError>(old(self).has(point_id))
                &&& !final(self).has(point_id)
                &&& points_unchanged_except(old(self), final(self), point_id)
                &&& (old(self).has(point_id) ==> {
                    &&& final(self).point_count() == old(self).point_count() - 1
                    &&& final(self).deleted_point_count() == old(self).deleted_point_count() + 1
                })
                &&& (!old(self).has(point_id) ==> {
                    &&& final(self).point_count() == old(self).point_count()
                    &&& final(self).deleted_point_count() == old(self).deleted_point_count()
                })
            },
    {
        if self.skip_by_version(op_num) {
            return Ok(false);
        }
        proof {
            lemma_links_of_injective(self.id_mapper.links@);
        }
        let internal_id = self.id_mapper.internal_id(point_id);
        match internal_id {
            Some(internal_id) => {
                self.vector_storage.delete(internal_id);
                self.id_mapper.drop_link(point_id);
                proof {
                    let pre = old(self);
                    let post = &*self;
                    assert forall|p: PointIdType| #[trigger] post.id_mapper@.contains_key(p)
                        implies post.vector_storage.is_live(post.id_mapper@[p] as int) by {
                        assert(pre.vector_storage.is_live(pre.id_mapper@[p] as int));
                    }
                    assert forall|off: PointOffsetType|
                        #[trigger] post.vector_storage.is_live(off as int)
                        implies maps_to_offset(post.id_mapper@, off) by {
                        assert(pre.vector_storage.is_live(off as int));
                        let q = choose|q: PointIdType|
                            #[trigger] pre.id_mapper@.contains_key(q) && pre.id_mapper@[q] == off;
                        assert(q != point_id);
                        assert(post.id_mapper@.contains_key(q) && post.id_mapper@[q] == off);
                    }
                    assert forall|p: PointIdType| p != point_id implies {
                        &&& (#[trigger] post.has(p)) == pre.has(p)
                        &&& (pre.has(p) ==> post.vec_of(p) == pre.vec_of(p)
                            && post.payload_of(p) == pre.payload_of(p))
                    } by {
                        if pre.has(p) {
                            assert(pre.vector_storage.is_live(pre.id_mapper@[p] as int));
                        }
                    }
                }
                Ok(true)
            }
            None => Ok(false),
        }
    }

    /// Replace the entire payload of an existing point under the version
    /// gate; an unknown point is an error.
    pub fn set_full_payload(
        &mut self,
        op_num: SeqNumberType,
        point_id: PointIdType,
        full_payload: Payload,
    ) -> (r: OpResult<bool>)
        requires
            old(self).wf(),
            full_payload.wf(),
        ensures
            final(self).wf(),
            final(self).dim() == old(self).dim(),
            final(self).appendable_flag == old(self).appendable_flag,
            final(self).spec_version() == version_step(old(self).spec_version(), op_num),
            final(self).point_count() == old(self).point_count(),
            op_num <= old(self).spec_version()
                ==> r == Ok::<bool, OperationError>(false) && *final(self) == *old(self),
            op_num > old(self).spec_version() ==> match r {
                Ok(applied) => {
                    &&& applied == true
                    &&& old(self).has(point_id)
                    &&& final(self).has(point_id)
                    &&& final(self).payload_of(point_id) == full_payload@
                    &&& final(self).vec_of(point_id) == old(self).vec_of(point_id)
                    &&& points_unchanged_except(old(self), final(self), point_id)
                }
                Err(e) => {
                    &&& e == (OperationError::PointNotFound { point_id })
                    &&& !old(self).has(point_id)
                    &&& points_unchanged(old(self), final(self))
                }
            },
    {
        if self.skip_by_version(op_num) {
            return Ok(false);
        }
        let internal_id = match self.lookup_internal_id(point_id) {
            Ok(internal_id) => internal_id,
            Err(e) => {
                return Err(e);
            }
        };
        self.payload_storage.assign_all(internal_id, full_payload);
        proof {
            self.lemma_payload_site_update(old(self), point_id, internal_id);
        }
        Ok(true)
    }

    /// Merge one key into an existing point's payload under the version
    /// gate, leaving its other keys untouched.
    pub fn set_payload(
        &mut self,
        op_num: SeqNumberType,
        point_id: PointIdType,
        key: &PayloadKeyType,
        payload: PayloadType,
    ) -> (r: OpResult<bool>)
        requires
            old(self).wf(),
        ensures
            final(self).wf(),
            final(self).dim() == old(self).dim(),
            final(self).appendable_flag == old(self).appendable_flag,
            final(self).spec_version() == version_step(old(self).spec_version(), op_num),
            final(self).point_count() == old(self).point_count(),
            op_num <= old(self).spec_version()
                ==> r == Ok::<bool, OperationError>(false) && *final(self) == *old(self),
            op_num > old(self).spec_version() ==> match r {
                Ok(applied) => {
                    &&& applied == true
                    &&& old(self).has(point_id)
                    &&& final(self).has(point_id)
                    &&& final(self).payload_of(point_id)
                        == old(self).payload_of(point_id).insert(key@, payload@)
                    &&& final(self).vec_of(point_id) == old(self).vec_of(point_id)
                    &&& points_unchanged_except(old(self), final(self), point_id)
                }
                Err(e) => {
                    &&& e == (OperationError::PointNotFound { point_id })
                    &&& !old(self).has(point_id)
                    &&& points_unchanged(old(self), final(self))
                }
            },
    {
        if self.skip_by_version(op_num) {
            return Ok(false);
        }
        let internal_id = match self.lookup_internal_id(point_id) {
            Ok(internal_id) => internal_id,
            Err(e) => {
                return Err(e);
            }
        };
        self.payload_storage.assign(internal_id, key, payload);
        proof {
            self.lemma_payload_site_update(old(self), point_id, internal_id);
        }
        Ok(true)
    }

    /// Remove one key from an existing point's payload under the version
    /// gate; an absent key is not an error.
    pub fn delete_payload(
        &mut self,
        op_num: SeqNumberType,
        point_id: PointIdType,
        key: &PayloadKeyType,
    ) -> (r: OpResult<bool>)
        requires
            old(self).wf(),
        ensures
            final(self).wf(),
            final(self).dim() == old(self).dim(),
            final(self).appendable_flag == old(self).appendable_flag,
            final(self).spec_version() == version_step(old(self).spec_version(), op_num),
            final(self).point_count() == old(self).point_count(),
            op_num <= old(self).spec_version()
                ==> r == Ok::<bool, OperationError>(false) && *final(self) == *old(self),
            op_num > old(self).spec_version() ==> match r {
                Ok(applied) => {
                    &&& applied == true
                    &&& old(self).has(point_id)
                    &&& final(self).has(point_id)
                    &&& final(self).payload_of(point_id)
                        == old(self).payload_of(point_id).remove(key@)
                    &&& final(self).vec_of(point_id) == old(self).vec_of(point_id)
                    &&& points_unchanged_except(old(self), final(self), point_id)
                }
                Err(e) => {
                    &&& e == (OperationError::PointNotFound { point_id })
                    &&& !old(self).has(point_id)
                    &&& points_unchanged(old(self), final(self))
                }
            },
    {
        if self.skip_by_version(op_num) {
            return Ok(false);
        }
        let internal_id = match self.lookup_internal_id(point_id) {
            Ok(internal_id) => internal_id,
            Err(e) => {
                return Err(e);
            }
        };
        self.payload_storage.delete(internal_id, key);
        proof {
            self.lemma_payload_site_update(old(self), point_id, internal_id);
        }
        Ok(true)
    }

    /// Clear an existing point's payload under the version gate, leaving
    /// the empty payload at its offset.
    pub fn clear_payload(&mut self, op_num: SeqNumberType, point_id: PointIdType) -> (r: OpResult<bool>)
        requires
            old(self).wf(),
        ensures
            final(self).wf(),
            final(self).dim() == old(self).dim(),
            final(self).appendable_flag == old(self).appendable_flag,
            final(self).spec_version() == version_step(old(self).spec_version(), op_num),
            final(self).point_count() == old(self).point_count(),
            op_num <= old(self).spec_version()
                ==> r == Ok::<bool, OperationError>(false) && *final(self) == *old(self),
            op_num > old(self).spec_version() ==> match r {
                Ok(applied) => {
                    &&& applied == true
                    &&& old(self).has(point_id)
                    &&& final(self).has(point_id)
                    &&& final(self).payload_of(point_id)
                        == Map::<Seq<char>, PayloadValue>::empty()
                    &&& final(self).vec_of(point_id) == old(self).vec_of(point_id)
                    &&& points_unchanged_except(old(self), final(self), point_id)
                }
                Err(e) => {
                    &&& e == (OperationError::PointNotFound { point_id })
                    &&& !old(self).has(point_id)
                    &&& points_unchanged(old(self), final(self))
                }
            },
    {
        if self.skip_by_version(op_num) {
            return Ok(false);
        }
        let internal_id = match self.lookup_internal_id(point_id) {
            Ok(internal_id) => internal_id,
            Err(e) => {
                return Err(e);
            }
        };
        let _ = self.payload_storage.drop_payload(internal_id);
        proof {
            self.lemma_payload_site_update(old(self), point_id, internal_id);
        }
        Ok(true)
    }

    /// After a payload-store change confined to `point_id`'s own offset,
    /// the segment is still consistent and every other point is untouched.
    proof fn lemma_payload_site_update(&self, pre: &Segment, point_id: PointIdType, internal_id: PointOffsetType)
        requires
            pre.wf(),
            pre.has(point_id),
            internal_id == pre.id_mapper@[point_id],
            self.id_mapper == pre.id_mapper,
            self.vector_storage == pre.vector_storage,
            self.payload_storage.wf(),
            self.payload_storage.slots@.len() <= self.vector_storage.slots@.len()
                || self.payload_storage.slots@.len() <= internal_id + 1,
            forall|off: int| off != internal_id
                ==> self.payload_storage.at(off) == pre.payload_storage.at(off),
        ensures
            self.wf(),
            points_unchanged_except(pre, self, point_id),
    {
        lemma_links_of_injective(pre.id_mapper.links@);
        assert(pre.vector_storage.is_live(internal_id as int));
        assert(self.payload_storage.slots@.len() <= self.vector_storage.slots@.len());
        assert forall|p: PointIdType| p != point_id implies {
            &&& (#[trigger] self.has(p)) == pre.has(p)
            &&& (pre.has(p) ==> self.vec_of(p) == pre.vec_of(p)
                && self.payload_of(p) == pre.payload_of(p))
        } by {
            if pre.has(p) {
                assert(pre.id_mapper@[p] != pre.id_mapper@[point_id]);
            }
        }
    }

    /// Similarity search: validate the query's dimension, let the planner
    /// rank live offsets, and translate each offset back to its external
    /// identifier. A live offset always has an identifier, so translation
    /// cannot fail.
    pub fn search(
        &self,
        vector: &Vec<VectorElementType>,
        filter: Option<&Filter>,
        top: usize,
        params: Option<&SearchParams>,
    ) -> (r: OpResult<Vec<ScoredPoint>>)
        requires
            self.wf(),
        ensures
            match r {
                Ok(res) => {
                    &&& vector@.len() == self.dim()
                    &&& res@.len() <= top
                    &&& (forall|k: int| 0 <= k < res@.len() ==> {
                        &&& self.has((#[trigger] res@[k]).idx)
                        &&& res@[k].score as int == dot(vector@, self.vec_of(res@[k].idx))
                        &&& passes_filter(filter, self.payload_of(res@[k].idx))
                    })
                    &&& (forall|k1: int, k2: int| 0 <= k1 < k2 < res@.len()
                        ==> res@[k1].score >= res@[k2].score && res@[k1].idx != res@[k2].idx)
                    &&& (forall|p: PointIdType|
                        #[trigger] self.has(p) && passes_filter(filter, self.payload_of(p))
                            ==> (exists|k: int| 0 <= k < res@.len() && res@[k].idx == p)
                                || (res@.len() == top
                                    && (top == 0
                                        || res@[top as int - 1].score as int
                                            >= dot(vector@, self.vec_of(p)))))
                }
                Err(e) => {
                    &&& vector@.len() != self.dim()
                    &&& e == (OperationError::DimensionMismatch {
                        expected: self.dim(),
                        received: vector@.len() as usize,
                    })
                }
            },
    {
        let expected_vector_dim = self.vector_storage.vector_dim();
        if expected_vector_dim != vector.len() {
            return Err(OperationError::DimensionMismatch {
                expected: expected_vector_dim,
                received: vector.len(),
            });
        }

        let internal_result = self.query_planner.search(
            &self.vector_storage,
            &self.payload_storage,
            vector,
            filter,
            top,
            params,
        );

        let mut res: Vec<ScoredPoint> = Vec::new();
        let mut i: usize = 0;
        while i < internal_result.len()
            invariant
                self.wf(),
                vector@.len() == self.dim(),
                i <= internal_result@.len(),
                internal_result@.len() <= top,
                crate::query_planner::sorted_desc(internal_result@),
                crate::query_planner::distinct_idx(internal_result@),
                forall|k: int| 0 <= k < internal_result@.len() ==> {
                    &&& self.vector_storage.is_live((#[trigger] internal_result@[k]).idx as int)
                    &&& internal_result@[k].score as int
                        == dot(vector@, self.vector_storage.vector_at(internal_result@[k].idx as int))
                    &&& passes_filter(filter, self.payload_storage.at(internal_result@[k].idx as int))
                },
                res@.len() == i,
                forall|k: int| 0 <= k < i ==> {
                    &&& self.has((#[trigger] res@[k]).idx)
                    &&& self.id_mapper@[res@[k].idx] == internal_result@[k].idx
                    &&& res@[k].score == internal_result@[k].score
                },
                forall|o: int| #[trigger] self.vector_storage.is_live(o)
                    && passes_filter(filter, self.payload_storage.at(o))
                    ==> crate::query_planner::contains_offset(internal_result@, o)
                        || (internal_result@.len() == top
                            && (top == 0
                                || internal_result@[top as int - 1].score as int
                                    >= dot(vector@, self.vector_storage.vector_at(o)))),
            decreases internal_result@.len() - i,
        {
            let item = internal_result[i];
            assert(maps_to_offset(self.id_mapper@, item.idx));
            let external = self.id_mapper.external_id(item.idx);
            let point_id = match external {
                Some(point_id) => point_id,
                None => {
                    proof {
                        assert(false);
                    }
                    0
                }
            };
            res.push(ScoredPoint { idx: point_id, score: item.score });
            i += 1;
        }
        assert forall|k1: int, k2: int| 0 <= k1 < k2 < res@.len()
            implies res@[k1].score >= res@[k2].score && res@[k1].idx != res@[k2].idx by {
            assert(internal_result@[k1].idx != internal_result@[k2].idx);
        }
        proof {
            lemma_links_of_injective(self.id_mapper.links@);
            assert forall|p: PointIdType|
                #[trigger] self.has(p) && passes_filter(filter, self.payload_of(p))
                implies (exists|k: int| 0 <= k < res@.len() && res@[k].idx == p)
                    || (res@.len() == top
                        && (top == 0
                            || res@[top as int - 1].score as int
                                >= dot(vector@, self.vec_of(p)))) by {
                let o = self.id_mapper@[p] as int;
                assert(self.vector_storage.is_live(o));
                if crate::query_planner::contains_offset(internal_result@, o) {
                    let j = choose|j: int|
                        0 <= j < internal_result@.len() && internal_result@[j].idx == o;
                    assert(self.id_mapper@[res@[j].idx] == internal_result@[j].idx);
                    assert(res@[j].idx == p);
                    assert(exists|k: int| 0 <= k < res@.len() && res@[k].idx == p);
                } else if top > 0 {
                    assert(res@[top as int - 1].score
                        == internal_result@[top as int - 1].score);
                }
            }
        }
        Ok(res)
    }

    /// A copy of a stored point's vector; an unknown point is an error.
    pub fn vector(&self, point_id: PointIdType) -> (r: OpResult<Vec<VectorElementType>>)
        requires
            self.wf(),
        ensures
            match r {
                Ok(v) => self.has(point_id) && v@ == self.vec_of(point_id),
                Err(e) => !self.has(point_id)
                    && e == (OperationError::PointNotFound { point_id }),
            },
    {
        let internal_id = match self.lookup_internal_id(point_id) {
            Ok(internal_id) => internal_id,
            Err(e) => {
                return Err(e);
            }
        };
        let stored = self.vector_storage.get_vector(internal_id);
        Ok(stored.unwrap())
    }

    /// A copy of a stored point's payload; an unknown point is an error.
    pub fn payload(&self, point_id: PointIdType) -> (r: OpResult<Payload>)
        requires
            self.wf(),
        ensures
            match r {
                Ok(p) => self.has(point_id) && p.wf() && p@ == self.payload_of(point_id),
                Err(e) => !self.has(point_id)
                    && e == (OperationError::PointNotFound { point_id }),
            },
    {
        let internal_id = match self.lookup_internal_id(point_id) {
            Ok(internal_id) => internal_id,
            Err(e) => {
                return Err(e);
            }
        };
        Ok(self.payload_storage.payload(internal_id))
    }

    /// Whether a point exists.
    pub fn has_point(&self, point_id: PointIdType) -> (r: bool)
        requires
            self.wf(),
        ensures
            r == self.has(point_id),
    {
        self.id_mapper.internal_id(point_id).is_some()
    }

    /// Number of stored points.
    pub fn vectors_count(&self) -> (r: usize)
        requires
            self.wf(),
        ensures
            r == self.point_count(),
    {
        self.vector_storage.vector_count()
    }

    /// The high-water mark of applied operations.
    pub fn version(&self) -> (r: SeqNumberType)
        ensures
            r == self.spec_version(),
    {
        self.version
    }

    /// The capability flag handed in at construction.
    pub fn is_appendable(&self) -> (r: bool)
        ensures
            r == self.appendable_flag,
    {
        self.appendable_flag
    }

    /// Point and tombstone counts; byte-size accounting is not tracked.
    pub fn info(&self) -> (r: SegmentStats)
        requires
            self.wf(),
        ensures
            r.num_vectors == self.point_count(),
            r.num_deleted_vectors == self.deleted_point_count(),
            r.ram_usage_bytes == 0,
            r.disk_usage_bytes == 0,
    {
        SegmentStats {
            num_vectors: self.vectors_count(),
            num_deleted_vectors: self.vector_storage.deleted_count(),
            ram_usage_bytes: 0,
            disk_usage_bytes: 0,
        }
    }
}

} // verus!
