//! Shared data model: identifier and offset types, payload values,
//! search results, statistics, and the operation error taxonomy.

use vstd::prelude::*;

verus! {

/// Sequence number tagging each mutating operation; the basis for
/// idempotent, order-sensitive replay.
pub type SeqNumberType = u64;

/// Caller-assigned, stable, unique identifier of a logical point.
pub type PointIdType = u64;

/// Dense, storage-assigned index into the vector and payload stores.
/// Reassigned whenever a point's vector is updated; never exposed to callers.
pub type PointOffsetType = usize;

/// One component of a stored or queried vector.
pub type VectorElementType = i32;

/// Similarity score reported for a search hit (a dot product).
pub type ScoreType = i128;

/// Payload attribute key.
pub type PayloadKeyType = String;

/// A typed attribute value attached to a point.
#[derive(Debug, PartialEq, Eq)]
pub enum PayloadType {
    Keyword(String),
    Integer(i64),
}

/// Mathematical value of a [`PayloadType`], used in contracts.
pub enum PayloadValue {
    Keyword(Seq<char>),
    Integer(int),
}

impl View for PayloadType {
    type V = PayloadValue;

    open spec fn view(&self) -> PayloadValue {
        match self {
            PayloadType::Keyword(s) => PayloadValue::Keyword(s@),
            PayloadType::Integer(i) => PayloadValue::Integer(*i as int),
        }
    }
}

impl Clone for PayloadType {
    fn clone(&self) -> (r: Self)
        ensures
            r == *self,
    {
        match self {
            PayloadType::Keyword(s) => PayloadType::Keyword(s.clone()),
            PayloadType::Integer(i) => PayloadType::Integer(*i),
        }
    }
}

/// A search hit as reported to callers: external identifier plus score.
#[derive(Debug, Clone, Copy, PartialEq, Eq, Structural)]
pub struct ScoredPoint {
    pub idx: PointIdType,
    pub score: ScoreType,
}

/// A search hit as produced by the query planner: internal offset plus score.
#[derive(Debug, Clone, Copy, PartialEq, Eq, Structural)]
pub struct ScoredPointOffset {
    pub idx: PointOffsetType,
    pub score: ScoreType,
}

/// Point and tombstone counts reported by a segment.
#[derive(Debug, Clone, Copy, PartialEq, Eq, Structural)]
pub struct SegmentStats {
    pub num_vectors: usize,
    pub num_deleted_vectors: usize,
    pub ram_usage_bytes: usize,
    pub disk_usage_bytes: usize,
}

/// A payload filter applied during search: a hit must carry the given
/// attribute key.
#[derive(Debug)]
pub struct Filter {
    pub must_have_key: PayloadKeyType,
}

/// Planner tuning parameters. The exhaustive scan planner accepts and
/// ignores them.
#[derive(Debug, Clone, Copy, PartialEq, Eq, Structural)]
pub struct SearchParams {
    pub ef: usize,
}

/// Errors surfaced to callers; stale operations are reported as skipped,
/// not as errors.
#[derive(Debug, Clone, Copy, PartialEq, Eq, Structural)]
pub enum OperationError {
    /// A stored or queried vector's length differs from the segment's
    /// fixed dimension.
    DimensionMismatch { expected: usize, received: usize },
    /// The operation requires the point to pre-exist, and it does not.
    PointNotFound { point_id: PointIdType },
}

/// Result of a segment operation.
pub type OpResult<T> = Result<T, OperationError>;

} // verus!
