//! Laws of the version gate. Every mutating segment operation guarantees
//! `final.spec_version() == version_step(old.spec_version(), op_num)`, that
//! a stale operation (`op_num <= version`) returns `Ok(false)` and leaves
//! the state untouched, and that a fresh one raises the version to its
//! number. The lemmas here lift those per-operation guarantees to whole
//! runs of operations.

use vstd::prelude::*;

use crate::segment::version_step;
use crate::types::SeqNumberType;

verus! {

/// The high-water mark left by a run of operations applied in order.
pub open spec fn version_after(v0: SeqNumberType, ops: Seq<SeqNumberType>) -> SeqNumberType
    decreases ops.len(),
{
    if ops.len() == 0 {
        v0
    } else {
        version_step(version_after(v0, ops.drop_last()), ops.last())
    }
}

/// The version never decreases under any operation.
pub proof fn lemma_version_monotonic(v: SeqNumberType, op: SeqNumberType)
    ensures
        v <= version_step(v, op),
{
}

/// Idempotent replay: once an operation's number has raised the version,
/// the same number is stale, so a second application of the operation is
/// skipped and leaves the state untouched.
pub proof fn lemma_replay_is_stale(v: SeqNumberType, op: SeqNumberType)
    ensures
        op <= version_step(v, op),
{
}

/// Out-of-order rejection: after an operation has been applied, every
/// operation with a lower or equal number is stale and so is skipped.
pub proof fn lemma_out_of_order_is_stale(v: SeqNumberType, applied: SeqNumberType, late: SeqNumberType)
    requires
        late <= applied,
    ensures
        late <= version_step(v, applied),
{
}

/// A run of operations in strictly increasing order leaves the version at
/// the larger of the starting version and the last (largest) number seen.
pub proof fn lemma_version_after_increasing_run(v0: SeqNumberType, ops: Seq<SeqNumberType>)
    requires
        ops.len() > 0,
        forall|i: int, j: int| 0 <= i < j < ops.len() ==> ops[i] < ops[j],
    ensures
        version_after(v0, ops) == version_step(v0, ops.last()),
    decreases ops.len(),
{
    let dl = ops.drop_last();
    assert(version_after(v0, ops) == version_step(version_after(v0, dl), ops.last()));
    if ops.len() == 1 {
        assert(dl.len() == 0);
        assert(version_after(v0, dl) == v0);
    } else {
        assert(forall|i: int, j: int| 0 <= i < j < dl.len() ==> dl[i] < dl[j]);
        lemma_version_after_increasing_run(v0, dl);
        assert(dl.last() == ops[ops.len() - 2]);
        assert(dl.last() < ops.last());
    }
}

/// Monotonic version: a run of operations in strictly increasing order,
/// all fresher than the segment's starting version, is applied in full and
/// leaves the version at the maximum (that is, the last) number seen.
pub proof fn lemma_monotonic_version(v0: SeqNumberType, ops: Seq<SeqNumberType>)
    requires
        ops.len() > 0,
        forall|i: int, j: int| 0 <= i < j < ops.len() ==> ops[i] < ops[j],
        v0 < ops[0],
    ensures
        version_after(v0, ops) == ops.last(),
{
    lemma_version_after_increasing_run(v0, ops);
    if ops.len() > 1 {
        assert(ops[0] < ops.last());
    }
}

} // verus!
