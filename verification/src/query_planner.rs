//! The query planner: an exhaustive scan over the live slots of the vector
//! store, scoring by dot product, honouring the payload filter, and keeping
//! the hits ordered by decreasing score.

use vstd::prelude::*;

use crate::payload_storage::PayloadStorage;
use crate::types::Filter;
use crate::types::PayloadValue;
use crate::types::ScoreType;
use crate::types::ScoredPointOffset;
use crate::types::SearchParams;
use crate::types::VectorElementType;
use crate::vector_storage::VectorStorage;

verus! {

/// Dot product of the first `n` components.
pub open spec fn dot_prefix(a: Seq<VectorElementType>, b: Seq<VectorElementType>, n: int) -> int
    decreases n,
{
    if n <= 0 {
        0
    } else {
        dot_prefix(a, b, n - 1) + a[n - 1] as int * b[n - 1] as int
    }
}

/// Dot product of two vectors of equal length.
pub open spec fn dot(a: Seq<VectorElementType>, b: Seq<VectorElementType>) -> int {
    dot_prefix(a, b, a.len() as int)
}

/// Whether a payload satisfies the (optional) search filter.
pub open spec fn passes_filter(filter: Option<&Filter>, payload: Map<Seq<char>, PayloadValue>) -> bool {
    match filter {
        None => true,
        Some(f) => payload.contains_key(f.must_have_key@),
    }
}

/// Scores never increase along the result list.
pub open spec fn sorted_desc(s: Seq<ScoredPointOffset>) -> bool {
    forall|i: int, j: int| 0 <= i < j < s.len() ==> s[i].score >= s[j].score
}

/// No offset occurs twice in the result list.
pub open spec fn distinct_idx(s: Seq<ScoredPointOffset>) -> bool {
    forall|i: int, j: int| 0 <= i < j < s.len() ==> s[i].idx != s[j].idx
}

/// The hit `e` occurs in the result list.
pub open spec fn contains_elem(s: Seq<ScoredPointOffset>, e: ScoredPointOffset) -> bool {
    exists|k: int| 0 <= k < s.len() && s[k] == e
}

/// Some hit in the result list carries the offset `off`.
pub open spec fn contains_offset(s: Seq<ScoredPointOffset>, off: int) -> bool {
    exists|k: int| 0 <= k < s.len() && s[k].idx == off
}

/// Dot product of two equally long vectors; every intermediate value fits
/// comfortably in the score type.
pub fn dot_product(a: &Vec<VectorElementType>, b: &Vec<VectorElementType>) -> (r: ScoreType)
    requires
        a@.len() == b@.len(),
    ensures
        r as int == dot(a@, b@),
{
    let mut acc: ScoreType = 0;
    let mut i: usize = 0;
    while i < a.len()
        invariant
            a@.len() == b@.len(),
            i <= a@.len(),
            acc as int == dot_prefix(a@, b@, i as int),
            -(i as int) * 0x4000_0000_0000_0000 <= acc as int
                <= (i as int) * 0x4000_0000_0000_0000,
        decreases a@.len() - i,
    {
        proof {
            let x = a@[i as int] as int;
            let y = b@[i as int] as int;
            assert(-0x4000_0000_0000_0000 <= x * y <= 0x4000_0000_0000_0000) by (nonlinear_arith)
                requires
                    -0x8000_0000 <= x <= 0x7fff_ffff,
                    -0x8000_0000 <= y <= 0x7fff_ffff,
            ;
        }
        let p: ScoreType = (a[i] as ScoreType) * (b[i] as ScoreType);
        acc = acc + p;
        i += 1;
    }
    acc
}

/// Place `item` into the ranked list, keep the order by decreasing score,
/// and keep at most `top` entries. Every property `pred` shared by the
/// entries and by `item` is preserved.
fn insert_ranked(
    results: &mut Vec<ScoredPointOffset>,
    item: ScoredPointOffset,
    top: usize,
    Ghost(pred): Ghost<spec_fn(ScoredPointOffset) -> bool>,
)
    requires
        sorted_desc(old(results)@),
        distinct_idx(old(results)@),
        old(results)@.len() <= top,
        forall|k: int| 0 <= k < old(results)@.len() ==> pred(#[trigger] old(results)@[k]),
        forall|k: int| 0 <= k < old(results)@.len() ==> (#[trigger] old(results)@[k]).idx != item.idx,
        pred(item),
    ensures
        sorted_desc(final(results)@),
        distinct_idx(final(results)@),
        final(results)@.len() <= top,
        forall|k: int| 0 <= k < final(results)@.len() ==> pred(#[trigger] final(results)@[k]),
        final(results)@.len() == (if old(results)@.len() < top {
            old(results)@.len() + 1int
        } else {
            top as int
        }),
        old(results)@.len() == top && top > 0
            ==> final(results)@[top as int - 1].score >= old(results)@[top as int - 1].score,
        contains_elem(final(results)@, item)
            || (final(results)@.len() == top
                && (top == 0 || final(results)@[top as int - 1].score >= item.score)),
        forall|e: ScoredPointOffset| #[trigger] contains_elem(old(results)@, e)
            ==> contains_elem(final(results)@, e)
                || (final(results)@.len() == top
                    && (top == 0 || final(results)@[top as int - 1].score >= e.score)),
{
    let mut pos: usize = 0;
    while pos < results.len() && results[pos].score >= item.score
        invariant
            pos <= results@.len(),
            forall|k: int| 0 <= k < pos ==> (#[trigger] results@[k]).score >= item.score,
            *results == *old(results),
        decreases results@.len() - pos,
    {
        pos += 1;
    }
    let ghost pre = results@;
    proof {
        pre.insert_ensures(pos as int, item);
    }
    results.insert(pos, item);
    assert forall|i: int, j: int| 0 <= i < j < results@.len()
        implies results@[i].score >= results@[j].score && results@[i].idx != results@[j].idx by {
        if i < pos && j < pos {
        } else if j == pos {
            assert(results@[i] == pre[i]);
        } else if i == pos {
            assert(results@[j] == pre[j - 1]);
            assert(pos < pre.len() ==> pre[pos as int].score < item.score);
            assert(pre[j - 1].score <= pre[pos as int].score);
        } else if i < pos {
            assert(results@[i] == pre[i] && results@[j] == pre[j - 1]);
        } else {
            assert(results@[i] == pre[i - 1] && results@[j] == pre[j - 1]);
        }
    }
    assert forall|k: int| 0 <= k < results@.len() implies pred(#[trigger] results@[k]) by {
        if k < pos {
            assert(results@[k] == pre[k]);
        } else if k > pos {
            assert(results@[k] == pre[k - 1]);
        }
    }
    let ghost inserted = results@;
    if results.len() > top {
        results.truncate(top);
        assert(results@ =~= inserted.subrange(0, top as int));
    }
    proof {
        let fin = results@;
        let n = pre.len() as int;
        let p = pos as int;
        if n < top {
            assert(fin == inserted);
            assert(fin[p] == item);
            assert(contains_elem(fin, item));
            assert forall|e: ScoredPointOffset| #[trigger] contains_elem(pre, e)
                implies contains_elem(fin, e) by {
                let j = choose|j: int| 0 <= j < pre.len() && pre[j] == e;
                if j < p {
                    assert(fin[j] == e);
                } else {
                    assert(fin[j + 1] == e);
                }
            }
        } else if top > 0 {
            // The list was full: the weakest of the old hits and the new
            // one was dropped, so the cut-off score never falls.
            assert(inserted.len() == top + 1);
            assert(fin.len() == top);
            if p == top {
                assert(fin =~= pre);
                assert(pre[top - 1].score >= item.score);
            } else {
                assert(fin[p] == item);
                assert(contains_elem(fin, item));
                if p == top - 1 {
                    assert(pre[p].score < item.score);
                } else {
                    assert(fin[top - 1] == pre[top - 2]);
                    assert(pre[top - 2].score >= pre[top - 1].score);
                }
            }
            assert forall|e: ScoredPointOffset| #[trigger] contains_elem(pre, e)
                implies contains_elem(fin, e)
                    || fin[top - 1].score >= e.score by {
                let j = choose|j: int| 0 <= j < pre.len() && pre[j] == e;
                let q: int = if j < p { j } else { j + 1 };
                assert(inserted[q] == e);
                if q < top {
                    assert(fin[q] == e);
                } else {
                    assert(inserted[top as int - 1].score >= inserted[top as int].score);
                }
            }
        }
    }
}

/// The exhaustive scan planner. Tuning parameters are accepted for
/// interface compatibility and ignored.
#[derive(Debug)]
pub struct ScanPlanner {}

impl ScanPlanner {
    /// A planner.
    pub fn new() -> Self {
        ScanPlanner {}
    }

    /// Up to `top` live offsets, ordered by decreasing dot-product score
    /// against `query`, each satisfying the filter.
    pub fn search(
        &self,
        vectors: &VectorStorage,
        payloads: &PayloadStorage,
        query: &Vec<VectorElementType>,
        filter: Option<&Filter>,
        top: usize,
        _params: Option<&SearchParams>,
    ) -> (r: Vec<ScoredPointOffset>)
        requires
            vectors.wf(),
            payloads.wf(),
            query@.len() == vectors.dim,
        ensures
            r@.len() <= top,
            sorted_desc(r@),
            distinct_idx(r@),
            forall|k: int| 0 <= k < r@.len() ==> {
                &&& vectors.is_live((#[trigger] r@[k]).idx as int)
                &&& r@[k].score as int == dot(query@, vectors.vector_at(r@[k].idx as int))
                &&& passes_filter(filter, payloads.at(r@[k].idx as int))
            },
            forall|o: int| #[trigger] vectors.is_live(o) && passes_filter(filter, payloads.at(o))
                ==> contains_offset(r@, o)
                    || (r@.len() == top
                        && (top == 0
                            || r@[top as int - 1].score as int
                                >= dot(query@, vectors.vector_at(o)))),
    {
        let mut results: Vec<ScoredPointOffset> = Vec::new();
        let mut off: usize = 0;
        while off < vectors.slots.len()
            invariant
                vectors.wf(),
                payloads.wf(),
                query@.len() == vectors.dim,
                off <= vectors.slots@.len(),
                results@.len() <= top,
                sorted_desc(results@),
                distinct_idx(results@),
                forall|k: int| 0 <= k < results@.len() ==> {
                    &&& vectors.is_live((#[trigger] results@[k]).idx as int)
                    &&& results@[k].idx < off
                    &&& results@[k].score as int
                        == dot(query@, vectors.vector_at(results@[k].idx as int))
                    &&& passes_filter(filter, payloads.at(results@[k].idx as int))
                },
                forall|o: int| 0 <= o < off
                    && #[trigger] vectors.is_live(o) && passes_filter(filter, payloads.at(o))
                    ==> contains_offset(results@, o)
                        || (results@.len() == top
                            && (top == 0
                                || results@[top as int - 1].score as int
                                    >= dot(query@, vectors.vector_at(o)))),
            decreases vectors.slots@.len() - off,
        {
            match &vectors.slots[off] {
                Some(v) => {
                    let pass = match filter {
                        None => true,
                        Some(f) => {
                            let p = payloads.payload(off);
                            match p.get(&f.must_have_key) {
                                Some(_) => true,
                                None => false,
                            }
                        }
                    };
                    if pass {
                        assert(vectors.is_live(off as int));
                        assert(v@.len() == vectors.dim);
                        let score = dot_product(query, v);
                        let item = ScoredPointOffset { idx: off, score };
                        let ghost pred = |e: ScoredPointOffset|
                            {
                                &&& vectors.is_live(e.idx as int)
                                &&& e.idx < off + 1
                                &&& e.score as int == dot(query@, vectors.vector_at(e.idx as int))
                                &&& passes_filter(filter, payloads.at(e.idx as int))
                            };
                        let ghost before_ins = results@;
                        insert_ranked(&mut results, item, top, Ghost(pred));
                        assert forall|o: int| 0 <= o < off + 1
                            && #[trigger] vectors.is_live(o)
                            && passes_filter(filter, payloads.at(o))
                            implies contains_offset(results@, o)
                                || (results@.len() == top
                                    && (top == 0
                                        || results@[top as int - 1].score as int
                                            >= dot(query@, vectors.vector_at(o)))) by {
                            let fin = results@;
                            if o == off {
                                if contains_elem(fin, item) {
                                    let k = choose|k: int| 0 <= k < fin.len() && fin[k] == item;
                                    assert(fin[k].idx == o);
                                }
                            } else if contains_offset(before_ins, o) {
                                let k = choose|k: int|
                                    0 <= k < before_ins.len() && before_ins[k].idx == o;
                                let e = before_ins[k];
                                assert(contains_elem(before_ins, e));
                                assert(e.score as int == dot(query@, vectors.vector_at(o)));
                                if contains_elem(fin, e) {
                                    let k2 = choose|k2: int| 0 <= k2 < fin.len() && fin[k2] == e;
                                    assert(fin[k2].idx == o);
                                }
                            }
                        }
                    }
                }
                None => {}
            }
            off += 1;
        }
        results
    }
}

} // verus!
