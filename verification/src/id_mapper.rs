//! The identifier index: resolves external point identifiers to internal
//! storage offsets and back. Modelled in contracts as a
//! `Map<PointIdType, PointOffsetType>` that is injective in both directions.

use vstd::prelude::*;
use vstd::pervasive::VecAdditionalExecFns;

use crate::types::PointIdType;
use crate::types::PointOffsetType;

verus! {

/// The mathematical content of the link list: later entries win, though
/// under `links_unique` the order never matters.
pub open spec fn links_of(s: Seq<(PointIdType, PointOffsetType)>) -> Map<PointIdType, PointOffsetType>
    decreases s.len(),
{
    if s.len() == 0 {
        Map::empty()
    } else {
        links_of(s.drop_last()).insert(s.last().0, s.last().1)
    }
}

/// No two entries share an external identifier, and no two entries share
/// an internal offset.
pub open spec fn links_unique(s: Seq<(PointIdType, PointOffsetType)>) -> bool {
    forall|i: int, j: int| 0 <= i < j < s.len() ==> s[i].0 != s[j].0 && s[i].1 != s[j].1
}

/// Some external identifier is linked to `offset`.
pub open spec fn maps_to_offset(m: Map<PointIdType, PointOffsetType>, offset: PointOffsetType) -> bool {
    exists|p: PointIdType| #[trigger] m.contains_key(p) && m[p] == offset
}

/// An identifier is in the map exactly when some entry links it.
pub proof fn lemma_links_of_contains(s: Seq<(PointIdType, PointOffsetType)>, k: PointIdType)
    ensures
        links_of(s).contains_key(k) <==> (exists|i: int| 0 <= i < s.len() && s[i].0 == k),
    decreases s.len(),
{
    if s.len() > 0 {
        lemma_links_of_contains(s.drop_last(), k);
        if s.last().0 == k {
            assert(s[s.len() - 1].0 == k);
        } else if links_of(s).contains_key(k) {
            let i = choose|i: int| 0 <= i < s.drop_last().len() && s.drop_last()[i].0 == k;
            assert(s[i].0 == k);
        } else if exists|i: int| 0 <= i < s.len() && s[i].0 == k {
            let i = choose|i: int| 0 <= i < s.len() && s[i].0 == k;
            assert(s.drop_last()[i].0 == k);
        }
    }
}

/// Under unique identifiers, the entry at index `i` gives the map's value.
pub proof fn lemma_links_of_index(s: Seq<(PointIdType, PointOffsetType)>, i: int)
    requires
        links_unique(s),
        0 <= i < s.len(),
    ensures
        links_of(s).contains_key(s[i].0),
        links_of(s)[s[i].0] == s[i].1,
    decreases s.len(),
{
    if i < s.len() - 1 {
        lemma_links_of_index(s.drop_last(), i);
        assert(s.drop_last()[i] == s[i]);
        assert(s[i].0 != s.last().0);
    }
}

/// Every value of the map is carried by some entry.
pub proof fn lemma_links_of_values(s: Seq<(PointIdType, PointOffsetType)>, offset: PointOffsetType)
    ensures
        maps_to_offset(links_of(s), offset) ==> (exists|i: int| 0 <= i < s.len() && s[i].1 == offset),
    decreases s.len(),
{
    if s.len() > 0 {
        lemma_links_of_values(s.drop_last(), offset);
        if maps_to_offset(links_of(s), offset) {
            let p = choose|p: PointIdType| #[trigger] links_of(s).contains_key(p) && links_of(s)[p] == offset;
            if p == s.last().0 {
                assert(s[s.len() - 1].1 == offset);
            } else {
                assert(links_of(s.drop_last()).contains_key(p)
                    && links_of(s.drop_last())[p] == offset);
                let i = choose|i: int| 0 <= i < s.drop_last().len() && s.drop_last()[i].1 == offset;
                assert(s[i].1 == offset);
            }
        }
    }
}

/// Under unique links, the map is injective: distinct identifiers are
/// linked to distinct offsets.
pub proof fn lemma_links_of_injective(s: Seq<(PointIdType, PointOffsetType)>)
    requires
        links_unique(s),
    ensures
        forall|p1: PointIdType, p2: PointIdType|
            #![trigger links_of(s)[p1], links_of(s)[p2]]
            links_of(s).contains_key(p1) && links_of(s).contains_key(p2) && p1 != p2
                ==> links_of(s)[p1] != links_of(s)[p2],
{
    assert forall|p1: PointIdType, p2: PointIdType|
        #![trigger links_of(s)[p1], links_of(s)[p2]]
        links_of(s).contains_key(p1) && links_of(s).contains_key(p2) && p1 != p2
        implies links_of(s)[p1] != links_of(s)[p2] by {
        lemma_links_of_contains(s, p1);
        lemma_links_of_contains(s, p2);
        let i1 = choose|i: int| 0 <= i < s.len() && s[i].0 == p1;
        let i2 = choose|i: int| 0 <= i < s.len() && s[i].0 == p2;
        lemma_links_of_index(s, i1);
        lemma_links_of_index(s, i2);
    }
}

/// Appending a fresh link inserts it into the map.
pub proof fn lemma_links_of_push(s: Seq<(PointIdType, PointOffsetType)>, p: (PointIdType, PointOffsetType))
    ensures
        links_of(s.push(p)) == links_of(s).insert(p.0, p.1),
{
    assert(s.push(p).drop_last() =~= s);
    assert(s.push(p).last() == p);
}

/// Relinking the identifier at index `i` overwrites it in the map.
pub proof fn lemma_links_of_update_value(
    s: Seq<(PointIdType, PointOffsetType)>,
    i: int,
    p: (PointIdType, PointOffsetType),
)
    requires
        links_unique(s),
        0 <= i < s.len(),
        p.0 == s[i].0,
    ensures
        links_of(s.update(i, p)) == links_of(s).insert(p.0, p.1),
    decreases s.len(),
{
    let u = s.update(i, p);
    if i == s.len() - 1 {
        assert(u.drop_last() =~= s.drop_last());
        assert(u.last() == p);
        assert(links_of(s.drop_last()).insert(s.last().0, s.last().1).insert(p.0, p.1)
            =~= links_of(s.drop_last()).insert(p.0, p.1));
    } else {
        assert(u.drop_last() =~= s.drop_last().update(i, p));
        assert(s.drop_last()[i] == s[i]);
        lemma_links_of_update_value(s.drop_last(), i, p);
        assert(u.last() == s.last());
        assert(p.0 != s.last().0);
        assert(links_of(s.drop_last()).insert(p.0, p.1).insert(s.last().0, s.last().1)
            =~= links_of(s.drop_last()).insert(s.last().0, s.last().1).insert(p.0, p.1));
    }
}

/// Removing the entry at index `i` removes its identifier from the map.
pub proof fn lemma_links_of_remove(s: Seq<(PointIdType, PointOffsetType)>, i: int)
    requires
        links_unique(s),
        0 <= i < s.len(),
    ensures
        links_of(s.remove(i)) == links_of(s).remove(s[i].0),
    decreases s.len(),
{
    let r = s.remove(i);
    if i == s.len() - 1 {
        assert(r =~= s.drop_last());
        lemma_links_of_contains(s.drop_last(), s[i].0);
        assert(forall|j: int| 0 <= j < s.drop_last().len() ==> s.drop_last()[j] == s[j]);
        assert(!links_of(s.drop_last()).contains_key(s[i].0));
        assert(links_of(s.drop_last()).insert(s.last().0, s.last().1).remove(s[i].0)
            =~= links_of(s.drop_last()));
    } else {
        assert(r.len() == s.len() - 1);
        assert(r.drop_last() =~= s.drop_last().remove(i));
        assert(r.last() == s.last());
        assert(s.drop_last()[i] == s[i]);
        lemma_links_of_remove(s.drop_last(), i);
        assert(s[i].0 != s.last().0);
        assert(links_of(s.drop_last()).remove(s[i].0).insert(s.last().0, s.last().1)
            =~= links_of(s.drop_last()).insert(s.last().0, s.last().1).remove(s[i].0));
    }
}

/// The identifier index.
#[derive(Debug)]
pub struct IdMapper {
    pub links: Vec<(PointIdType, PointOffsetType)>,
}

impl IdMapper {
    /// Well-formedness: at most one offset per identifier and at most one
    /// identifier per offset.
    pub open spec fn wf(&self) -> bool {
        links_unique(self.links@)
    }

    /// An index with no links.
    pub fn new() -> (r: Self)
        ensures
            r.wf(),
            r@ == Map::<PointIdType, PointOffsetType>::empty(),
    {
        IdMapper { links: Vec::new() }
    }

    /// Index of the entry linking `point_id`, if any.
    fn find_id(&self, point_id: PointIdType) -> (r: Option<usize>)
        ensures
            match r {
                Some(i) => i < self.links@.len() && self.links@[i as int].0 == point_id,
                None => forall|i: int| 0 <= i < self.links@.len() ==> self.links@[i].0 != point_id,
            },
    {
        let mut i: usize = 0;
        while i < self.links.len()
            invariant
                i <= self.links@.len(),
                forall|j: int| 0 <= j < i ==> self.links@[j].0 != point_id,
            decreases self.links@.len() - i,
        {
            let p = &self.links[i];
            if p.0 == point_id {
                return Some(i);
            }
            i += 1;
        }
        None
    }

    /// The internal offset of `point_id`, if the point exists.
    pub fn internal_id(&self, point_id: PointIdType) -> (r: Option<PointOffsetType>)
        requires
            self.wf(),
        ensures
            r == (if self@.contains_key(point_id) {
                Some(self@[point_id])
            } else {
                None::<PointOffsetType>
            }),
    {
        proof {
            lemma_links_of_contains(self.links@, point_id);
        }
        match self.find_id(point_id) {
            Some(i) => {
                proof {
                    lemma_links_of_index(self.links@, i as int);
                }
                Some(self.links[i].1)
            }
            None => None,
        }
    }

    /// The external identifier linked to `offset`, if any.
    pub fn external_id(&self, offset: PointOffsetType) -> (r: Option<PointIdType>)
        requires
            self.wf(),
        ensures
            match r {
                Some(p) => self@.contains_key(p) && self@[p] == offset,
                None => !maps_to_offset(self@, offset),
            },
    {
        let mut i: usize = 0;
        while i < self.links.len()
            invariant
                self.wf(),
                i <= self.links@.len(),
                forall|j: int| 0 <= j < i ==> self.links@[j].1 != offset,
            decreases self.links@.len() - i,
        {
            let p = &self.links[i];
            if p.1 == offset {
                proof {
                    lemma_links_of_index(self.links@, i as int);
                }
                return Some(p.0);
            }
            i += 1;
        }
        proof {
            lemma_links_of_values(self.links@, offset);
        }
        None
    }

    /// Link `point_id` to `offset`, replacing any previous link of
    /// `point_id`. The offset must not be linked to another identifier.
    pub fn set_link(&mut self, point_id: PointIdType, offset: PointOffsetType)
        requires
            old(self).wf(),
            forall|p: PointIdType|
                #[trigger] old(self)@.contains_key(p) && old(self)@[p] == offset ==> p == point_id,
        ensures
            final(self).wf(),
            final(self)@ == old(self)@.insert(point_id, offset),
    {
        proof {
            assert forall|j: int|
                0 <= j < self.links@.len() && #[trigger] self.links@[j].1 == offset
                implies self.links@[j].0 == point_id by {
                lemma_links_of_index(self.links@, j);
                assert(old(self)@.contains_key(self.links@[j].0)
                    && old(self)@[self.links@[j].0] == offset);
            }
        }
        match self.find_id(point_id) {
            Some(i) => {
                proof {
                    lemma_links_of_update_value(self.links@, i as int, (point_id, offset));
                }
                let ghost pre = self.links@;
                self.links.set(i, (point_id, offset));
                assert forall|a: int, b: int| 0 <= a < b < self.links@.len()
                    implies self.links@[a].0 != self.links@[b].0
                        && self.links@[a].1 != self.links@[b].1 by {
                    assert(pre[a].0 != pre[b].0 && pre[a].1 != pre[b].1);
                }
            }
            None => {
                proof {
                    lemma_links_of_push(self.links@, (point_id, offset));
                }
                let ghost pre = self.links@;
                self.links.push((point_id, offset));
                assert forall|a: int, b: int| 0 <= a < b < self.links@.len()
                    implies self.links@[a].0 != self.links@[b].0
                        && self.links@[a].1 != self.links@[b].1 by {
                    if b < pre.len() {
                        assert(pre[a].0 != pre[b].0 && pre[a].1 != pre[b].1);
                    }
                }
            }
        }
    }

    /// Remove the link of `point_id`, if any.
    pub fn drop_link(&mut self, point_id: PointIdType)
        requires
            old(self).wf(),
        ensures
            final(self).wf(),
            final(self)@ == old(self)@.remove(point_id),
    {
        match self.find_id(point_id) {
            Some(i) => {
                proof {
                    lemma_links_of_remove(self.links@, i as int);
                }
                let ghost pre = self.links@;
                self.links.remove(i);
                assert(forall|j: int| 0 <= j < self.links@.len()
                    ==> self.links@[j] == (if j < i { pre[j] } else { pre[j + 1] }));
            }
            None => {
                proof {
                    lemma_links_of_contains(self.links@, point_id);
                    assert(links_of(self.links@).remove(point_id) =~= links_of(self.links@));
                }
            }
        }
    }
}

impl View for IdMapper {
    type V = Map<PointIdType, PointOffsetType>;

    open spec fn view(&self) -> Map<PointIdType, PointOffsetType> {
        links_of(self.links@)
    }
}

} // verus!
