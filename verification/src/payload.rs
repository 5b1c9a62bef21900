//! The payload attached to a point: a mapping from attribute keys to typed
//! values, stored as an association list with unique keys and modelled in
//! contracts as a `Map<Seq<char>, PayloadValue>`.

use vstd::prelude::*;
use vstd::pervasive::VecAdditionalExecFns;

use crate::types::PayloadKeyType;
use crate::types::PayloadType;
use crate::types::PayloadValue;

verus! {

/// The mathematical content of an association list: later entries win,
/// though under `keys_unique` the order never matters.
pub open spec fn map_of(s: Seq<(PayloadKeyType, PayloadType)>) -> Map<Seq<char>, PayloadValue>
    decreases s.len(),
{
    if s.len() == 0 {
        Map::empty()
    } else {
        map_of(s.drop_last()).insert(s.last().0@, s.last().1@)
    }
}

/// No two entries carry the same key.
pub open spec fn keys_unique(s: Seq<(PayloadKeyType, PayloadType)>) -> bool {
    forall|i: int, j: int| 0 <= i < j < s.len() ==> s[i].0@ != s[j].0@
}

/// A key is in the map exactly when some entry carries it.
pub proof fn lemma_map_of_contains(s: Seq<(PayloadKeyType, PayloadType)>, k: Seq<char>)
    ensures
        map_of(s).contains_key(k) <==> (exists|i: int| 0 <= i < s.len() && s[i].0@ == k),
    decreases s.len(),
{
    if s.len() > 0 {
        lemma_map_of_contains(s.drop_last(), k);
        if s.last().0@ == k {
            assert(s[s.len() - 1].0@ == k);
        } else if map_of(s).contains_key(k) {
            let i = choose|i: int| 0 <= i < s.drop_last().len() && s.drop_last()[i].0@ == k;
            assert(s[i].0@ == k);
        } else if exists|i: int| 0 <= i < s.len() && s[i].0@ == k {
            let i = choose|i: int| 0 <= i < s.len() && s[i].0@ == k;
            assert(s.drop_last()[i].0@ == k);
        }
    }
}

/// Under unique keys, the entry at index `i` gives the map's value at its key.
pub proof fn lemma_map_of_index(s: Seq<(PayloadKeyType, PayloadType)>, i: int)
    requires
        keys_unique(s),
        0 <= i < s.len(),
    ensures
        map_of(s).contains_key(s[i].0@),
        map_of(s)[s[i].0@] == s[i].1@,
    decreases s.len(),
{
    if i < s.len() - 1 {
        lemma_map_of_index(s.drop_last(), i);
        assert(s.drop_last()[i] == s[i]);
        assert(s[i].0@ != s.last().0@);
    }
}

/// Appending an entry with a fresh key inserts it into the map.
pub proof fn lemma_map_of_push(s: Seq<(PayloadKeyType, PayloadType)>, p: (PayloadKeyType, PayloadType))
    ensures
        map_of(s.push(p)) == map_of(s).insert(p.0@, p.1@),
{
    assert(s.push(p).drop_last() =~= s);
    assert(s.push(p).last() == p);
}

/// Replacing the value at index `i`, keeping its key, overwrites that key
/// in the map.
pub proof fn lemma_map_of_update_value(
    s: Seq<(PayloadKeyType, PayloadType)>,
    i: int,
    p: (PayloadKeyType, PayloadType),
)
    requires
        keys_unique(s),
        0 <= i < s.len(),
        p.0@ == s[i].0@,
    ensures
        map_of(s.update(i, p)) == map_of(s).insert(p.0@, p.1@),
    decreases s.len(),
{
    let u = s.update(i, p);
    if i == s.len() - 1 {
        assert(u.drop_last() =~= s.drop_last());
        assert(u.last() == p);
        assert(map_of(s.drop_last()).insert(s.last().0@, s.last().1@).insert(p.0@, p.1@)
            =~= map_of(s.drop_last()).insert(p.0@, p.1@));
    } else {
        assert(u.drop_last() =~= s.drop_last().update(i, p));
        assert(s.drop_last()[i] == s[i]);
        lemma_map_of_update_value(s.drop_last(), i, p);
        assert(u.last() == s.last());
        assert(p.0@ != s.last().0@);
        assert(map_of(s.drop_last()).insert(p.0@, p.1@).insert(s.last().0@, s.last().1@)
            =~= map_of(s.drop_last()).insert(s.last().0@, s.last().1@).insert(p.0@, p.1@));
    }
}

/// Removing the entry at index `i` removes its key from the map.
pub proof fn lemma_map_of_remove(s: Seq<(PayloadKeyType, PayloadType)>, i: int)
    requires
        keys_unique(s),
        0 <= i < s.len(),
    ensures
        map_of(s.remove(i)) == map_of(s).remove(s[i].0@),
    decreases s.len(),
{
    let r = s.remove(i);
    if i == s.len() - 1 {
        assert(r =~= s.drop_last());
        lemma_map_of_contains(s.drop_last(), s[i].0@);
        assert(forall|j: int| 0 <= j < s.drop_last().len() ==> s.drop_last()[j] == s[j]);
        assert(!map_of(s.drop_last()).contains_key(s[i].0@));
        assert(map_of(s.drop_last()).insert(s.last().0@, s.last().1@).remove(s[i].0@)
            =~= map_of(s.drop_last()));
    } else {
        assert(r.len() == s.len() - 1);
        assert(r.drop_last() =~= s.drop_last().remove(i));
        assert(r.last() == s.last());
        assert(s.drop_last()[i] == s[i]);
        lemma_map_of_remove(s.drop_last(), i);
        assert(s[i].0@ != s.last().0@);
        assert(map_of(s.drop_last()).remove(s[i].0@).insert(s.last().0@, s.last().1@)
            =~= map_of(s.drop_last()).insert(s.last().0@, s.last().1@).remove(s[i].0@));
    }
}

/// Under unique keys, the map has exactly one entry per list element.
pub proof fn lemma_map_of_len(s: Seq<(PayloadKeyType, PayloadType)>)
    requires
        keys_unique(s),
    ensures
        map_of(s).dom().finite(),
        map_of(s).len() == s.len(),
    decreases s.len(),
{
    if s.len() > 0 {
        lemma_map_of_len(s.drop_last());
        lemma_map_of_contains(s.drop_last(), s.last().0@);
        assert(forall|j: int| 0 <= j < s.drop_last().len() ==> s.drop_last()[j] == s[j]);
        assert(!map_of(s.drop_last()).contains_key(s.last().0@));
    }
}

/// A point's payload: attribute keys mapped to typed values.
#[derive(Debug, PartialEq, Eq)]
pub struct Payload {
    pub entries: Vec<(PayloadKeyType, PayloadType)>,
}

impl Payload {
    /// Well-formedness: no duplicate keys.
    pub open spec fn wf(&self) -> bool {
        keys_unique(self.entries@)
    }

    /// The empty payload.
    pub fn new() -> (r: Self)
        ensures
            r.wf(),
            r@ == Map::<Seq<char>, PayloadValue>::empty(),
    {
        Payload { entries: Vec::new() }
    }

    /// Index of the entry carrying `key`, if any.
    fn find(&self, key: &PayloadKeyType) -> (r: Option<usize>)
        ensures
            match r {
                Some(i) => i < self.entries@.len() && self.entries@[i as int].0@ == key@,
                None => forall|i: int| 0 <= i < self.entries@.len() ==> self.entries@[i].0@ != key@,
            },
    {
        let mut i: usize = 0;
        while i < self.entries.len()
            invariant
                i <= self.entries@.len(),
                forall|j: int| 0 <= j < i ==> self.entries@[j].0@ != key@,
            decreases self.entries@.len() - i,
        {
            let p = &self.entries[i];
            if p.0 == *key {
                return Some(i);
            }
            i += 1;
        }
        None
    }

    /// The value stored under `key`, if any.
    pub fn get(&self, key: &PayloadKeyType) -> (r: Option<&PayloadType>)
        requires
            self.wf(),
        ensures
            match r {
                Some(v) => self@.contains_key(key@) && v@ == self@[key@],
                None => !self@.contains_key(key@),
            },
    {
        proof {
            lemma_map_of_contains(self.entries@, key@);
        }
        match self.find(key) {
            Some(i) => {
                proof {
                    lemma_map_of_index(self.entries@, i as int);
                }
                Some(&self.entries[i].1)
            }
            None => None,
        }
    }

    /// Store `value` under `key`, replacing any previous value; other keys
    /// are untouched.
    pub fn insert(&mut self, key: &PayloadKeyType, value: PayloadType)
        requires
            old(self).wf(),
        ensures
            final(self).wf(),
            final(self)@ == old(self)@.insert(key@, value@),
    {
        let k = key.clone();
        match self.find(key) {
            Some(i) => {
                proof {
                    lemma_map_of_update_value(self.entries@, i as int, (k, value));
                }
                self.entries.set(i, (k, value));
                assert(forall|a: int, b: int|
                    0 <= a < b < self.entries@.len()
                        ==> self.entries@[a].0@ == old(self).entries@[a].0@
                        && self.entries@[b].0@ == old(self).entries@[b].0@);
            }
            None => {
                proof {
                    lemma_map_of_push(self.entries@, (k, value));
                }
                self.entries.push((k, value));
                assert(forall|a: int, b: int|
                    0 <= a < b < self.entries@.len() - 1
                        ==> self.entries@[a].0@ == old(self).entries@[a].0@
                        && self.entries@[b].0@ == old(self).entries@[b].0@);
            }
        }
    }

    /// Remove `key` if present; an absent key is not an error.
    pub fn remove(&mut self, key: &PayloadKeyType)
        requires
            old(self).wf(),
        ensures
            final(self).wf(),
            final(self)@ == old(self)@.remove(key@),
    {
        match self.find(key) {
            Some(i) => {
                proof {
                    lemma_map_of_remove(self.entries@, i as int);
                }
                let ghost pre = self.entries@;
                self.entries.remove(i);
                assert(forall|j: int| 0 <= j < self.entries@.len()
                    ==> self.entries@[j] == (if j < i { pre[j] } else { pre[j + 1] }));
            }
            None => {
                proof {
                    lemma_map_of_contains(self.entries@, key@);
                    assert(map_of(self.entries@).remove(key@) =~= map_of(self.entries@));
                }
            }
        }
    }

    /// Number of attributes stored.
    pub fn len(&self) -> (r: usize)
        requires
            self.wf(),
        ensures
            r == self@.len(),
    {
        proof {
            lemma_map_of_len(self.entries@);
        }
        self.entries.len()
    }

    /// Whether no attribute is stored.
    pub fn is_empty(&self) -> (r: bool)
        requires
            self.wf(),
        ensures
            r ==> self@ == Map::<Seq<char>, PayloadValue>::empty(),
            !r ==> self@.len() > 0,
    {
        proof {
            lemma_map_of_len(self.entries@);
        }
        self.entries.len() == 0
    }
}

impl View for Payload {
    type V = Map<Seq<char>, PayloadValue>;

    open spec fn view(&self) -> Map<Seq<char>, PayloadValue> {
        map_of(self.entries@)
    }
}

impl Clone for Payload {
    fn clone(&self) -> (r: Self)
        ensures
            r.entries@ == self.entries@,
            r@ == self@,
            r.wf() == self.wf(),
    {
        let mut out: Vec<(PayloadKeyType, PayloadType)> = Vec::new();
        let mut i: usize = 0;
        while i < self.entries.len()
            invariant
                i <= self.entries@.len(),
                out@.len() == i,
                forall|j: int| 0 <= j < i ==> out@[j] == self.entries@[j],
            decreases self.entries@.len() - i,
        {
            let p = &self.entries[i];
            out.push((p.0.clone(), p.1.clone()));
            i += 1;
        }
        assert(out@ =~= self.entries@);
        Payload { entries: out }
    }
}

} // verus!
