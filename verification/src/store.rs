//! The flat key-value store the host exposes to the contract.  Within
//! one invocation the store is exclusively owned and single-threaded,
//! so it is modelled as an in-memory association list with unique keys
//! and a `Map<Seq<u8>, Seq<u8>>` view; the host's atomic end-of-call
//! commit is a property of the surrounding runtime, not re-implemented
//! here.

use vstd::prelude::*;
use crate::types::bytes_eq;
use crate::types::copy_bytes;

verus! {

/// Map denoted by a sequence of key-value pairs, later pairs winning.
pub open spec fn pairs_map(s: Seq<(Vec<u8>, Vec<u8>)>) -> Map<Seq<u8>, Seq<u8>>
    decreases s.len(),
{
    if s.len() == 0 {
        Map::empty()
    } else {
        pairs_map(s.drop_last()).insert(s.last().0@, s.last().1@)
    }
}

/// No two pairs share a key.
pub open spec fn keys_distinct(s: Seq<(Vec<u8>, Vec<u8>)>) -> bool {
    forall|i: int, j: int| 0 <= i < j < s.len() ==> s[i].0@ != s[j].0@
}

proof fn lemma_pairs_map_dom(s: Seq<(Vec<u8>, Vec<u8>)>, k: Seq<u8>)
    ensures
        pairs_map(s).contains_key(k) <==> exists|i: int| 0 <= i < s.len() && s[i].0@ == k,
    decreases s.len(),
{
    if s.len() > 0 {
        lemma_pairs_map_dom(s.drop_last(), k);
        if s.last().0@ == k {
            assert(s[s.len() - 1].0@ == k);
        } else if pairs_map(s).contains_key(k) {
            let i = choose|i: int| 0 <= i < s.drop_last().len() && s.drop_last()[i].0@ == k;
            assert(s[i].0@ == k);
        } else {
            assert(forall|i: int| 0 <= i < s.len() - 1 ==> s.drop_last()[i].0@ == s[i].0@);
        }
    }
}

proof fn lemma_pairs_map_index(s: Seq<(Vec<u8>, Vec<u8>)>, i: int)
    requires
        keys_distinct(s),
        0 <= i < s.len(),
    ensures
        pairs_map(s).contains_key(s[i].0@),
        pairs_map(s)[s[i].0@] == s[i].1@,
    decreases s.len(),
{
    if i == s.len() - 1 {
    } else {
        lemma_pairs_map_index(s.drop_last(), i);
        assert(s.drop_last()[i] == s[i]);
        assert(s.last().0@ != s[i].0@);
    }
}

proof fn lemma_pairs_map_update(s: Seq<(Vec<u8>, Vec<u8>)>, i: int, p: (Vec<u8>, Vec<u8>))
    requires
        keys_distinct(s),
        0 <= i < s.len(),
        p.0@ == s[i].0@,
    ensures
        pairs_map(s.update(i, p)) =~= pairs_map(s).insert(p.0@, p.1@),
    decreases s.len(),
{
    let t = s.update(i, p);
    if i == s.len() - 1 {
        assert(t.drop_last() =~= s.drop_last());
        assert(t.last() == p);
    } else {
        lemma_pairs_map_update(s.drop_last(), i, p);
        assert(t.drop_last() =~= s.drop_last().update(i, p));
        assert(t.last() == s.last());
        assert(s.last().0@ != p.0@);
        assert(pairs_map(t) =~= pairs_map(s.drop_last()).insert(p.0@, p.1@).insert(
            s.last().0@,
            s.last().1@,
        ));
        assert(pairs_map(s.drop_last()).insert(p.0@, p.1@).insert(s.last().0@, s.last().1@)
            =~= pairs_map(s.drop_last()).insert(s.last().0@, s.last().1@).insert(p.0@, p.1@));
    }
}

proof fn lemma_pairs_map_remove(s: Seq<(Vec<u8>, Vec<u8>)>, i: int)
    requires
        keys_distinct(s),
        0 <= i < s.len(),
    ensures
        pairs_map(s.remove(i)) =~= pairs_map(s).remove(s[i].0@),
    decreases s.len(),
{
    let t = s.remove(i);
    if i == s.len() - 1 {
        assert(t =~= s.drop_last());
        lemma_pairs_map_dom(s.drop_last(), s[i].0@);
        assert(forall|j: int| 0 <= j < s.len() - 1 ==> s.drop_last()[j].0@ != s[i].0@);
        assert(!pairs_map(s.drop_last()).contains_key(s[i].0@));
        assert(pairs_map(s).remove(s[i].0@) =~= pairs_map(s.drop_last()));
    } else {
        lemma_pairs_map_remove(s.drop_last(), i);
        assert(t.drop_last() =~= s.drop_last().remove(i));
        assert(t.last() == s.last());
        assert(s.last().0@ != s[i].0@);
        assert(pairs_map(t) =~= pairs_map(s.drop_last()).remove(s[i].0@).insert(
            s.last().0@,
            s.last().1@,
        ));
        assert(pairs_map(s.drop_last()).remove(s[i].0@).insert(s.last().0@, s.last().1@)
            =~= pairs_map(s.drop_last()).insert(s.last().0@, s.last().1@).remove(s[i].0@));
    }
}

/// The contract's durable flat store for one invocation.
pub struct Store {
    pairs: Vec<(Vec<u8>, Vec<u8>)>,
}

impl View for Store {
    type V = Map<Seq<u8>, Seq<u8>>;

    closed spec fn view(&self) -> Map<Seq<u8>, Seq<u8>> {
        pairs_map(self.pairs@)
    }
}

impl Store {
    pub closed spec fn wf(&self) -> bool {
        keys_distinct(self.pairs@)
    }

    pub fn new() -> (r: Store)
        ensures
            r.wf(),
            r@ == Map::<Seq<u8>, Seq<u8>>::empty(),
    {
        Store { pairs: Vec::new() }
    }

    fn find(&self, key: &Vec<u8>) -> (r: Option<usize>)
        ensures
            match r {
                Some(i) => i < self.pairs@.len() && self.pairs@[i as int].0@ == key@,
                None => forall|j: int| 0 <= j < self.pairs@.len() ==> self.pairs@[j].0@ != key@,
            },
    {
        let n = self.pairs.len();
        let mut i: usize = 0;
        while i < n
            invariant
                n == self.pairs@.len(),
                i <= n,
                forall|j: int| 0 <= j < i ==> self.pairs@[j].0@ != key@,
            decreases n - i,
        {
            if bytes_eq(&self.pairs[i].0, key) {
                return Some(i);
            }
            i += 1;
        }
        None
    }

    /// Reads the value stored under a key, if any.
    pub fn read(&self, key: &Vec<u8>) -> (r: Option<Vec<u8>>)
        requires
            self.wf(),
        ensures
            match r {
                Some(v) => self@.contains_key(key@) && v@ == self@[key@],
                None => !self@.contains_key(key@),
            },
    {
        match self.find(key) {
            Some(i) => {
                proof {
                    lemma_pairs_map_index(self.pairs@, i as int);
                }
                Some(copy_bytes(&self.pairs[i].1))
            },
            None => {
                proof {
                    lemma_pairs_map_dom(self.pairs@, key@);
                }
                None
            },
        }
    }

    /// Writes a value under a key, replacing any previous value.
    pub fn write(&mut self, key: Vec<u8>, value: Vec<u8>)
        requires
            old(self).wf(),
        ensures
            final(self).wf(),
            final(self)@ == old(self)@.insert(key@, value@),
    {
        match self.find(&key) {
            Some(i) => {
                let ghost s = self.pairs@;
                let ghost p = (key, value);
                proof {
                    lemma_pairs_map_update(s, i as int, p);
                }
                self.pairs.set(i, (key, value));
                proof {
                    assert(self.pairs@ =~= s.update(i as int, p));
                    assert(keys_distinct(self.pairs@));
                }
            },
            None => {
                let ghost s = self.pairs@;
                self.pairs.push((key, value));
                proof {
                    assert(self.pairs@.drop_last() =~= s);
                    assert(keys_distinct(self.pairs@));
                }
            },
        }
    }

    /// Removes the entry under a key, if present.
    pub fn remove(&mut self, key: &Vec<u8>)
        requires
            old(self).wf(),
        ensures
            final(self).wf(),
            final(self)@ == old(self)@.remove(key@),
    {
        match self.find(key) {
            Some(i) => {
                let ghost s = self.pairs@;
                proof {
                    lemma_pairs_map_remove(s, i as int);
                }
                self.pairs.remove(i);
                proof {
                    assert(self.pairs@ =~= s.remove(i as int));
                    assert(forall|a: int, b: int|
                        0 <= a < b < self.pairs@.len() ==> self.pairs@[a].0@ != self.pairs@[b].0@);
                }
            },
            None => {
                proof {
                    lemma_pairs_map_dom(self.pairs@, key@);
                    assert(!self@.contains_key(key@));
                    assert(self@ =~= self@.remove(key@));
                }
            },
        }
    }
}

} // verus!
