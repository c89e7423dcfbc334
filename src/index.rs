//! The in-memory index: each key maps to the offset of its latest record.

use vstd::prelude::*;
use crate::codec::copy_range;

verus! {

/// Whether two byte sequences are equal.
pub fn bytes_eq(a: &[u8], b: &[u8]) -> (r: bool)
    ensures
        r == (a@ == b@),
{
    if a.len() != b.len() {
        return false;
    }
    let mut i: usize = 0;
    while i < a.len()
        invariant
            a@.len() == b@.len(),
            i <= a@.len(),
            forall|j: int| 0 <= j < i ==> a@[j] == b@[j],
        decreases a@.len() - i,
    {
        if a[i] != b[i] {
            return false;
        }
        i = i + 1;
    }
    assert(a@ =~= b@);
    true
}

/// A map from keys to log offsets, with unique keys.
pub struct Index {
    entries: Vec<(Vec<u8>, u64)>,
    map: Ghost<Map<Seq<u8>, int>>,
}

impl View for Index {
    type V = Map<Seq<u8>, int>;

    closed spec fn view(&self) -> Map<Seq<u8>, int> {
        self.map@
    }
}

impl Index {
    /// The entries agree with the abstract map and hold each key once.
    pub closed spec fn wf(&self) -> bool {
        &&& forall|i: int, j: int|
            0 <= i < j < self.entries@.len() ==> self.entries@[i].0@ != self.entries@[j].0@
        &&& forall|i: int|
            0 <= i < self.entries@.len() ==> #[trigger] self.map@.contains_key(
                self.entries@[i].0@,
            ) && self.map@[self.entries@[i].0@] == self.entries@[i].1 as int
        &&& forall|k: Seq<u8>|
            #[trigger] self.map@.contains_key(k) ==> exists|i: int|
                0 <= i < self.entries@.len() && self.entries@[i].0@ == k
    }

    /// An empty index.
    pub fn new() -> (r: Index)
        ensures
            r.wf(),
            r@ == Map::<Seq<u8>, int>::empty(),
    {
        Index { entries: Vec::new(), map: Ghost(Map::empty()) }
    }

    fn find(&self, key: &[u8]) -> (r: Option<usize>)
        requires
            self.wf(),
        ensures
            match r {
                Some(i) => i < self.entries@.len() && self.entries@[i as int].0@ == key@,
                None => !self@.contains_key(key@),
            },
    {
        let mut i: usize = 0;
        while i < self.entries.len()
            invariant
                self.wf(),
                i <= self.entries@.len(),
                forall|j: int| 0 <= j < i ==> self.entries@[j].0@ != key@,
            decreases self.entries@.len() - i,
        {
            if bytes_eq(self.entries[i].0.as_slice(), key) {
                return Some(i);
            }
            i = i + 1;
        }
        None
    }

    /// The offset stored for `key`, if any.
    pub fn get(&self, key: &[u8]) -> (r: Option<u64>)
        requires
            self.wf(),
        ensures
            match r {
                Some(off) => self@.contains_key(key@) && self@[key@] == off as int,
                None => !self@.contains_key(key@),
            },
    {
        match self.find(key) {
            Some(i) => {
                assert(self.map@.contains_key(self.entries@[i as int].0@));
                Some(self.entries[i].1)
            },
            None => None,
        }
    }

    /// Number of keys in the index.
    pub fn len(&self) -> (r: usize)
        requires
            self.wf(),
        ensures
            r == self@.dom().len(),
    {
        proof {
            self.lemma_len();
        }
        self.entries.len()
    }

    proof fn lemma_len(&self)
        requires
            self.wf(),
        ensures
            self@.dom().len() == self.entries@.len(),
    {
        let keys = Seq::new(self.entries@.len(), |i: int| self.entries@[i].0@);
        assert(keys.no_duplicates());
        keys.unique_seq_to_set();
        assert(keys.to_set() =~= self@.dom()) by {
            assert forall|k: Seq<u8>| self@.dom().contains(k) implies keys.to_set().contains(k) by {
                let i = choose|i: int| 0 <= i < self.entries@.len() && self.entries@[i].0@ == k;
                assert(keys[i] == k);
            }
        }
    }

    /// Maps `key` to `offset`, replacing any earlier offset of that key.
    pub fn set(&mut self, key: &[u8], offset: u64)
        requires
            old(self).wf(),
        ensures
            final(self).wf(),
            final(self)@ == old(self)@.insert(key@, offset as int),
    {
        let ghost m = self.map@.insert(key@, offset as int);
        let ghost old_entries = self.entries@;
        let k = copy_range(key, 0, key.len());
        assert(key@.subrange(0, key@.len() as int) == key@);
        match self.find(key) {
            Some(i) => {
                self.entries.set(i, (k, offset));
                self.map = Ghost(m);
                proof {
                    assert forall|j: int| 0 <= j < self.entries@.len() implies self.entries@[j].0@
                        == old_entries[j].0@ by {}
                    assert forall|j: int| 0 <= j < self.entries@.len() implies #[trigger]
                        self.map@.contains_key(self.entries@[j].0@) && self.map@[self.entries@[j].0@]
                        == self.entries@[j].1 as int by {
                        if j != i {
                            assert(self.entries@[j] == old_entries[j]);
                            assert(old(self).map@.contains_key(old_entries[j].0@));
                            assert(old_entries[j].0@ != old_entries[i as int].0@);
                        }
                    }
                    assert forall|q: Seq<u8>| #[trigger] self.map@.contains_key(q) implies exists|
                        j: int,
                    | 0 <= j < self.entries@.len() && self.entries@[j].0@ == q by {
                        if q == key@ {
                            assert(self.entries@[i as int].0@ == q);
                        } else {
                            assert(old(self).map@.contains_key(q));
                            let j = choose|j: int|
                                0 <= j < old_entries.len() && old_entries[j].0@ == q;
                            assert(self.entries@[j].0@ == q);
                        }
                    }
                }
            },
            None => {
                self.entries.push((k, offset));
                self.map = Ghost(m);
                proof {
                    let n = old_entries.len() as int;
                    assert forall|j: int| 0 <= j < n implies old_entries[j].0@ != key@ by {
                        assert(old(self).map@.contains_key(old_entries[j].0@));
                    }
                    assert forall|j: int| 0 <= j < n implies self.entries@[j] == old_entries[j] by {}
                    assert forall|j: int| 0 <= j < self.entries@.len() implies #[trigger]
                        self.map@.contains_key(self.entries@[j].0@) && self.map@[self.entries@[j].0@]
                        == self.entries@[j].1 as int by {
                        if j < n {
                            assert(old(self).map@.contains_key(old_entries[j].0@));
                        }
                    }
                    assert forall|q: Seq<u8>| #[trigger] self.map@.contains_key(q) implies exists|
                        j: int,
                    | 0 <= j < self.entries@.len() && self.entries@[j].0@ == q by {
                        if q == key@ {
                            assert(self.entries@[n].0@ == q);
                        } else {
                            assert(old(self).map@.contains_key(q));
                            let j = choose|j: int|
                                0 <= j < old_entries.len() && old_entries[j].0@ == q;
                            assert(self.entries@[j].0@ == q);
                        }
                    }
                }
            },
        }
    }
}

} // verus!
