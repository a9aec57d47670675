//! A table from symbol name to value, with each name held once.
use vstd::prelude::*;
use crate::text::{chars_of, starts_with};

verus! {

/// Symbol name to value; each name is held once.
pub struct Table<T> {
    entries: Vec<(String, T)>,
}

impl<T> Table<T> {
    /// No name is held twice.
    pub closed spec fn wf(&self) -> bool {
        forall|i: int, j: int|
            0 <= i < j < self.entries@.len() ==> self.entries@[i].0@ != self.entries@[j].0@
    }

    closed spec fn has(&self, k: Seq<char>) -> bool {
        exists|i: int| 0 <= i < self.entries@.len() && self.entries@[i].0@ == k
    }

    closed spec fn index_of(&self, k: Seq<char>) -> int {
        choose|i: int| 0 <= i < self.entries@.len() && self.entries@[i].0@ == k
    }

    /// Name to value.
    pub closed spec fn view(&self) -> Map<Seq<char>, T> {
        Map::new(|k: Seq<char>| self.has(k), |k: Seq<char>| self.entries@[self.index_of(k)].1)
    }

    /// How many names the table holds.
    pub closed spec fn size(&self) -> nat {
        self.entries@.len()
    }

    /// An empty table.
    pub fn new() -> (r: Table<T>)
        ensures
            r.wf(),
            r@ == Map::<Seq<char>, T>::empty(),
    {
        let r = Table { entries: Vec::new() };
        assert(r@ =~= Map::<Seq<char>, T>::empty());
        r
    }

    /// How many names the table holds.
    pub fn len(&self) -> (r: usize)
        ensures
            r == self.size(),
    {
        self.entries.len()
    }

    fn find(&self, key: &[char]) -> (r: Option<usize>)
        ensures
            r matches Some(i) ==> i < self.entries@.len() && self.entries@[i as int].0@ == key@,
            r is None ==> !self.has(key@),
    {
        let mut i: usize = 0;
        while i < self.entries.len()
            invariant
                i <= self.entries@.len(),
                forall|j: int| 0 <= j < i ==> self.entries@[j].0@ != key@,
            decreases self.entries@.len() - i,
        {
            let k = chars_of(self.entries[i].0.as_str());
            if k.len() == key.len() && starts_with(k.as_slice(), key) {
                assert(k@ =~= k@.take(key@.len() as int));
                return Some(i);
            }
            assert(k@.len() == key@.len() ==> k@ =~= k@.take(key@.len() as int));
            i += 1;
        }
        None
    }

    proof fn lemma_index_of(&self, i: int)
        requires
            self.wf(),
            0 <= i < self.entries@.len(),
        ensures
            self.has(self.entries@[i].0@),
            self.index_of(self.entries@[i].0@) == i,
    {
        let k = self.entries@[i].0@;
        assert(self.has(k));
        let j = self.index_of(k);
        if j < i {
            assert(self.entries@[j].0@ != self.entries@[i].0@);
        } else if j > i {
            assert(self.entries@[i].0@ != self.entries@[j].0@);
        }
    }

    /// The value held under `key`.
    pub fn get(&self, key: &[char]) -> (r: Option<&T>)
        requires
            self.wf(),
        ensures
            r matches Some(v) ==> self@.contains_key(key@) && self@[key@] == *v,
            r is None ==> !self@.contains_key(key@),
    {
        match self.find(key) {
            Some(i) => {
                proof {
                    self.lemma_index_of(i as int);
                }
                Some(&self.entries[i].1)
            },
            None => None,
        }
    }

    /// Holds `value` under `key`, in place of any value held there before.
    pub fn insert(&mut self, key: String, value: T)
        requires
            old(self).wf(),
        ensures
            final(self).wf(),
            final(self)@ == old(self)@.insert(key@, value),
    {
        let c = chars_of(key.as_str());
        let ghost m0 = self@;
        let ghost k0 = key@;
        let ghost old_entries = self.entries@;
        let ghost v0 = value;
        match self.find(c.as_slice()) {
            Some(i) => {
                proof {
                    self.lemma_index_of(i as int);
                }
                self.entries.set(i, (key, value));
                proof {
                    let m1 = m0.insert(k0, v0);
                    assert forall|a: int, b: int|
                        0 <= a < b < self.entries@.len() implies self.entries@[a].0@
                        != self.entries@[b].0@ by {
                        assert(old_entries[a].0@ != old_entries[b].0@);
                    }
                    assert forall|k2: Seq<char>| #[trigger] m1.contains_key(k2) implies self.has(
                        k2,
                    ) by {
                        if k2 != k0 {
                            let j = choose|j: int|
                                0 <= j < old_entries.len() && old_entries[j].0@ == k2;
                            assert(self.entries@[j].0@ == k2);
                        } else {
                            assert(self.entries@[i as int].0@ == k2);
                        }
                    }
                    assert forall|k2: Seq<char>| #[trigger]
                        self.has(k2) implies m1.contains_key(k2) && self@[k2] == m1[k2] by {
                        let j = self.index_of(k2);
                        self.lemma_index_of(j);
                        if j != i {
                            assert(old_entries[j].0@ == k2);
                            let jo = choose|x: int|
                                0 <= x < old_entries.len() && old_entries[x].0@ == k2;
                            if jo != j {
                                if jo < j {
                                    assert(old_entries[jo].0@ != old_entries[j].0@);
                                } else {
                                    assert(old_entries[j].0@ != old_entries[jo].0@);
                                }
                            }
                        }
                    }
                    assert(self@ =~= m1);
                }
            },
            None => {
                self.entries.push((key, value));
                proof {
                    let m1 = m0.insert(k0, v0);
                    let n = old_entries.len() as int;
                    assert forall|a: int, b: int|
                        0 <= a < b < self.entries@.len() implies self.entries@[a].0@
                        != self.entries@[b].0@ by {
                        if b == n {
                            assert(old_entries[a].0@ != k0);
                        } else {
                            assert(old_entries[a].0@ != old_entries[b].0@);
                        }
                    }
                    assert forall|k2: Seq<char>| #[trigger] m1.contains_key(k2) implies self.has(
                        k2,
                    ) by {
                        if k2 != k0 {
                            let j = choose|j: int|
                                0 <= j < old_entries.len() && old_entries[j].0@ == k2;
                            assert(self.entries@[j].0@ == k2);
                        } else {
                            assert(self.entries@[n].0@ == k2);
                        }
                    }
                    assert forall|k2: Seq<char>| #[trigger]
                        self.has(k2) implies m1.contains_key(k2) && self@[k2] == m1[k2] by {
                        let j = self.index_of(k2);
                        self.lemma_index_of(j);
                        if j != n {
                            assert(old_entries[j].0@ == k2);
                            let jo = choose|x: int|
                                0 <= x < old_entries.len() && old_entries[x].0@ == k2;
                            if jo != j {
                                if jo < j {
                                    assert(old_entries[jo].0@ != old_entries[j].0@);
                                } else {
                                    assert(old_entries[j].0@ != old_entries[jo].0@);
                                }
                            }
                        }
                    }
                    assert(self@ =~= m1);
                }
            },
        }
    }
}

} // verus!
