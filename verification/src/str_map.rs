//! A table keyed by text, such as the identifier of an account or of a token.

use vstd::prelude::*;

verus! {

/// A finite map from strings to values, kept as a list of entries.
#[derive(Debug)]
pub struct StrMap<V> {
    entries: Vec<(String, V)>,
}

impl<V> View for StrMap<V> {
    type V = Map<Seq<char>, V>;

    closed spec fn view(&self) -> Map<Seq<char>, V> {
        Map::new(
            |k: Seq<char>| self.holds(k),
            |k: Seq<char>| self.entries[self.index_of(k)].1,
        )
    }
}

impl<V> StrMap<V> {
    /// No key occurs twice among the entries.
    pub closed spec fn wf(&self) -> bool {
        forall|i: int, j: int|
            0 <= i < j < self.entries.len() ==> self.entries[i].0@ != self.entries[j].0@
    }

    spec fn holds(&self, k: Seq<char>) -> bool {
        exists|i: int| 0 <= i < self.entries.len() && self.entries[i].0@ == k
    }

    spec fn index_of(&self, k: Seq<char>) -> int {
        choose|i: int| 0 <= i < self.entries.len() && self.entries[i].0@ == k
    }

    /// The number of entries.
    pub closed spec fn spec_len(&self) -> nat {
        self.entries.len() as nat
    }

    /// The key of the entry at position `i`.
    pub closed spec fn spec_key(&self, i: int) -> Seq<char> {
        self.entries[i].0@
    }

    /// The value of the entry at position `i`.
    pub closed spec fn spec_value(&self, i: int) -> V {
        self.entries[i].1
    }

    /// The positions below `spec_len` list the map: each holds one entry of it,
    /// no two hold the same key, and every key of the map is at one of them.
    pub open spec fn listed(&self) -> bool {
        &&& self@.dom().finite()
        &&& self@.len() == self.spec_len()
        &&& forall|i: int|
            0 <= i < self.spec_len() ==> self@.contains_key(#[trigger] self.spec_key(i))
                && self@[self.spec_key(i)] == self.spec_value(i)
        &&& forall|i: int, j: int|
            0 <= i < j < self.spec_len() ==> self.spec_key(i) != self.spec_key(j)
        &&& forall|k: Seq<char>|
            self@.contains_key(k) ==> exists|i: int|
                0 <= i < self.spec_len() && #[trigger] self.spec_key(i) == k
    }

    proof fn lemma_entry(&self, i: int)
        requires
            self.wf(),
            0 <= i < self.entries.len(),
        ensures
            self@.contains_key(self.entries[i].0@),
            self@[self.entries[i].0@] == self.entries[i].1,
            self.index_of(self.entries[i].0@) == i,
    {
        let k = self.entries[i].0@;
        assert(self.holds(k));
        let j = self.index_of(k);
        assert(0 <= j < self.entries.len() && self.entries[j].0@ == k);
        assert(j == i);
    }

    proof fn lemma_listed(&self)
        requires
            self.wf(),
        ensures
            self.listed(),
    {
        let keys = Seq::new(self.entries.len() as nat, |i: int| self.entries[i].0@);
        assert(keys.no_duplicates());
        keys.unique_seq_to_set();
        assert(self@.dom() =~= keys.to_set()) by {
            assert forall|k: Seq<char>| self@.dom().contains(k) implies keys.to_set().contains(
                k,
            ) by {
                let i = self.index_of(k);
                assert(keys[i] == k);
            }
            assert forall|k: Seq<char>| keys.to_set().contains(k) implies self@.dom().contains(
                k,
            ) by {
                let i = choose|i: int| 0 <= i < keys.len() && keys[i] == k;
                assert(self.entries[i].0@ == k);
            }
        }
        assert forall|i: int| 0 <= i < self.spec_len() implies self@.contains_key(
            #[trigger] self.spec_key(i),
        ) && self@[self.spec_key(i)] == self.spec_value(i) by {
            self.lemma_entry(i);
        }
        assert forall|k: Seq<char>| self@.contains_key(k) implies exists|i: int|
            0 <= i < self.spec_len() && #[trigger] self.spec_key(i) == k by {
            let i = self.index_of(k);
            assert(self.spec_key(i) == k);
        }
    }

    /// An empty map.
    pub fn new() -> (m: Self)
        ensures
            m.wf(),
            m@ == Map::<Seq<char>, V>::empty(),
    {
        let m = StrMap { entries: Vec::new() };
        assert(m@ =~= Map::<Seq<char>, V>::empty());
        m
    }

    /// The number of entries.
    pub fn len(&self) -> (n: usize)
        requires
            self.wf(),
        ensures
            n == self.spec_len(),
            self.listed(),
    {
        proof {
            self.lemma_listed();
        }
        self.entries.len()
    }

    /// Whether the map has no entry.
    pub fn is_empty(&self) -> (b: bool)
        requires
            self.wf(),
        ensures
            b == (self@ == Map::<Seq<char>, V>::empty()),
    {
        proof {
            self.lemma_listed();
            if self.entries.len() == 0 {
                assert(self@ =~= Map::<Seq<char>, V>::empty());
            } else {
                self.lemma_entry(0);
            }
        }
        self.entries.len() == 0
    }

    /// The entry at position `i`.
    pub fn entry(&self, i: usize) -> (e: (&String, &V))
        requires
            self.wf(),
            i < self.spec_len(),
        ensures
            e.0@ == self.spec_key(i as int),
            *e.1 == self.spec_value(i as int),
            self@.contains_key(e.0@),
            self@[e.0@] == *e.1,
    {
        proof {
            self.lemma_entry(i as int);
        }
        let e = &self.entries[i];
        (&e.0, &e.1)
    }

    fn position(&self, k: &String) -> (res: Option<usize>)
        ensures
            match res {
                Some(i) => i < self.entries.len() && self.entries[i as int].0@ == k@,
                None => !self.holds(k@),
            },
    {
        let mut i: usize = 0;
        while i < self.entries.len()
            invariant
                i <= self.entries.len(),
                forall|j: int| 0 <= j < i ==> self.entries[j].0@ != k@,
            decreases self.entries.len() - i,
        {
            if self.entries[i].0 == *k {
                return Some(i);
            }
            i = i + 1;
        }
        None
    }

    /// Whether the map has an entry for `k`.
    pub fn contains_key(&self, k: &String) -> (b: bool)
        ensures
            b == self@.contains_key(k@),
    {
        self.position(k).is_some()
    }

    /// The value stored for `k`.
    pub fn get(&self, k: &String) -> (res: Option<&V>)
        requires
            self.wf(),
        ensures
            match res {
                Some(v) => self@.contains_key(k@) && *v == self@[k@],
                None => !self@.contains_key(k@),
            },
    {
        match self.position(k) {
            Some(i) => {
                proof {
                    self.lemma_entry(i as int);
                }
                Some(&self.entries[i].1)
            },
            None => None,
        }
    }

    /// Takes the entry for `k` out of the map and returns its value.
    pub fn remove(&mut self, k: &String) -> (res: Option<V>)
        requires
            old(self).wf(),
        ensures
            final(self).wf(),
            final(self)@ == old(self)@.remove(k@),
            res == old(self)@.get(k@),
    {
        match self.position(k) {
            Some(i) => {
                proof {
                    self.lemma_entry(i as int);
                }
                let ghost before = *self;
                let taken = self.entries.swap_remove(i);
                proof {
                    let after = *self;
                    assert(after.wf()) by {
                        assert forall|a: int, b: int|
                            0 <= a < b < after.entries.len() implies after.entries[a].0@
                            != after.entries[b].0@ by {
                            let a0 = if a == i {
                                before.entries.len() - 1
                            } else {
                                a
                            };
                            let b0 = if b == i {
                                before.entries.len() - 1
                            } else {
                                b
                            };
                            assert(after.entries[a] == before.entries[a0]);
                            assert(after.entries[b] == before.entries[b0]);
                            assert(a0 != b0);
                        }
                    }
                    assert(after@ =~= before@.remove(k@)) by {
                        assert forall|key: Seq<char>| after@.contains_key(key) implies before@.remove(
                            k@,
                        ).contains_key(key) && after@[key] == before@.remove(k@)[key] by {
                            let a = after.index_of(key);
                            let a0 = if a == i {
                                before.entries.len() - 1
                            } else {
                                a
                            };
                            assert(after.entries[a] == before.entries[a0]);
                            after.lemma_entry(a);
                            before.lemma_entry(a0);
                        }
                        assert forall|key: Seq<char>|
                            before@.remove(k@).contains_key(key) implies after@.contains_key(
                            key,
                        ) by {
                            let b0 = before.index_of(key);
                            before.lemma_entry(b0);
                            let b = if b0 == before.entries.len() - 1 {
                                i as int
                            } else {
                                b0
                            };
                            assert(after.entries[b] == before.entries[b0]);
                            after.lemma_entry(b);
                        }
                    }
                }
                Some(taken.1)
            },
            None => {
                assert(self@ =~= self@.remove(k@));
                None
            },
        }
    }

    /// Stores `v` for `k` and returns the value that was stored before.
    pub fn insert(&mut self, k: String, v: V) -> (res: Option<V>)
        requires
            old(self).wf(),
        ensures
            final(self).wf(),
            final(self)@ == old(self)@.insert(k@, v),
            res == old(self)@.get(k@),
    {
        let previous = self.remove(&k);
        let ghost before = *self;
        self.entries.push((k, v));
        proof {
            let after = *self;
            let n = before.entries.len() as int;
            assert(!before@.contains_key(k@));
            assert(forall|a: int| 0 <= a < n ==> after.entries[a] == before.entries[a]);
            assert(after.wf()) by {
                assert forall|a: int, b: int| 0 <= a < b < after.entries.len() implies after.entries[a].0@
                    != after.entries[b].0@ by {
                    if b == n {
                        before.lemma_entry(a);
                    }
                }
            }
            assert(after@ =~= before@.insert(k@, v)) by {
                after.lemma_entry(n);
                assert forall|key: Seq<char>| after@.contains_key(key) implies before@.insert(
                    k@,
                    v,
                ).contains_key(key) && after@[key] == before@.insert(k@, v)[key] by {
                    let a = after.index_of(key);
                    after.lemma_entry(a);
                    if a < n {
                        before.lemma_entry(a);
                    }
                }
                assert forall|key: Seq<char>|
                    before@.insert(k@, v).contains_key(key) implies after@.contains_key(key) by {
                    if key != k@ {
                        let b = before.index_of(key);
                        before.lemma_entry(b);
                        after.lemma_entry(b);
                    }
                }
            }
            assert(old(self)@.remove(k@).insert(k@, v) =~= old(self)@.insert(k@, v));
        }
        previous
    }
}

impl<V: Clone> Clone for StrMap<V> {
    /// A map with the same keys, each value cloned.
    fn clone(&self) -> (res: Self)
        ensures
            self.wf() ==> res.wf(),
            self.wf() ==> res@.dom() == self@.dom(),
            self.wf() ==> forall|k: Seq<char>| #[trigger]
                res@.contains_key(k) ==> cloned::<V>(self@[k], res@[k]),
    {
        let mut entries: Vec<(String, V)> = Vec::new();
        let mut i: usize = 0;
        while i < self.entries.len()
            invariant
                i <= self.entries.len(),
                entries.len() == i,
                forall|j: int|
                    0 <= j < i ==> (#[trigger] entries[j]).0@ == self.entries[j].0@ && cloned::<V>(
                        self.entries[j].1,
                        entries[j].1,
                    ),
            decreases self.entries.len() - i,
        {
            let e = &self.entries[i];
            entries.push((e.0.clone(), e.1.clone()));
            i = i + 1;
        }
        let res = StrMap { entries };
        proof {
            if self.wf() {
                assert(res.wf());
                assert(res@.dom() =~= self@.dom()) by {
                    assert forall|k: Seq<char>| res@.dom().contains(k) implies self@.dom().contains(
                        k,
                    ) by {
                        let j = res.index_of(k);
                        assert(res.entries[j].0@ == self.entries[j].0@);
                    }
                    assert forall|k: Seq<char>| self@.dom().contains(k) implies res@.dom().contains(
                        k,
                    ) by {
                        let j = self.index_of(k);
                        assert(res.entries[j].0@ == self.entries[j].0@);
                    }
                }
                assert forall|k: Seq<char>| #[trigger] res@.contains_key(k) implies cloned::<V>(
                    self@[k],
                    res@[k],
                ) by {
                    let j = res.index_of(k);
                    assert(res.entries[j].0@ == self.entries[j].0@);
                    res.lemma_entry(j);
                    self.lemma_entry(j);
                }
            }
        }
        res
    }
}

} // verus!
