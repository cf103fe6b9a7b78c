//! A map from texts to values.
use vstd::prelude::*;

verus! {

/// A map keyed by text. Its entries stand in no order that callers may rely on.
pub struct Keyed<V> {
    entries: Vec<(String, V)>,
}

impl<V> View for Keyed<V> {
    type V = Map<Seq<char>, V>;

    closed spec fn view(&self) -> Map<Seq<char>, V> {
        Map::new(|key: Seq<char>| self.holds(key), |key: Seq<char>| self.entries@[self.place(key)].1)
    }
}

impl<V> Keyed<V> {
    spec fn at(&self, i: int, key: Seq<char>) -> bool {
        0 <= i < self.entries@.len() && self.entries@[i].0@ == key
    }

    spec fn holds(&self, key: Seq<char>) -> bool {
        exists|i: int| self.at(i, key)
    }

    spec fn place(&self, key: Seq<char>) -> int {
        choose|i: int| self.at(i, key)
    }

    /// No key stands twice.
    #[verifier::type_invariant]
    spec fn distinct(self) -> bool {
        forall|i: int, j: int|
            0 <= i < self.entries@.len() && 0 <= j < self.entries@.len() && (
            #[trigger] self.entries@[i]).0@ == (#[trigger] self.entries@[j]).0@ ==> i == j
    }

    spec fn key_seq(&self) -> Seq<Seq<char>> {
        self.entries@.map_values(|e: (String, V)| e.0@)
    }

    proof fn lemma_at(&self, i: int)
        requires
            self.distinct(),
            0 <= i < self.entries@.len(),
        ensures
            self@.dom().contains(self.entries@[i].0@),
            self@[self.entries@[i].0@] == self.entries@[i].1,
    {
        assert(self.at(i, self.entries@[i].0@));
    }

    proof fn lemma_keys(&self)
        requires
            self.distinct(),
        ensures
            self.key_seq().no_duplicates(),
            self.key_seq().to_set() == self@.dom(),
            self@.dom().finite(),
            self@.dom().len() == self.entries@.len(),
    {
        let keys = self.key_seq();
        assert forall|k: Seq<char>| keys.to_set().contains(k) == self@.dom().contains(k) by {
            if keys.contains(k) {
                let i = choose|i: int| 0 <= i < keys.len() && keys[i] == k;
                assert(self.at(i, k));
            }
            if self.holds(k) {
                let i = self.place(k);
                assert(keys[i] == k);
            }
        }
        assert(keys.to_set() =~= self@.dom());
        keys.unique_seq_to_set();
    }

    pub fn new() -> (r: Self)
        ensures
            r@ == Map::<Seq<char>, V>::empty(),
    {
        let r = Keyed { entries: Vec::new() };
        assert(r@ =~= Map::<Seq<char>, V>::empty());
        r
    }

    fn find(&self, key: &str) -> (r: Option<usize>)
        ensures
            match r {
                Some(i) => self.at(i as int, key@),
                None => !self.holds(key@),
            },
    {
        let mut i: usize = 0;
        while i < self.entries.len()
            invariant
                i <= self.entries@.len(),
                forall|j: int| 0 <= j < i ==> !self.at(j, key@),
            decreases self.entries@.len() - i,
        {
            if crate::text::same_text(self.entries[i].0.as_str(), key) {
                return Some(i);
            }
            i = i + 1;
        }
        None
    }

    pub fn len(&self) -> (r: usize)
        ensures
            r == self@.dom().len(),
            self@.dom().finite(),
    {
        proof {
            use_type_invariant(self);
            self.lemma_keys();
        }
        self.entries.len()
    }

    pub fn contains_key(&self, key: &str) -> (r: bool)
        ensures
            r == self@.dom().contains(key@),
    {
        self.find(key).is_some()
    }

    pub fn get(&self, key: &str) -> (r: Option<&V>)
        ensures
            match r {
                Some(v) => self@.dom().contains(key@) && *v == self@[key@],
                None => !self@.dom().contains(key@),
            },
    {
        proof {
            use_type_invariant(self);
        }
        match self.find(key) {
            Some(i) => {
                proof {
                    self.lemma_at(i as int);
                }
                Some(&self.entries[i].1)
            },
            None => None,
        }
    }

    /// The keys, each once.
    pub fn keys(&self) -> (r: Vec<String>)
        ensures
            crate::text::texts(r@).no_duplicates(),
            crate::text::texts(r@).to_set() == self@.dom(),
            r@.len() == self@.dom().len(),
            self@.dom().finite(),
    {
        proof {
            use_type_invariant(self);
            self.lemma_keys();
        }
        let mut out: Vec<String> = Vec::new();
        let mut i: usize = 0;
        while i < self.entries.len()
            invariant
                i <= self.entries@.len(),
                crate::text::texts(out@) =~= self.key_seq().take(i as int),
            decreases self.entries@.len() - i,
        {
            let ghost before = crate::text::texts(out@);
            out.push(self.entries[i].0.clone());
            assert(crate::text::texts(out@) =~= before.push(self.entries@[i as int].0@));
            assert(self.key_seq().take(i + 1) =~= self.key_seq().take(i as int).push(
                self.key_seq()[i as int],
            ));
            i = i + 1;
        }
        assert(crate::text::texts(out@) =~= self.key_seq());
        out
    }

    /// Takes the entry of `key` out.
    pub fn remove(&mut self, key: &str) -> (r: Option<V>)
        ensures
            final(self)@ == old(self)@.remove(key@),
            match r {
                Some(v) => old(self)@.dom().contains(key@) && v == old(self)@[key@],
                None => !old(self)@.dom().contains(key@),
            },
    {
        proof {
            use_type_invariant(&*self);
        }
        match self.find(key) {
            Some(i) => {
                proof {
                    self.lemma_at(i as int);
                }
                let ghost before = *self;
                let mut entries: Vec<(String, V)> = Vec::new();
                std::mem::swap(&mut entries, &mut self.entries);
                let entry = entries.remove(i);
                assert(forall|j: int|
                    0 <= j < entries@.len() ==> #[trigger] entries@[j] == before.entries@[if j < i {
                        j
                    } else {
                        j + 1
                    }]);
                self.entries = entries;
                assert(self@ =~= before@.remove(key@)) by {
                    assert forall|k: Seq<char>| self.holds(k) == (before.holds(k) && k != key@) by {
                        if self.holds(k) {
                            let j = self.place(k);
                            let at = if j < i {
                                j
                            } else {
                                j + 1
                            };
                            assert(before.at(at, k));
                            assert(before.entries@[i as int].0@ == key@);
                        }
                        if before.holds(k) && k != key@ {
                            let j = before.place(k);
                            let at = if j < i {
                                j
                            } else {
                                j - 1
                            };
                            assert(self.entries@[at] == before.entries@[j]);
                            assert(self.at(at, k));
                        }
                    }
                    assert forall|k: Seq<char>| self.holds(k) implies self@[k] == before@[k] by {
                        let j = self.place(k);
                        let at = if j < i {
                            j
                        } else {
                            j + 1
                        };
                        assert(before.at(at, k));
                        assert(before.entries@[before.place(k)].0@ == before.entries@[at].0@);
                    }
                }
                Some(entry.1)
            },
            None => {
                assert(self@ =~= old(self)@.remove(key@));
                None
            },
        }
    }

    /// Gives `key` the value, in place of an earlier one.
    pub fn insert(&mut self, key: String, value: V)
        ensures
            final(self)@ == old(self)@.insert(key@, value),
    {
        let _ = self.remove(key.as_str());
        assert(self@ == old(self)@.remove(key@));
        proof {
            use_type_invariant(&*self);
        }
        let ghost before = *self;
        assert(!before@.dom().contains(key@));
        assert(!before.holds(key@));
        let mut entries: Vec<(String, V)> = Vec::new();
        std::mem::swap(&mut entries, &mut self.entries);
        entries.push((key, value));
        let ghost n = before.entries@.len() as int;
        assert forall|i: int, j: int|
            0 <= i < entries@.len() && 0 <= j < entries@.len() && (#[trigger] entries@[i]).0@ == (
            #[trigger] entries@[j]).0@ implies i == j by {
            if i < n && j == n {
                assert(before.at(i, key@));
            }
            if j < n && i == n {
                assert(before.at(j, key@));
            }
        }
        self.entries = entries;
        assert(self@ =~= before@.insert(key@, value)) by {
            assert(self.at(n, key@));
            assert forall|k: Seq<char>| self.holds(k) == (before.holds(k) || k == key@) by {
                if self.holds(k) && k != key@ {
                    let j = self.place(k);
                    assert(before.at(j, k));
                }
                if before.holds(k) {
                    let j = before.place(k);
                    assert(self.at(j, k));
                }
            }
            assert forall|k: Seq<char>| self.holds(k) && k != key@ implies self@[k] == before@[k] by {
                let j = self.place(k);
                assert(before.at(j, k));
                assert(before.entries@[before.place(k)].0@ == before.entries@[j].0@);
            }
            assert(self.entries@[self.place(key@)].0@ == self.entries@[n].0@);
        }
        assert(before@.insert(key@, value) =~= old(self)@.insert(key@, value));
    }
}

} // verus!
