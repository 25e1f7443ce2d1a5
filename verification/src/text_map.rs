//! Maps from text keys, kept as lists of pairs.
use vstd::prelude::*;
use crate::assoc::{
    pairs_map, unique_keys, lemma_pairs_map_absent, lemma_pairs_map_at, lemma_pairs_map_push,
    lemma_pairs_map_remove, lemma_pairs_map_update, lemma_pairs_map_dom, lemma_unique_pairs_len,
};
use crate::types::eval::text_eq;

verus! {

/// The pairs of a list with each key taken by its characters.
pub open spec fn keyed<V>(s: Seq<(String, V)>) -> Seq<(Seq<char>, V)> {
    s.map_values(|p: (String, V)| (p.0@, p.1))
}

/// Values by text key; a key holds one value.
pub struct TextMap<V> {
    entries: Vec<(String, V)>,
}

impl<V> View for TextMap<V> {
    type V = Map<Seq<char>, V>;

    closed spec fn view(&self) -> Map<Seq<char>, V> {
        pairs_map(keyed(self.entries@))
    }
}

impl<V> TextMap<V> {
    #[verifier::type_invariant]
    closed spec fn wf(self) -> bool {
        unique_keys(keyed(self.entries@))
    }

    /// An empty map.
    pub fn new() -> (r: TextMap<V>)
        ensures
            r@ == Map::<Seq<char>, V>::empty(),
    {
        let r = TextMap { entries: Vec::new() };
        assert(pairs_map(keyed(r.entries@)) =~= Map::<Seq<char>, V>::empty());
        r
    }

    fn find(&self, key: &str) -> (r: Option<usize>)
        ensures
            match r {
                Some(i) => i < self.entries@.len() && keyed(self.entries@)[i as int].0 == key@,
                None => forall|x: int| 0 <= x < self.entries@.len() ==> keyed(self.entries@)[x].0 != key@,
            },
    {
        let mut i: usize = 0;
        while i < self.entries.len()
            invariant
                i <= self.entries@.len(),
                forall|x: int| 0 <= x < i ==> keyed(self.entries@)[x].0 != key@,
            decreases self.entries.len() - i,
        {
            if text_eq(self.entries[i].0.as_str(), key) {
                return Some(i);
            }
            i = i + 1;
        }
        None
    }

    /// Whether `key` holds a value.
    pub fn contains_key(&self, key: &str) -> (r: bool)
        ensures
            r == self@.contains_key(key@),
    {
        proof {
            use_type_invariant(self);
            lemma_pairs_map_dom(keyed(self.entries@), key@);
        }
        match self.find(key) {
            Some(i) => true,
            None => false,
        }
    }

    /// The value of `key`.
    pub fn get(&self, key: &str) -> (r: Option<&V>)
        ensures
            match r {
                Some(v) => self@.contains_key(key@) && self@[key@] == *v,
                None => !self@.contains_key(key@),
            },
    {
        proof {
            use_type_invariant(self);
        }
        match self.find(key) {
            Some(i) => {
                proof {
                    lemma_pairs_map_at(keyed(self.entries@), i as int);
                }
                Some(&self.entries[i].1)
            },
            None => {
                proof {
                    lemma_pairs_map_absent(keyed(self.entries@), key@);
                }
                None
            },
        }
    }

    /// Sets the value of `key`, replacing the value it held.
    pub fn insert(&mut self, key: String, value: V)
        ensures
            final(self)@ == old(self)@.insert(key@, value),
    {
        proof {
            use_type_invariant(&*self);
        }
        let found = self.find(key.as_str());
        let mut entries: Vec<(String, V)> = Vec::new();
        std::mem::swap(&mut entries, &mut self.entries);
        let ghost e = entries@;
        match found {
            Some(i) => {
                proof {
                    lemma_pairs_map_update(keyed(e), i as int, value);
                }
                entries.set(i, (key, value));
                proof {
                    assert(keyed(entries@) =~= keyed(e).update(i as int, (key@, value)));
                }
            },
            None => {
                proof {
                    lemma_pairs_map_push(keyed(e), key@, value);
                }
                entries.push((key, value));
                proof {
                    assert(keyed(entries@) =~= keyed(e).push((key@, value)));
                }
            },
        }
        self.entries = entries;
    }

    /// Takes out the value of `key`.
    pub fn remove(&mut self, key: &str) -> (r: Option<V>)
        ensures
            final(self)@ == old(self)@.remove(key@),
            match r {
                Some(v) => old(self)@.contains_key(key@) && old(self)@[key@] == v,
                None => !old(self)@.contains_key(key@),
            },
    {
        proof {
            use_type_invariant(&*self);
        }
        let found = self.find(key);
        match found {
            Some(i) => {
                let mut entries: Vec<(String, V)> = Vec::new();
                std::mem::swap(&mut entries, &mut self.entries);
                let ghost e = entries@;
                proof {
                    lemma_pairs_map_remove(keyed(e), i as int);
                    lemma_pairs_map_at(keyed(e), i as int);
                }
                let (_, v) = entries.remove(i);
                proof {
                    assert(keyed(entries@) =~= keyed(e).remove(i as int));
                }
                self.entries = entries;
                Some(v)
            },
            None => {
                proof {
                    lemma_pairs_map_absent(keyed(self.entries@), key@);
                    assert(self@ =~= self@.remove(key@));
                }
                None
            },
        }
    }

    /// The number of keys.
    pub fn len(&self) -> (r: usize)
        ensures
            r == self@.len(),
            self@.dom().finite(),
    {
        proof {
            use_type_invariant(self);
            lemma_unique_pairs_len(keyed(self.entries@));
        }
        self.entries.len()
    }

    /// The keys, each once.
    pub fn keys(&self) -> (r: Vec<String>)
        ensures
            r@.len() == self@.len(),
            forall|i: int| 0 <= i < r@.len() ==> self@.contains_key(#[trigger] r@[i]@),
            forall|k: Seq<char>| self@.contains_key(k) ==> exists|i: int| 0 <= i < r@.len() && r@[i]@ == k,
            forall|a: int, b: int| 0 <= a < b < r@.len() ==> r@[a]@ != r@[b]@,
    {
        proof {
            use_type_invariant(self);
            lemma_unique_pairs_len(keyed(self.entries@));
        }
        let mut r: Vec<String> = Vec::new();
        let mut i: usize = 0;
        while i < self.entries.len()
            invariant
                i <= self.entries@.len(),
                unique_keys(keyed(self.entries@)),
                r@.len() == i,
                forall|x: int| 0 <= x < i ==> r@[x]@ == keyed(self.entries@)[x].0,
            decreases self.entries.len() - i,
        {
            r.push(self.entries[i].0.clone());
            i = i + 1;
        }
        proof {
            assert forall|x: int| 0 <= x < r@.len() implies self@.contains_key(#[trigger] r@[x]@) by {
                lemma_pairs_map_at(keyed(self.entries@), x);
            }
            assert forall|k: Seq<char>| self@.contains_key(k) implies exists|x: int| 0 <= x < r@.len() && r@[x]@ == k by {
                lemma_pairs_map_dom(keyed(self.entries@), k);
                let x = choose|x: int| 0 <= x < keyed(self.entries@).len() && keyed(self.entries@)[x].0 == k;
                assert(r@[x]@ == k);
            }
        }
        r
    }

    /// Removes every key.
    pub fn clear(&mut self)
        ensures
            final(self)@ == Map::<Seq<char>, V>::empty(),
    {
        self.entries = Vec::new();
        assert(pairs_map(keyed(self.entries@)) =~= Map::<Seq<char>, V>::empty());
    }
}

} // verus!
