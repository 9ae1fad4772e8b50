//! A small map keyed by strings, kept as an association list in first-insertion
//! order. The config tables it holds have a dozen entries at most.

use vstd::prelude::*;
use crate::text::str_eq;

verus! {

/// A string-keyed map; each key occurs at most once.
#[derive(Debug)]
pub struct KeyMap<V> {
    entries: Vec<(String, V)>,
}

impl<V> KeyMap<V> {
    #[verifier::type_invariant]
    closed spec fn distinct_keys(&self) -> bool {
        forall|i: int, j: int|
            0 <= i < self.entries@.len() && 0 <= j < self.entries@.len() && i != j
                ==> #[trigger] self.entries@[i].0@ != #[trigger] self.entries@[j].0@
    }

    /// The keys, in first-insertion order.
    pub closed spec fn key_seq(&self) -> Seq<Seq<char>> {
        self.entries@.map_values(|e: (String, V)| e.0@)
    }

    closed spec fn slot(&self, k: Seq<char>) -> int {
        choose|i: int| 0 <= i < self.entries@.len() && self.entries@[i].0@ == k
    }

    /// The map from keys to values.
    pub closed spec fn view(&self) -> Map<Seq<char>, V> {
        Map::new(
            |k: Seq<char>| self.key_seq().contains(k),
            |k: Seq<char>| self.entries@[self.slot(k)].1,
        )
    }

    /// An empty map.
    pub fn new() -> (r: Self)
        ensures
            r.view() == Map::<Seq<char>, V>::empty(),
            r.key_seq() == Seq::<Seq<char>>::empty(),
    {
        let r = KeyMap { entries: Vec::new() };
        assert(r.view() =~= Map::<Seq<char>, V>::empty());
        assert(r.key_seq() =~= Seq::<Seq<char>>::empty());
        r
    }

    /// Number of entries.
    pub fn len(&self) -> (r: usize)
        ensures
            r == self.key_seq().len(),
    {
        self.entries.len()
    }

    proof fn lemma_slot(&self, i: int)
        requires
            self.distinct_keys(),
            0 <= i < self.entries@.len(),
        ensures
            self.slot(self.entries@[i].0@) == i,
            self.key_seq()[i] == self.entries@[i].0@,
            self.view().contains_key(self.entries@[i].0@),
            self.view()[self.entries@[i].0@] == self.entries@[i].1,
    {
        let k = self.entries@[i].0@;
        assert(self.key_seq()[i] == k);
        let j = self.slot(k);
        assert(0 <= j < self.entries@.len() && self.entries@[j].0@ == k);
    }

    /// Position of `k` among the entries, if present.
    fn find(&self, k: &str) -> (r: Option<usize>)
        ensures
            match r {
                Some(i) => i < self.entries@.len() && self.entries@[i as int].0@ == k@,
                None => !self.key_seq().contains(k@),
            },
    {
        let mut i: usize = 0;
        while i < self.entries.len()
            invariant
                i <= self.entries@.len(),
                forall|j: int| 0 <= j < i ==> self.entries@[j].0@ != k@,
            decreases self.entries@.len() - i,
        {
            if str_eq(self.entries[i].0.as_str(), k) {
                return Some(i);
            }
            i += 1;
        }
        proof {
            if self.key_seq().contains(k@) {
                let j = choose|j: int| 0 <= j < self.key_seq().len() && self.key_seq()[j] == k@;
                assert(self.key_seq()[j] == self.entries@[j].0@);
            }
        }
        None
    }

    /// Whether `k` is a key.
    pub fn contains_key(&self, k: &str) -> (r: bool)
        ensures
            r == self.view().contains_key(k@),
    {
        match self.find(k) {
            Some(i) => {
                proof {
                    assert(self.key_seq()[i as int] == k@);
                }
                true
            },
            None => false,
        }
    }

    /// The value stored under `k`, if any.
    pub fn get(&self, k: &str) -> (r: Option<&V>)
        ensures
            match r {
                Some(v) => self.view().contains_key(k@) && *v == self.view()[k@],
                None => !self.view().contains_key(k@),
            },
    {
        match self.find(k) {
            Some(i) => {
                proof {
                    use_type_invariant(self);
                    self.lemma_slot(i as int);
                }
                Some(&self.entries[i].1)
            },
            None => None,
        }
    }

    /// The key of entry `i` (entries are in first-insertion order).
    pub fn key_at(&self, i: usize) -> (r: &String)
        requires
            i < self.key_seq().len(),
        ensures
            r@ == self.key_seq()[i as int],
            self.view().contains_key(r@),
    {
        proof {
            use_type_invariant(self);
            self.lemma_slot(i as int);
        }
        &self.entries[i].0
    }

    /// The value of entry `i`.
    pub fn value_at(&self, i: usize) -> (r: &V)
        requires
            i < self.key_seq().len(),
        ensures
            *r == self.view()[self.key_seq()[i as int]],
    {
        proof {
            use_type_invariant(self);
            self.lemma_slot(i as int);
        }
        &self.entries[i].1
    }

    /// Stores `v` under `k`, replacing any earlier value; a new key goes last.
    pub fn insert(&mut self, k: String, v: V)
        ensures
            final(self).view() == old(self).view().insert(k@, v),
            old(self).key_seq().contains(k@) ==> final(self).key_seq() == old(self).key_seq(),
            !old(self).key_seq().contains(k@) ==> final(self).key_seq() == old(self).key_seq().push(k@),
    {
        proof {
            use_type_invariant(&*self);
        }
        let ghost old_map = self.view();
        let ghost old_keys = self.key_seq();
        let ghost old_entries = self.entries@;
        match self.find(k.as_str()) {
            Some(i) => {
                let mut entries: Vec<(String, V)> = Vec::new();
                std::mem::swap(&mut entries, &mut self.entries);
                let ghost kv = k@;
                entries.set(i, (k, v));
                self.entries = entries;
                proof {
                    assert(old_keys[i as int] == old_entries[i as int].0@);
                    assert(self.key_seq() =~= old_keys) by {
                        assert forall|j: int| 0 <= j < old_keys.len() implies self.key_seq()[j] == old_keys[j] by {
                            assert(old_keys[j] == old_entries[j].0@);
                        }
                    }
                    assert forall|q: Seq<char>| #![auto] self.view().contains_key(q) == old_map.insert(kv, v).contains_key(q) by {
                        if q == kv {
                            assert(self.key_seq()[i as int] == kv);
                        }
                    }
                    assert forall|q: Seq<char>| #![auto] self.view().contains_key(q) implies self.view()[q] == old_map.insert(kv, v)[q] by {
                        let j = choose|j: int| 0 <= j < self.key_seq().len() && self.key_seq()[j] == q;
                        assert(self.key_seq()[j] == self.entries@[j].0@);
                        self.lemma_slot(j);
                        if q != kv {
                            assert(old_keys[j] == old_entries[j].0@);
                            assert(j != i);
                            let jj = choose|jj: int| 0 <= jj < old_entries.len() && old_entries[jj].0@ == q;
                            assert(jj == j);
                        }
                    }
                    assert(self.view() =~= old_map.insert(kv, v));
                }
            },
            None => {
                let ghost kv = k@;
                let mut entries: Vec<(String, V)> = Vec::new();
                std::mem::swap(&mut entries, &mut self.entries);
                entries.push((k, v));
                proof {
                    let n = old_entries.len() as int;
                    assert forall|a: int, b: int|
                        0 <= a < entries@.len() && 0 <= b < entries@.len() && a != b
                            implies #[trigger] entries@[a].0@ != #[trigger] entries@[b].0@ by {
                        if a == n {
                            assert(old_keys[b] == old_entries[b].0@);
                        } else if b == n {
                            assert(old_keys[a] == old_entries[a].0@);
                        }
                    }
                }
                self.entries = entries;
                proof {
                    let n = old_entries.len() as int;
                    assert(self.key_seq() =~= old_keys.push(kv)) by {
                        assert forall|j: int| 0 <= j < n implies self.key_seq()[j] == old_keys.push(kv)[j] by {
                            assert(old_keys[j] == old_entries[j].0@);
                        }
                    }
                    assert forall|a: int, b: int|
                        0 <= a < self.entries@.len() && 0 <= b < self.entries@.len() && a != b
                            implies #[trigger] self.entries@[a].0@ != #[trigger] self.entries@[b].0@ by {
                        if a == n {
                            assert(old_keys[b] == old_entries[b].0@);
                        } else if b == n {
                            assert(old_keys[a] == old_entries[a].0@);
                        }
                    }
                }
                proof {
                    assert forall|q: Seq<char>| #![auto] self.view().contains_key(q) == old_map.insert(kv, v).contains_key(q) by {
                        if q == kv {
                            assert(self.key_seq()[old_keys.len() as int] == kv);
                        }
                        if old_keys.contains(q) {
                            let j = choose|j: int| 0 <= j < old_keys.len() && old_keys[j] == q;
                            assert(self.key_seq()[j] == q);
                        }
                    }
                    assert forall|q: Seq<char>| #![auto] self.view().contains_key(q) implies self.view()[q] == old_map.insert(kv, v)[q] by {
                        let j = choose|j: int| 0 <= j < self.key_seq().len() && self.key_seq()[j] == q;
                        assert(self.key_seq()[j] == self.entries@[j].0@);
                        self.lemma_slot(j);
                        if q != kv {
                            let jj = choose|jj: int| 0 <= jj < old_entries.len() && old_entries[jj].0@ == q;
                            assert(old_keys[jj] == old_entries[jj].0@);
                            assert(jj == j);
                        }
                    }
                    assert(self.view() =~= old_map.insert(kv, v));
                }
            },
        }
    }
}

impl<V: Clone> Clone for KeyMap<V> {
    /// A copy with the same keys in the same order; each value is cloned.
    fn clone(&self) -> (r: Self)
        ensures
            r.key_seq() == self.key_seq(),
    {
        proof {
            use_type_invariant(self);
        }
        let mut entries: Vec<(String, V)> = Vec::new();
        let mut i: usize = 0;
        while i < self.entries.len()
            invariant
                self.distinct_keys(),
                i <= self.entries@.len(),
                entries@.len() == i,
                forall|j: int| 0 <= j < i ==> #[trigger] entries@[j].0@ == self.entries@[j].0@,
            decreases self.entries@.len() - i,
        {
            let k = self.entries[i].0.clone();
            let v = self.entries[i].1.clone();
            entries.push((k, v));
            i += 1;
        }
        proof {
            assert forall|a: int, b: int|
                0 <= a < entries@.len() && 0 <= b < entries@.len() && a != b
                    implies #[trigger] entries@[a].0@ != #[trigger] entries@[b].0@ by {
                assert(entries@[a].0@ == self.entries@[a].0@);
                assert(entries@[b].0@ == self.entries@[b].0@);
            }
        }
        let r = KeyMap { entries };
        assert(r.key_seq() =~= self.key_seq());
        r
    }
}

} // verus!
