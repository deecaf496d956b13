//! A small map from text keys to values, kept as two lists side by side;
//! its model is a finite `Map`.

use vstd::prelude::*;
use crate::arbiter::{lemma_index_of_unique, position_of};
use crate::text::texts;

verus! {

/// A map from text keys to values.
#[derive(Debug)]
pub struct Dict<V> {
    keys: Vec<String>,
    values: Vec<V>,
}

impl<V> View for Dict<V> {
    type V = Map<Seq<char>, V>;

    closed spec fn view(&self) -> Map<Seq<char>, V> {
        Map::new(
            |k: Seq<char>| texts(self.keys@).contains(k),
            |k: Seq<char>| self.values@[texts(self.keys@).index_of(k)],
        )
    }
}

impl<V> Dict<V> {
    /// The invariants of the representation: one value for each key, and no
    /// key twice.
    pub closed spec fn wf(&self) -> bool {
        &&& self.keys.len() == self.values.len()
        &&& texts(self.keys@).no_duplicates()
    }

    proof fn lemma_finite(&self)
        requires
            self.wf(),
        ensures
            self@.dom().finite(),
            self@.dom().len() == self.keys.len(),
    {
        let ks = texts(self.keys@);
        ks.unique_seq_to_set();
        assert(self@.dom() =~= ks.to_set());
    }

    /// A map without keys.
    pub fn new() -> (d: Dict<V>)
        ensures
            d.wf(),
            d@ == Map::<Seq<char>, V>::empty(),
    {
        let d = Dict { keys: Vec::new(), values: Vec::new() };
        assert(d@ =~= Map::<Seq<char>, V>::empty());
        d
    }

    /// How many keys the map holds.
    pub fn len(&self) -> (n: usize)
        requires
            self.wf(),
        ensures
            self@.dom().finite(),
            n == self@.dom().len(),
    {
        proof {
            self.lemma_finite();
        }
        self.keys.len()
    }

    /// Does the map hold the key?
    pub fn contains(&self, key: &str) -> (r: bool)
        requires
            self.wf(),
        ensures
            r == self@.contains_key(key@),
    {
        match position_of(&self.keys, key) {
            Some(i) => {
                assert(texts(self.keys@)[i as int] == key@);
                true
            },
            None => false,
        }
    }

    /// The value under a key.
    pub fn get(&self, key: &str) -> (r: Option<&V>)
        requires
            self.wf(),
        ensures
            match r {
                Some(v) => self@.contains_key(key@) && *v == self@[key@],
                None => !self@.contains_key(key@),
            },
    {
        match position_of(&self.keys, key) {
            Some(i) => {
                proof {
                    assert(texts(self.keys@)[i as int] == key@);
                    lemma_index_of_unique(texts(self.keys@), key@, i as int);
                }
                Some(&self.values[i])
            },
            None => None,
        }
    }

    /// Puts a value under a key, in place of the one that was there.
    pub fn insert(&mut self, key: &str, value: V)
        requires
            old(self).wf(),
        ensures
            final(self).wf(),
            final(self)@ == old(self)@.insert(key@, value),
    {
        let ghost ks = texts(self.keys@);
        let ghost vs = self.values@;
        match position_of(&self.keys, key) {
            Some(i) => {
                proof {
                    assert(ks[i as int] == key@);
                    lemma_index_of_unique(ks, key@, i as int);
                }
                self.values.set(i, value);
                assert(self@ =~= old(self)@.insert(key@, value));
            },
            None => {
                self.keys.push(key.to_owned());
                self.values.push(value);
                proof {
                    let ks2 = texts(self.keys@);
                    assert(ks2 =~= ks.push(key@));
                    assert(ks2[ks.len() as int] == key@);
                    lemma_index_of_unique(ks2, key@, ks.len() as int);
                    assert forall|k: Seq<char>| ks.contains(k) implies ks2.contains(k)
                        && ks2.index_of(k) == ks.index_of(k) by {
                        let a = ks.index_of(k);
                        assert(ks2[a] == k);
                        lemma_index_of_unique(ks2, k, a);
                    }
                    assert forall|k: Seq<char>| ks2.contains(k) && k != key@ implies ks.contains(
                        k,
                    ) by {
                        let a = ks2.index_of(k);
                        assert(ks2[a] == k);
                        assert(a < ks.len());
                        assert(ks[a] == k);
                    }
                    assert(self@ =~= old(self)@.insert(key@, value));
                }
            },
        }
    }

    /// Takes the value under a key out of the map.
    pub fn remove(&mut self, key: &str) -> (r: Option<V>)
        requires
            old(self).wf(),
        ensures
            final(self).wf(),
            final(self)@ == old(self)@.remove(key@),
            match r {
                Some(v) => old(self)@.contains_key(key@) && v == old(self)@[key@],
                None => !old(self)@.contains_key(key@),
            },
    {
        let ghost ks = texts(self.keys@);
        let ghost vs = self.values@;
        match position_of(&self.keys, key) {
            Some(i) => {
                proof {
                    assert(ks[i as int] == key@);
                    lemma_index_of_unique(ks, key@, i as int);
                }
                self.keys.remove(i);
                let v = self.values.remove(i);
                proof {
                    let ks2 = texts(self.keys@);
                    assert(ks2 =~= ks.remove(i as int));
                    assert forall|a: int, b: int|
                        0 <= a < ks2.len() && 0 <= b < ks2.len() && a != b implies ks2[a]
                        != ks2[b] by {
                        let a2 = if a < i { a } else { a + 1 };
                        let b2 = if b < i { b } else { b + 1 };
                        assert(ks2[a] == ks[a2] && ks2[b] == ks[b2]);
                    }
                    assert forall|k: Seq<char>| ks2.contains(k) implies ks.contains(k) && k != key@
                        && self.values@[ks2.index_of(k)] == vs[ks.index_of(k)] by {
                        let a = ks2.index_of(k);
                        assert(ks2[a] == k);
                        let a2 = if a < i { a } else { a + 1 };
                        assert(ks[a2] == k);
                        lemma_index_of_unique(ks, k, a2);
                    }
                    assert forall|k: Seq<char>| ks.contains(k) && k != key@ implies ks2.contains(
                        k,
                    ) by {
                        let b = ks.index_of(k);
                        assert(ks[b] == k);
                        let b2 = if b < i { b } else { b - 1 };
                        assert(ks2[b2] == k);
                    }
                    assert(self@ =~= old(self)@.remove(key@));
                }
                Some(v)
            },
            None => {
                assert(self@ =~= old(self)@.remove(key@));
                None
            },
        }
    }

    /// Takes everything out of the map.
    pub fn clear(&mut self)
        requires
            old(self).wf(),
        ensures
            final(self).wf(),
            final(self)@ == Map::<Seq<char>, V>::empty(),
    {
        self.keys.clear();
        self.values.clear();
        assert(self@ =~= Map::<Seq<char>, V>::empty());
    }
}

} // verus!
