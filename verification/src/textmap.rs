//! Maps and sets keyed by text.
//!
//! A `TextMap` holds each key once, in the order in which the keys first came.
//! Seen as a mathematical map it goes from the text of a key to the view of
//! the value kept under it.
use vstd::prelude::*;

verus! {

/// A map from texts to values. No key occurs twice.
pub struct TextMap<V> {
    entries: Vec<(String, V)>,
}

impl<V> TextMap<V> {
    #[verifier::type_invariant]
    spec fn keys_differ(self) -> bool {
        forall|i: int, j: int|
            0 <= i < self.entries@.len() && 0 <= j < self.entries@.len() && i != j
                ==> self.entries@[i].0@ != self.entries@[j].0@
    }
}

impl<V: View> TextMap<V> {
    /// The keys, in the order in which they first came.
    pub closed spec fn keys(&self) -> Seq<Seq<char>> {
        Seq::new(self.entries@.len(), |i: int| self.entries@[i].0@)
    }

    /// The views of the values, each at the position of its key.
    pub closed spec fn items(&self) -> Seq<V::V> {
        Seq::new(self.entries@.len(), |i: int| self.entries@[i].1@)
    }

    /// The empty map.
    pub fn new() -> (out: Self)
        ensures
            out@ == Map::<Seq<char>, V::V>::empty(),
            out.keys() == Seq::<Seq<char>>::empty(),
    {
        let out = TextMap { entries: Vec::new() };
        assert(out.keys() =~= Seq::<Seq<char>>::empty());
        assert(out@ =~= Map::<Seq<char>, V::V>::empty());
        out
    }

    /// Where `key` stands among the keys.
    fn position(&self, key: &String) -> (out: Option<usize>)
        ensures
            match out {
                Some(i) => i < self.keys().len() && self.keys()[i as int] == key@,
                None => !self.keys().contains(key@),
            },
    {
        let mut i: usize = 0;
        while i < self.entries.len()
            invariant
                i <= self.entries.len(),
                forall|k: int| 0 <= k < i ==> self.keys()[k] != key@,
            decreases self.entries.len() - i,
        {
            if self.entries[i].0 == *key {
                return Some(i);
            }
            i += 1;
        }
        None
    }

    /// How many keys the map holds.
    pub fn len(&self) -> (out: usize)
        ensures
            out == self.keys().len(),
            self.items().len() == self.keys().len(),
            self.keys().no_duplicates(),
            self@.dom().finite(),
            self@.dom().len() == out,
            forall|i: int|
                0 <= i < self.keys().len() ==> self@.contains_key(#[trigger] self.keys()[i])
                    && self@[self.keys()[i]] == self.items()[i],
    {
        proof {
            use_type_invariant(self);
            self.lemma_keys();
            assert forall|i: int| 0 <= i < self.keys().len() implies self@.contains_key(
                #[trigger] self.keys()[i],
            ) && self@[self.keys()[i]] == self.items()[i] by {
                self.lemma_entry(i);
            }
        }
        self.entries.len()
    }

    /// Whether the map holds nothing.
    pub fn is_empty(&self) -> (out: bool)
        ensures
            out == (self@ == Map::<Seq<char>, V::V>::empty()),
    {
        proof {
            if self.entries@.len() == 0 {
                assert(self@ =~= Map::<Seq<char>, V::V>::empty());
            } else {
                assert(self.keys()[0] == self.entries@[0].0@);
                assert(self@.contains_key(self.keys()[0]));
            }
        }
        self.entries.len() == 0
    }

    /// The key at a position.
    pub fn key_at(&self, i: usize) -> (out: &str)
        requires
            i < self.keys().len(),
        ensures
            out@ == self.keys()[i as int],
            self@.contains_key(out@),
    {
        assert(self.keys()[i as int] == self.entries@[i as int].0@);
        self.entries[i].0.as_str()
    }

    /// The value at a position: the one kept under the key at that position.
    pub fn value_at(&self, i: usize) -> (out: &V)
        requires
            i < self.keys().len(),
        ensures
            out@ == self.items()[i as int],
            self@.contains_key(self.keys()[i as int]),
            self@[self.keys()[i as int]] == out@,
    {
        proof {
            use_type_invariant(self);
            self.lemma_entry(i as int);
        }
        &self.entries[i].1
    }

    /// Whether the map holds `key`.
    pub fn contains_key(&self, key: &str) -> (out: bool)
        ensures
            out == self@.contains_key(key@),
    {
        let key = key.to_owned();
        self.position(&key).is_some()
    }

    /// The value kept under `key`.
    pub fn get(&self, key: &str) -> (out: Option<&V>)
        ensures
            match out {
                Some(value) => self@.contains_key(key@) && self@[key@] == value@,
                None => !self@.contains_key(key@),
            },
    {
        let key = key.to_owned();
        match self.position(&key) {
            Some(i) => {
                proof {
                    use_type_invariant(self);
                    self.lemma_entry(i as int);
                }
                Some(&self.entries[i].1)
            },
            None => None,
        }
    }

    /// Keeps `value` under `key`, in place of what was kept under it before.
    pub fn insert(&mut self, key: &str, value: V)
        ensures
            final(self)@ == old(self)@.insert(key@, value@),
    {
        let key = key.to_owned();
        proof {
            use_type_invariant(&*self);
        }
        let found = self.position(&key);
        let mut entries: Vec<(String, V)> = Vec::new();
        std::mem::swap(&mut self.entries, &mut entries);
        match found {
            Some(i) => {
                entries.set(i, (key, value));
                self.entries = entries;
                proof {
                    assert(self.keys() =~= old(self).keys());
                    assert(self.items() =~= old(self).items().update(i as int, value@));
                    assert forall|k: Seq<char>| #[trigger]
                        self@.contains_key(k) && k != key@ implies self@[k] == old(self)@[k] by {
                        let j = self.keys().index_of(k);
                        assert(self.keys()[j] == k);
                    }
                    self.lemma_entry(i as int);
                    assert(self@ =~= old(self)@.insert(key@, value@));
                }
            },
            None => {
                proof {
                    assert forall|j: int| 0 <= j < entries@.len() implies entries@[j].0@
                        != key@ by {
                        assert(old(self).keys()[j] == entries@[j].0@);
                    }
                }
                entries.push((key, value));
                self.entries = entries;
                proof {
                    let n = old(self).keys().len() as int;
                    assert(self.keys() =~= old(self).keys().push(key@));
                    assert(self.items() =~= old(self).items().push(value@));
                    assert forall|k: Seq<char>| #[trigger] self@.contains_key(k) implies (k
                        == key@ || old(self)@.contains_key(k)) by {
                        let j = self.keys().index_of(k);
                        assert(self.keys()[j] == k);
                        if j < n {
                            assert(old(self).keys()[j] == k);
                        }
                    }
                    assert forall|k: Seq<char>| #[trigger]
                        old(self)@.contains_key(k) implies self@.contains_key(k) && self@[k]
                        == old(self)@[k] by {
                        let j = old(self).keys().index_of(k);
                        assert(old(self).keys()[j] == k);
                        assert(self.keys()[j] == k);
                        old(self).lemma_entry(j);
                        self.lemma_entry(j);
                    }
                    assert(self.keys()[n] == key@);
                    self.lemma_entry(n);
                    assert(self@ =~= old(self)@.insert(key@, value@));
                }
            },
        }
    }

    /// With keys that differ, the value at a position is the one kept under
    /// the key at that position.
    proof fn lemma_entry(&self, i: int)
        requires
            self.keys_differ(),
            0 <= i < self.keys().len(),
        ensures
            self@.contains_key(self.keys()[i]),
            self@[self.keys()[i]] == self.items()[i],
    {
        let k = self.keys()[i];
        let j = self.keys().index_of(k);
        assert(self.keys().contains(k));
        assert(self.keys()[j] == k);
        assert(self.entries@[j].0@ == self.entries@[i].0@);
    }

    /// With keys that differ, the map has as many keys as the list.
    proof fn lemma_keys(&self)
        requires
            self.keys_differ(),
        ensures
            self.keys().no_duplicates(),
            self.items().len() == self.keys().len(),
            self@.dom().finite(),
            self@.dom().len() == self.keys().len(),
    {
        assert(self.keys().no_duplicates());
        self.keys().unique_seq_to_set();
        assert(self@.dom() =~= self.keys().to_set());
    }
}

impl<V: View> View for TextMap<V> {
    type V = Map<Seq<char>, V::V>;

    open spec fn view(&self) -> Map<Seq<char>, V::V> {
        Map::new(
            |k: Seq<char>| self.keys().contains(k),
            |k: Seq<char>| self.items()[self.keys().index_of(k)],
        )
    }
}

/// A set of texts.
pub struct TextSet {
    items: Vec<String>,
}

impl View for TextSet {
    type V = Set<Seq<char>>;

    closed spec fn view(&self) -> Set<Seq<char>> {
        Set::new(|k: Seq<char>| exists|i: int| 0 <= i < self.items@.len() && self.items@[i]@ == k)
    }
}

impl TextSet {
    /// The empty set.
    pub fn new() -> (out: Self)
        ensures
            out@ == Set::<Seq<char>>::empty(),
    {
        let out = TextSet { items: Vec::new() };
        assert(out@ =~= Set::<Seq<char>>::empty());
        out
    }

    /// Whether the set holds `text`.
    pub fn contains(&self, text: &str) -> (out: bool)
        ensures
            out == self@.contains(text@),
    {
        let wanted = text.to_owned();
        let mut i: usize = 0;
        while i < self.items.len()
            invariant
                i <= self.items.len(),
                wanted@ == text@,
                forall|k: int| 0 <= k < i ==> self.items@[k]@ != text@,
            decreases self.items.len() - i,
        {
            if self.items[i] == wanted {
                assert(self.items@[i as int]@ == text@);
                return true;
            }
            i += 1;
        }
        false
    }

    /// Puts `text` into the set.
    pub fn insert(&mut self, text: &str)
        ensures
            final(self)@ == old(self)@.insert(text@),
    {
        if !self.contains(text) {
            let text = text.to_owned();
            self.items.push(text);
            proof {
                let n = old(self).items@.len() as int;
                assert(self.items@[n]@ == text@);
                assert forall|k: Seq<char>| old(self)@.contains(k) implies self@.contains(k) by {
                    let i = choose|i: int| 0 <= i < old(self).items@.len() && old(self).items@[i]@ == k;
                    assert(self.items@[i]@ == k);
                }
                assert(self@ =~= old(self)@.insert(text@));
            }
        } else {
            assert(self@ =~= old(self)@.insert(text@));
        }
    }
}

} // verus!
