//! A map from text to values that is walked in the order of its keys.
use vstd::prelude::*;
use vstd::utf8::encode_utf8;

use crate::bytes::{
    bytes_less, lemma_lex_connected, lemma_lex_irreflexive, lemma_lex_transitive, lex_less,
    same_bytes,
};

verus! {

/// The order of keys: by their UTF-8 bytes.
pub open spec fn text_less(a: Seq<char>, b: Seq<char>) -> bool {
    lex_less(encode_utf8(a), encode_utf8(b))
}

/// Every key comes strictly before the ones after it.
pub open spec fn text_ascending(keys: Seq<Seq<char>>) -> bool {
    forall|i: int, j: int|
        0 <= i < j < keys.len() ==> text_less(#[trigger] keys[i], #[trigger] keys[j])
}

/// Of two different texts, one comes before the other.
pub proof fn lemma_text_connected(a: Seq<char>, b: Seq<char>)
    ensures
        a == b || text_less(a, b) || text_less(b, a),
{
    lemma_lex_connected(encode_utf8(a), encode_utf8(b));
    if encode_utf8(a) == encode_utf8(b) {
        vstd::utf8::encode_utf8_decode_utf8(a);
        vstd::utf8::encode_utf8_decode_utf8(b);
    }
}

/// An ascending list holds no key twice.
pub proof fn lemma_ascending_distinct(keys: Seq<Seq<char>>)
    requires
        text_ascending(keys),
    ensures
        keys.no_duplicates(),
{
    assert forall|i: int, j: int| 0 <= i < j < keys.len() implies keys[i] != keys[j] by {
        assert(text_less(keys[i], keys[j]));
        lemma_lex_irreflexive(encode_utf8(keys[i]));
    }
}

/// Whether two texts are the same.
pub(crate) fn same_text(a: &str, b: &str) -> (r: bool)
    ensures
        r == (a@ == b@),
{
    proof {
        vstd::utf8::encode_utf8_decode_utf8(a@);
        vstd::utf8::encode_utf8_decode_utf8(b@);
    }
    same_bytes(a.as_bytes(), b.as_bytes())
}

/// A map from text to values. Its entries lie in the order of their keys.
#[derive(Debug, PartialEq, Eq)]
pub struct TextMap<T: View> {
    entries: Vec<(String, T)>,
}

impl<T: View> View for TextMap<T> {
    type V = Map<Seq<char>, T::V>;

    closed spec fn view(&self) -> Map<Seq<char>, T::V> {
        Map::new(
            |key: Seq<char>| self.keys().contains(key),
            |key: Seq<char>| self.entries@[self.keys().index_of(key)].1@,
        )
    }
}

impl<T: View> TextMap<T> {
    #[verifier::type_invariant]
    spec fn ordered(self) -> bool {
        text_ascending(self.keys())
    }

    /// The keys in order.
    pub closed spec fn keys(self) -> Seq<Seq<char>> {
        self.entries@.map_values(|entry: (String, T)| entry.0@)
    }

    /// The values in the order of their keys.
    pub closed spec fn values(self) -> Seq<T> {
        self.entries@.map_values(|entry: (String, T)| entry.1)
    }

    /// Maps with the same keys and values of the same contents have the same contents.
    pub proof fn lemma_same_entries(self, other: Self)
        requires
            self.keys() == other.keys(),
            self.values().len() == other.values().len(),
            forall|i: int|
                0 <= i < other.values().len() ==> self.values()[i]@ == (
                #[trigger] other.values()[i])@,
        ensures
            self@ == other@,
    {
        assert forall|key: Seq<char>| #[trigger] self@.contains_key(key) implies self@[key]
            == other@[key] by {
            let i = self.keys().index_of(key);
            assert(0 <= i < self.keys().len());
            assert(self.values()[i]@ == other.values()[i]@);
        }
        assert(self@ =~= other@);
    }

    /// The keys are those of the map.
    pub proof fn lemma_keys(self)
        ensures
            forall|key: Seq<char>| #[trigger] self@.contains_key(key) <==> self.keys().contains(key),
    {
    }

    proof fn lemma_entry(self, i: int)
        requires
            text_ascending(self.keys()),
            0 <= i < self.entries@.len(),
        ensures
            self.keys()[i] == self.entries@[i].0@,
            self@.contains_key(self.keys()[i]),
            self@[self.keys()[i]] == self.entries@[i].1@,
    {
        let keys = self.keys();
        lemma_ascending_distinct(keys);
        assert(keys.contains(keys[i]));
        let k = keys.index_of(keys[i]);
        assert(keys[k] == keys[i]);
        assert(k == i);
    }

    /// The empty map.
    pub fn new() -> (r: Self)
        ensures
            r@ == Map::<Seq<char>, T::V>::empty(),
            r.keys() == Seq::<Seq<char>>::empty(),
    {
        let r = TextMap { entries: Vec::new() };
        assert(r.keys() =~= Seq::<Seq<char>>::empty());
        assert(r@ =~= Map::<Seq<char>, T::V>::empty());
        r
    }

    /// How many entries there are. The keys are in order.
    pub fn len(&self) -> (r: usize)
        ensures
            r == self.keys().len(),
            text_ascending(self.keys()),
    {
        proof {
            use_type_invariant(self);
        }
        self.entries.len()
    }

    /// Whether there is no entry.
    pub fn is_empty(&self) -> (r: bool)
        ensures
            r == (self@ == Map::<Seq<char>, T::V>::empty()),
    {
        proof {
            if self.entries@.len() > 0 {
                assert(self.keys().contains(self.keys()[0]));
                assert(self@.contains_key(self.keys()[0]));
            } else {
                assert(self.keys() =~= Seq::<Seq<char>>::empty());
                assert(self@ =~= Map::<Seq<char>, T::V>::empty());
            }
        }
        self.entries.len() == 0
    }

    /// The key at a place in the order.
    pub fn key_at(&self, i: usize) -> (r: &String)
        requires
            i < self.keys().len(),
        ensures
            r@ == self.keys()[i as int],
    {
        &self.entries[i].0
    }

    /// The value at a place in the order.
    pub fn value_at(&self, i: usize) -> (r: &T)
        requires
            i < self.keys().len(),
        ensures
            self@.contains_key(self.keys()[i as int]),
            r@ == self@[self.keys()[i as int]],
    {
        proof {
            use_type_invariant(self);
            self.lemma_entry(i as int);
        }
        &self.entries[i].1
    }

    /// The place before which every key is less than `key`, and from which on none is.
    fn position(&self, key: &str) -> (at: usize)
        ensures
            at <= self.keys().len(),
            forall|j: int| 0 <= j < at ==> text_less(#[trigger] self.keys()[j], key@),
            forall|j: int|
                at <= j < self.keys().len() ==> !text_less(#[trigger] self.keys()[j], key@),
    {
        proof {
            use_type_invariant(self);
        }
        let mut low: usize = 0;
        let mut high: usize = self.entries.len();
        while low < high
            invariant
                low <= high <= self.entries.len(),
                text_ascending(self.keys()),
                forall|j: int| 0 <= j < low ==> text_less(#[trigger] self.keys()[j], key@),
                forall|j: int|
                    high <= j < self.keys().len() ==> !text_less(#[trigger] self.keys()[j], key@),
            decreases high - low,
        {
            let middle: usize = low + (high - low) / 2;
            let ghost keys = self.keys();
            if bytes_less(self.entries[middle].0.as_str().as_bytes(), key.as_bytes()) {
                assert forall|j: int| 0 <= j < middle + 1 implies text_less(
                    #[trigger] keys[j],
                    key@,
                ) by {
                    if j < middle {
                        lemma_lex_transitive(
                            encode_utf8(keys[j]),
                            encode_utf8(keys[middle as int]),
                            encode_utf8(key@),
                        );
                    }
                }
                low = middle + 1;
            } else {
                assert forall|j: int| middle <= j < keys.len() implies !text_less(
                    #[trigger] keys[j],
                    key@,
                ) by {
                    if j > middle && text_less(keys[j], key@) {
                        lemma_lex_transitive(
                            encode_utf8(keys[middle as int]),
                            encode_utf8(keys[j]),
                            encode_utf8(key@),
                        );
                    }
                }
                high = middle;
            }
        }
        low
    }

    /// The value filed under `key`.
    pub fn get(&self, key: &str) -> (r: Option<&T>)
        ensures
            r is Some <==> self@.contains_key(key@),
            r matches Some(value) ==> value@ == self@[key@],
    {
        let at = self.position(key);
        proof {
            use_type_invariant(self);
        }
        if at < self.entries.len() && same_text(self.entries[at].0.as_str(), key) {
            proof {
                self.lemma_entry(at as int);
            }
            return Some(&self.entries[at].1);
        }
        proof {
            let keys = self.keys();
            if keys.contains(key@) {
                let j = keys.index_of(key@);
                lemma_lex_irreflexive(encode_utf8(key@));
                assert(j >= at);
                if j > at {
                    assert(text_less(keys[at as int], keys[j]));
                }
                assert(keys[at as int] == self.entries@[at as int].0@);
            }
        }
        None
    }

    /// Files a value under a key, in place of any value that was there.
    pub fn insert(&mut self, key: String, value: T)
        ensures
            final(self)@ == old(self)@.insert(key@, value@),
    {
        let at = self.position(key.as_str());
        proof {
            use_type_invariant(&*self);
        }
        let ghost text = key@;
        let ghost before = *self;
        let ghost keys = self.keys();
        let mut entries: Vec<(String, T)> = Vec::new();
        std::mem::swap(&mut entries, &mut self.entries);
        let held = at < entries.len() && same_text(entries[at].0.as_str(), key.as_str());
        if held {
            entries.set(at, (key, value));
            assert(entries@.map_values(|entry: (String, T)| entry.0@) =~= keys);
            self.entries = entries;
            proof {
                assert(self.keys() =~= keys);
                lemma_same_keys(before, *self, at as int);
            }
        } else {
            entries.insert(at, (key, value));
            proof {
                let after = entries@.map_values(|entry: (String, T)| entry.0@);
                assert(after =~= keys.insert(at as int, text));
                assert forall|i: int, j: int| 0 <= i < j < after.len() implies text_less(
                    #[trigger] after[i],
                    #[trigger] after[j],
                ) by {
                    let p = if i < at { i } else { i - 1 };
                    let q = if j < at { j } else { j - 1 };
                    if i != at && j != at {
                        assert(after[i] == keys[p] && after[j] == keys[q]);
                    } else if j == at {
                        assert(after[i] == keys[i]);
                    } else {
                        assert(after[j] == keys[q]);
                        assert(!text_less(keys[q], text));
                        lemma_text_connected(keys[q], text);
                        if keys[q] == text {
                            if q > at {
                                assert(text_less(keys[at as int], keys[q]));
                            }
                        }
                    }
                }
            }
            self.entries = entries;
            proof {
                assert(self.keys() =~= keys.insert(at as int, text));
                lemma_new_key(before, *self, at as int);
            }
        }
    }

    /// Replaces the value at a place in the order.
    pub fn set_value_at(&mut self, i: usize, value: T)
        requires
            i < old(self).keys().len(),
        ensures
            final(self).keys() == old(self).keys(),
            final(self)@ == old(self)@.insert(old(self).keys()[i as int], value@),
    {
        proof {
            use_type_invariant(&*self);
        }
        let ghost before = *self;
        let mut entries: Vec<(String, T)> = Vec::new();
        std::mem::swap(&mut entries, &mut self.entries);
        let key = entries[i].0.clone();
        entries.set(i, (key, value));
        assert(entries@.map_values(|entry: (String, T)| entry.0@) =~= before.keys());
        self.entries = entries;
        proof {
            assert(self.keys() =~= before.keys());
            lemma_same_keys(before, *self, i as int);
        }
    }
}

impl<T: View> Default for TextMap<T> {
    fn default() -> (r: Self)
        ensures
            r@ == Map::<Seq<char>, T::V>::empty(),
            r.keys() == Seq::<Seq<char>>::empty(),
    {
        TextMap::new()
    }
}

impl<T: View + Clone> Clone for TextMap<T> {
    fn clone(&self) -> (r: Self)
        ensures
            r.keys() == self.keys(),
            r.values().len() == self.values().len(),
            forall|i: int|
                0 <= i < r.values().len() ==> cloned(self.values()[i], #[trigger] r.values()[i]),
    {
        proof {
            use_type_invariant(self);
        }
        let mut entries: Vec<(String, T)> = Vec::new();
        let mut i: usize = 0;
        while i < self.entries.len()
            invariant
                i <= self.entries.len(),
                entries.len() == i,
                forall|k: int| 0 <= k < i ==> (#[trigger] entries@[k]).0@ == self.entries@[k].0@,
                forall|k: int|
                    0 <= k < i ==> cloned(self.entries@[k].1, (#[trigger] entries@[k]).1),
            decreases self.entries.len() - i,
        {
            entries.push((self.entries[i].0.clone(), self.entries[i].1.clone()));
            i += 1;
        }
        assert(entries@.map_values(|entry: (String, T)| entry.0@) =~= self.keys());
        TextMap { entries }
    }
}

proof fn lemma_same_keys<T: View>(before: TextMap<T>, after: TextMap<T>, at: int)
    requires
        text_ascending(before.keys()),
        after.keys() == before.keys(),
        0 <= at < before.entries@.len(),
        after.entries@.len() == before.entries@.len(),
        forall|i: int|
            0 <= i < before.entries@.len() && i != at ==> (#[trigger] after.entries@[i]).1
                == before.entries@[i].1,
    ensures
        after@ == before@.insert(before.keys()[at], after.entries@[at].1@),
{
    let keys = before.keys();
    lemma_ascending_distinct(keys);
    let goal = before@.insert(keys[at], after.entries@[at].1@);
    assert(keys.contains(keys[at]));
    assert forall|key: Seq<char>| after@.contains_key(key) implies after@[key] == goal[key] by {
        let k = keys.index_of(key);
        assert(keys[k] == key);
        after.lemma_entry(k);
        before.lemma_entry(k);
    }
    assert(after@ =~= goal);
}

proof fn lemma_new_key<T: View>(before: TextMap<T>, after: TextMap<T>, at: int)
    requires
        text_ascending(before.keys()),
        text_ascending(after.keys()),
        0 <= at <= before.entries@.len(),
        at < after.entries@.len(),
        after.entries@ == before.entries@.insert(at, after.entries@[at]),
    ensures
        after@ == before@.insert(after.keys()[at], after.entries@[at].1@),
{
    let text = after.keys()[at];
    let goal = before@.insert(text, after.entries@[at].1@);
    assert forall|key: Seq<char>| #[trigger] goal.contains_key(key) implies after@.contains_key(
        key,
    ) && after@[key] == goal[key] by {
        if key == text {
            after.lemma_entry(at);
        } else {
            let k = before.keys().index_of(key);
            before.lemma_entry(k);
            let l = if k < at { k } else { k + 1 };
            assert(after.entries@[l] == before.entries@[k]);
            after.lemma_entry(l);
        }
    }
    assert forall|key: Seq<char>| #[trigger] after@.contains_key(key) implies goal.contains_key(
        key,
    ) by {
        let l = after.keys().index_of(key);
        after.lemma_entry(l);
        if l != at {
            let k = if l < at { l } else { l - 1 };
            assert(after.entries@[l] == before.entries@[k]);
            before.lemma_entry(k);
        }
    }
    assert(after@ =~= goal);
}

} // verus!
