//! A small map keyed by strings that keeps its entries in insertion order.

use vstd::prelude::*;
use vstd::utf8::*;

use crate::text::{ascii_lower, bytes_eq, lemma_encode_injective, same_ignoring_ascii_case};

verus! {

/// The keys of a list of entries.
pub open spec fn key_seq<V>(p: Seq<(Seq<char>, V)>) -> Seq<Seq<char>> {
    p.map_values(|e: (Seq<char>, V)| e.0)
}

/// The first position from `i` on at which `keys` holds `key`.
pub open spec fn find_key(keys: Seq<Seq<char>>, key: Seq<char>, i: int) -> Option<int>
    decreases keys.len() - i,
{
    if i < 0 || i >= keys.len() {
        None
    } else if keys[i] == key {
        Some(i)
    } else {
        find_key(keys, key, i + 1)
    }
}

/// The first position from `i` on at which `keys` holds a key whose UTF-8 encoding is
/// `name`.
pub open spec fn find_key_bytes(keys: Seq<Seq<char>>, name: Seq<u8>, i: int) -> Option<int>
    decreases keys.len() - i,
{
    if i < 0 || i >= keys.len() {
        None
    } else if encode_utf8(keys[i]) == name {
        Some(i)
    } else {
        find_key_bytes(keys, name, i + 1)
    }
}

/// The value held under `key`, if any.
pub open spec fn value_of<V>(p: Seq<(Seq<char>, V)>, key: Seq<char>) -> Option<V> {
    match find_key(key_seq(p), key, 0) {
        Some(i) => Some(p[i].1),
        None => None,
    }
}

/// The first position from `i` on at which `keys` holds a key equal to `key` once ASCII
/// letters are lower-cased in both.
pub open spec fn find_key_folded(keys: Seq<Seq<char>>, key: Seq<char>, i: int) -> Option<int>
    decreases keys.len() - i,
{
    if i < 0 || i >= keys.len() {
        None
    } else if ascii_lower(keys[i]) == ascii_lower(key) {
        Some(i)
    } else {
        find_key_folded(keys, key, i + 1)
    }
}

/// The value held under the first key equal to `key` regardless of ASCII case, if any.
pub open spec fn value_of_folded<V>(p: Seq<(Seq<char>, V)>, key: Seq<char>) -> Option<V> {
    match find_key_folded(key_seq(p), key, 0) {
        Some(i) => Some(p[i].1),
        None => None,
    }
}

/// The value held under the key whose UTF-8 encoding is `name`, if any.
pub open spec fn value_of_bytes<V>(p: Seq<(Seq<char>, V)>, name: Seq<u8>) -> Option<V> {
    match find_key_bytes(key_seq(p), name, 0) {
        Some(i) => Some(p[i].1),
        None => None,
    }
}

/// The entries with `key` set to `value`: the first entry with that key takes the new
/// value in its place; without one, a new entry is appended.
pub open spec fn with_entry<V>(p: Seq<(Seq<char>, V)>, key: Seq<char>, value: V) -> Seq<(Seq<char>, V)> {
    match find_key(key_seq(p), key, 0) {
        Some(i) => p.update(i, (key, value)),
        None => p.push((key, value)),
    }
}

/// Whether no key occurs twice.
pub open spec fn keys_distinct(keys: Seq<Seq<char>>) -> bool {
    forall|i: int, j: int| 0 <= i < j < keys.len() ==> keys[i] != keys[j]
}

/// The value behind an optional reference.
pub open spec fn deref_opt<V>(r: Option<&V>) -> Option<V> {
    match r {
        Some(v) => Some(*v),
        None => None,
    }
}

/// `find_key` finds a position at or after `i` that holds the key, and no position in
/// between holds it.
pub proof fn lemma_find_key(keys: Seq<Seq<char>>, key: Seq<char>, i: int)
    requires
        0 <= i,
    ensures
        match find_key(keys, key, i) {
            Some(j) => i <= j < keys.len() && keys[j] == key && forall|l: int|
                i <= l < j ==> keys[l] != key,
            None => forall|l: int| i <= l < keys.len() ==> keys[l] != key,
        },
    decreases keys.len() - i,
{
    if i < keys.len() && keys[i] != key {
        lemma_find_key(keys, key, i + 1);
    }
}

/// Where no position before `i` holds a key encoded as `name`, the search from the start
/// is the search from `i`; the same holds of keys themselves.
pub proof fn lemma_find_skip(keys: Seq<Seq<char>>, name: Seq<u8>, key: Seq<char>, i: int)
    requires
        0 <= i <= keys.len(),
    ensures
        (forall|l: int| 0 <= l < i ==> encode_utf8(#[trigger] keys[l]) != name) ==> find_key_bytes(
            keys,
            name,
            0,
        ) == find_key_bytes(keys, name, i),
        (forall|l: int| 0 <= l < i ==> #[trigger] keys[l] != key) ==> find_key(keys, key, 0)
            == find_key(keys, key, i),
    decreases i,
{
    if i > 0 {
        lemma_find_skip(keys, name, key, i - 1);
    }
}

/// A map from strings to values; its entries keep the order in which their keys were
/// first inserted, and no key occurs twice.
#[derive(Debug)]
pub struct StrMap<V> {
    entries: Vec<(String, V)>,
}

impl<V> StrMap<V> {
    /// The entries in insertion order, keys taken as text.
    pub closed spec fn keyed(&self) -> Seq<(Seq<char>, V)> {
        self.entries@.map_values(|e: (String, V)| (e.0@, e.1))
    }

    /// The value held under `key`, if any.
    pub open spec fn spec_get(&self, key: Seq<char>) -> Option<V> {
        value_of(self.keyed(), key)
    }

    #[verifier::type_invariant]
    spec fn distinct(&self) -> bool {
        keys_distinct(key_seq(self.keyed()))
    }

    /// An empty map.
    pub fn new() -> (m: Self)
        ensures
            m.keyed() == Seq::<(Seq<char>, V)>::empty(),
    {
        let m = StrMap { entries: Vec::new() };
        assert(m.keyed() =~= Seq::<(Seq<char>, V)>::empty());
        m
    }

    /// The number of entries; no key occurs twice among them.
    pub fn len(&self) -> (n: usize)
        ensures
            n == self.keyed().len(),
            keys_distinct(key_seq(self.keyed())),
    {
        proof {
            use_type_invariant(self);
        }
        self.entries.len()
    }

    /// The entry at position `i` in insertion order.
    pub fn entry(&self, i: usize) -> (e: (&String, &V))
        requires
            i < self.keyed().len(),
        ensures
            e.0@ == self.keyed()[i as int].0,
            *e.1 == self.keyed()[i as int].1,
    {
        let e = &self.entries[i];
        (&e.0, &e.1)
    }

    /// The position of the first entry whose key is encoded as `name`, if any.
    fn find_bytes(&self, name: &[u8]) -> (r: Option<usize>)
        ensures
            match r {
                Some(i) => i < self.keyed().len() && find_key_bytes(key_seq(self.keyed()), name@, 0)
                    == Some(i as int),
                None => find_key_bytes(key_seq(self.keyed()), name@, 0) is None,
            },
            forall|key: Seq<char>|
                encode_utf8(key) == name@ ==> #[trigger] find_key(key_seq(self.keyed()), key, 0)
                    == match r {
                    Some(i) => Some(i as int),
                    None => None::<int>,
                },
    {
        let ghost keys = key_seq(self.keyed());
        let mut i: usize = 0;
        while i < self.entries.len()
            invariant
                i <= self.entries@.len(),
                keys == key_seq(self.keyed()),
                keys.len() == self.entries@.len(),
                forall|l: int| 0 <= l < i ==> encode_utf8(#[trigger] keys[l]) != name@,
            decreases self.entries@.len() - i,
        {
            assert(keys[i as int] == self.entries@[i as int].0@);
            if bytes_eq(self.entries[i].0.as_str().as_bytes(), name) {
                proof {
                    lemma_find_skip(keys, name@, Seq::empty(), i as int);
                    assert forall|key: Seq<char>| encode_utf8(key) == name@ implies find_key(
                        keys,
                        key,
                        0,
                    ) == Some(i as int) by {
                        assert forall|l: int| 0 <= l < i implies #[trigger] keys[l] != key by {
                            assert(encode_utf8(keys[l]) != name@);
                        }
                        lemma_find_skip(keys, name@, key, i as int);
                        lemma_encode_injective(keys[i as int], key);
                    }
                }
                return Some(i);
            }
            i = i + 1;
        }
        proof {
            lemma_find_skip(keys, name@, Seq::empty(), i as int);
            assert forall|key: Seq<char>| encode_utf8(key) == name@ implies find_key(
                keys,
                key,
                0,
            ) is None by {
                assert forall|l: int| 0 <= l < i implies #[trigger] keys[l] != key by {
                    assert(encode_utf8(keys[l]) != name@);
                }
                lemma_find_skip(keys, name@, key, i as int);
            }
        }
        None
    }

    /// The value held under the key whose UTF-8 encoding is `name`.
    pub fn get_bytes(&self, name: &[u8]) -> (r: Option<&V>)
        ensures
            deref_opt(r) == value_of_bytes(self.keyed(), name@),
    {
        match self.find_bytes(name) {
            Some(i) => {
                assert(self.keyed()[i as int].1 == self.entries@[i as int].1);
                Some(&self.entries[i].1)
            },
            None => None,
        }
    }

    /// The value held under the first key equal to `key` regardless of ASCII case.
    pub fn get_ignoring_ascii_case(&self, key: &str) -> (r: Option<&V>)
        ensures
            deref_opt(r) == value_of_folded(self.keyed(), key@),
    {
        let ghost keys = key_seq(self.keyed());
        let mut i: usize = 0;
        while i < self.entries.len()
            invariant
                i <= self.entries@.len(),
                keys == key_seq(self.keyed()),
                keys.len() == self.entries@.len(),
                find_key_folded(keys, key@, 0) == find_key_folded(keys, key@, i as int),
            decreases self.entries@.len() - i,
        {
            assert(keys[i as int] == self.entries@[i as int].0@);
            if same_ignoring_ascii_case(self.entries[i].0.as_str(), key) {
                assert(self.keyed()[i as int].1 == self.entries@[i as int].1);
                return Some(&self.entries[i].1);
            }
            i = i + 1;
        }
        None
    }

    /// The value held under `key`.
    pub fn get(&self, key: &str) -> (r: Option<&V>)
        ensures
            deref_opt(r) == self.spec_get(key@),
    {
        let found = self.find_bytes(key.as_bytes());
        assert(find_key(key_seq(self.keyed()), key@, 0) == match found {
            Some(i) => Some(i as int),
            None => None::<int>,
        });
        match found {
            Some(i) => {
                assert(self.keyed()[i as int].1 == self.entries@[i as int].1);
                Some(&self.entries[i].1)
            },
            None => None,
        }
    }

    /// Sets the value held under `key`: an entry with that key keeps its place and takes
    /// the new value; otherwise a new entry is appended.
    pub fn insert(&mut self, key: String, value: V)
        ensures
            final(self).keyed() == with_entry(old(self).keyed(), key@, value),
    {
        proof {
            use_type_invariant(&*self);
        }
        let found = self.find_bytes(key.as_str().as_bytes());
        let ghost before = self.keyed();
        assert(find_key(key_seq(before), key@, 0) == match found {
            Some(i) => Some(i as int),
            None => None::<int>,
        });
        let mut entries = Vec::new();
        std::mem::swap(&mut entries, &mut self.entries);
        match found {
            Some(i) => {
                let k = entries[i].0.clone();
                let ghost old_entries = entries@;
                entries.set(i, (k, value));
                proof {
                    lemma_find_key(key_seq(before), key@, 0);
                    assert(entries@.map_values(|e: (String, V)| (e.0@, e.1)) =~= before.update(
                        i as int,
                        (key@, value),
                    ));
                    assert forall|a: int, b: int|
                        0 <= a < b < entries@.len() implies entries@[a].0@ != entries@[b].0@ by {
                        assert(entries@[a].0@ == old_entries[a].0@);
                        assert(entries@[b].0@ == old_entries[b].0@);
                        assert(key_seq(before)[a] == old_entries[a].0@);
                        assert(key_seq(before)[b] == old_entries[b].0@);
                    }
                }
                self.entries = entries;
                proof {
                    assert(key_seq(self.keyed()) =~= key_seq(before));
                }
            },
            None => {
                let ghost old_entries = entries@;
                let ghost kv = key@;
                entries.push((key, value));
                proof {
                    lemma_find_key(key_seq(before), kv, 0);
                    assert(entries@.map_values(|e: (String, V)| (e.0@, e.1)) =~= before.push(
                        (kv, value),
                    ));
                    assert forall|a: int, b: int|
                        0 <= a < b < entries@.len() implies entries@[a].0@ != entries@[b].0@ by {
                        assert(key_seq(before)[a] == old_entries[a].0@);
                        if b < old_entries.len() {
                            assert(key_seq(before)[b] == old_entries[b].0@);
                        }
                    }
                }
                self.entries = entries;
                proof {
                    assert(key_seq(self.keyed()) =~= key_seq(before).push(kv));
                }
            },
        }
    }
}

impl StrMap<String> {
    /// The entries in insertion order, keys and values taken as text.
    pub open spec fn text(&self) -> Seq<(Seq<char>, Seq<char>)> {
        self.keyed().map_values(|e: (Seq<char>, String)| (e.0, e.1@))
    }

    /// An entry-by-entry copy.
    pub fn copy(&self) -> (r: Self)
        ensures
            r.keyed() == self.keyed(),
    {
        proof {
            use_type_invariant(self);
        }
        let mut entries: Vec<(String, String)> = Vec::new();
        let mut i: usize = 0;
        while i < self.entries.len()
            invariant
                i <= self.entries@.len(),
                entries@.len() == i,
                forall|l: int| 0 <= l < i ==> #[trigger] entries@[l] == self.entries@[l],
            decreases self.entries@.len() - i,
        {
            let e = &self.entries[i];
            entries.push((e.0.clone(), e.1.clone()));
            i = i + 1;
        }
        assert(entries@ =~= self.entries@);
        StrMap { entries }
    }
}

impl<V: Clone> Clone for StrMap<V> {
    /// An entry-by-entry copy: the same keys in the same order, each value cloned.
    fn clone(&self) -> (r: Self)
        ensures
            key_seq(r.keyed()) == key_seq(self.keyed()),
    {
        proof {
            use_type_invariant(self);
        }
        let mut entries: Vec<(String, V)> = Vec::new();
        let mut i: usize = 0;
        while i < self.entries.len()
            invariant
                i <= self.entries@.len(),
                entries@.len() == i,
                forall|l: int| 0 <= l < i ==> #[trigger] entries@[l].0@ == self.entries@[l].0@,
            decreases self.entries@.len() - i,
        {
            let e = &self.entries[i];
            entries.push((e.0.clone(), e.1.clone()));
            i = i + 1;
        }
        let ghost keys = entries@.map_values(|e: (String, V)| e.0@);
        assert(keys =~= key_seq(self.keyed()));
        assert(key_seq(entries@.map_values(|e: (String, V)| (e.0@, e.1))) =~= keys);
        StrMap { entries }
    }
}

/// The text entries and the entries share their keys.
pub proof fn lemma_text_keys(m: StrMap<String>)
    ensures
        key_seq(m.text()) == key_seq(m.keyed()),
        m.text().len() == m.keyed().len(),
        forall|i: int| 0 <= i < m.keyed().len() ==> #[trigger] m.text()[i].1 == m.keyed()[i].1@,
{
    assert(key_seq(m.text()) =~= key_seq(m.keyed()));
}

/// Setting a key and taking the text of the values commute.
pub proof fn lemma_text_with_entry(m: StrMap<String>, key: Seq<char>, value: String, m2: StrMap<String>)
    requires
        m2.keyed() == with_entry(m.keyed(), key, value),
    ensures
        m2.text() == with_entry(m.text(), key, value@),
{
    lemma_text_keys(m);
    lemma_find_key(key_seq(m.keyed()), key, 0);
    assert(m2.text() =~= with_entry(m.text(), key, value@));
}

/// Looking a key up regardless of ASCII case among the text entries gives the text of
/// what looking it up among the entries gives.
pub proof fn lemma_text_value_of_folded(m: StrMap<String>, key: Seq<char>)
    ensures
        value_of_folded(m.text(), key) == match value_of_folded(m.keyed(), key) {
            Some(v) => Some(v@),
            None => None::<Seq<char>>,
        },
{
    lemma_text_keys(m);
    lemma_find_key_folded_bounds(key_seq(m.keyed()), key, 0);
}

/// A position that `find_key_folded` finds lies inside the keys.
proof fn lemma_find_key_folded_bounds(keys: Seq<Seq<char>>, key: Seq<char>, i: int)
    ensures
        find_key_folded(keys, key, i) matches Some(j) ==> i <= j < keys.len(),
    decreases keys.len() - i,
{
    if 0 <= i < keys.len() {
        lemma_find_key_folded_bounds(keys, key, i + 1);
    }
}

/// Looking a key up among the text entries gives the text of what looking it up among
/// the entries gives.
pub proof fn lemma_text_value_of(m: StrMap<String>, key: Seq<char>)
    ensures
        value_of(m.text(), key) == match value_of(m.keyed(), key) {
            Some(v) => Some(v@),
            None => None::<Seq<char>>,
        },
{
    lemma_text_keys(m);
    lemma_find_key(key_seq(m.keyed()), key, 0);
}

} // verus!
