//! A map keyed by text, kept as a list in which no key occurs twice.
//!
//! vstd specifies std's `HashMap` only for keys whose hashing it knows,
//! and `String` is none of them: of a `HashMap<String, V>` nothing could
//! be proved, so the map is kept here.

use vstd::prelude::*;
use crate::text::same_text;

verus! {

/// A map from text to values of type `V`. Its view is a `Map` from the
/// characters of a key to the deep view of its value.
#[derive(Debug)]
pub struct TextMap<V> {
    entries: Vec<(String, V)>,
}

/// Whether no key occurs twice among the entries.
pub open spec fn distinct_keys<V>(entries: Seq<(String, V)>) -> bool {
    forall|i: int, j: int|
        0 <= i < j < entries.len() ==> (#[trigger] entries[i]).0@ != (#[trigger] entries[j]).0@
}

/// Whether the entry at position `i` has the key `key`.
pub open spec fn key_at<V>(entries: Seq<(String, V)>, key: Seq<char>, i: int) -> bool {
    0 <= i < entries.len() && entries[i].0@ == key
}

/// The map that a list of entries stands for.
pub open spec fn entries_map<V: DeepView>(entries: Seq<(String, V)>) -> Map<Seq<char>, V::V> {
    Map::new(
        |key: Seq<char>| exists|i: int| key_at(entries, key, i),
        |key: Seq<char>| entries[choose|i: int| key_at(entries, key, i)].1.deep_view(),
    )
}

/// Where no key occurs twice, the entry with a key gives the value of
/// that key.
pub proof fn lemma_entry_gives_value<V: DeepView>(entries: Seq<(String, V)>, i: int)
    requires
        distinct_keys(entries),
        0 <= i < entries.len(),
    ensures
        entries_map(entries).dom().contains(entries[i].0@),
        entries_map(entries)[entries[i].0@] == entries[i].1.deep_view(),
{
    let key = entries[i].0@;
    assert(key_at(entries, key, i));
    let chosen = choose|c: int| key_at(entries, key, c);
    assert(chosen == i);
}

impl<V> TextMap<V> {
    #[verifier::type_invariant]
    spec fn keys_are_distinct(self) -> bool {
        distinct_keys(self.entries@)
    }
}

impl<V: DeepView> TextMap<V> {
    /// The map that this value stands for.
    pub closed spec fn view(&self) -> Map<Seq<char>, V::V> {
        entries_map(self.entries@)
    }

    /// The map without entries.
    pub fn new() -> (map: Self)
        ensures
            map@ == Map::<Seq<char>, V::V>::empty(),
    {
        let map = TextMap { entries: Vec::new() };
        assert(map@ =~= Map::<Seq<char>, V::V>::empty());
        map
    }

    /// The entries of the map, each key once, in the order in which the
    /// keys first came.
    pub fn entries(&self) -> (entries: &Vec<(String, V)>)
        ensures
            distinct_keys(entries@),
            entries_map(entries@) == self@,
    {
        proof {
            use_type_invariant(self);
        }
        &self.entries
    }

    /// The position of the entry with the given key, if there is one.
    fn position(&self, key: &str) -> (found: Option<usize>)
        ensures
            match found {
                Some(i) => key_at(self.entries@, key@, i as int),
                None => !self@.dom().contains(key@),
            },
    {
        let mut i: usize = 0;
        while i < self.entries.len()
            invariant
                i <= self.entries.len(),
                forall|j: int| 0 <= j < i ==> !key_at(self.entries@, key@, j),
            decreases self.entries.len() - i,
        {
            if same_text(self.entries[i].0.as_str(), key) {
                return Some(i);
            }
            i += 1;
        }
        None
    }

    /// Whether the map has an entry for the key.
    pub fn contains_key(&self, key: &str) -> (found: bool)
        ensures
            found == self@.dom().contains(key@),
    {
        match self.position(key) {
            Some(_) => true,
            None => false,
        }
    }

    /// The value stored for the key, if there is one.
    pub fn get(&self, key: &str) -> (value: Option<&V>)
        ensures
            match value {
                Some(v) => self@.dom().contains(key@) && v.deep_view() == self@[key@],
                None => !self@.dom().contains(key@),
            },
    {
        match self.position(key) {
            Some(i) => {
                proof {
                    use_type_invariant(self);
                    lemma_entry_gives_value(self.entries@, i as int);
                }
                Some(&self.entries[i].1)
            },
            None => None,
        }
    }

    /// Stores the value under the key. A value that the key had before is
    /// replaced; all other entries stay as they are.
    pub fn insert(&mut self, key: String, value: V)
        ensures
            final(self)@ == old(self)@.insert(key@, value.deep_view()),
    {
        proof {
            use_type_invariant(&*self);
        }
        let ghost before = self.entries@;
        let ghost k = key@;
        let ghost v = value.deep_view();
        let found = self.position(key.as_str());
        let mut taken = TextMap { entries: Vec::new() };
        core::mem::swap(self, &mut taken);
        let mut entries = taken.entries;
        match found {
            Some(i) => {
                entries.set(i, (key, value));
            },
            None => {
                entries.push((key, value));
            },
        }
        let ghost after = entries@;
        proof {
            assert(taken.entries@ == before);
            assert forall|i: int, j: int| 0 <= i < j < after.len() implies (#[trigger] after[i]).0@
                != (#[trigger] after[j]).0@ by {
                match found {
                    Some(p) => {
                        assert(after[i].0@ == before[i].0@);
                        assert(after[j].0@ == before[j].0@);
                    },
                    None => {
                        if j == before.len() {
                            assert(!key_at(before, k, i));
                        }
                    },
                }
            }
            assert forall|name: Seq<char>|
                entries_map(after).dom().contains(name) <==> #[trigger] entries_map(before).insert(
                    k,
                    v,
                ).dom().contains(name) by {
                if entries_map(after).dom().contains(name) {
                    let a = choose|a: int| key_at(after, name, a);
                    if name != k {
                        assert(key_at(before, name, a));
                    }
                }
                if entries_map(before).dom().contains(name) {
                    let b = choose|b: int| key_at(before, name, b);
                    assert(key_at(after, name, b));
                }
                if name == k {
                    match found {
                        Some(i) => {
                            assert(key_at(after, name, i as int));
                        },
                        None => {
                            assert(key_at(after, name, before.len() as int));
                        },
                    }
                }
            }
            assert forall|name: Seq<char>| #[trigger]
                entries_map(after).dom().contains(name) implies entries_map(after)[name]
                == entries_map(before).insert(k, v)[name] by {
                let a = choose|a: int| key_at(after, name, a);
                lemma_entry_gives_value(after, a);
                let at = match found {
                    Some(p) => p as int,
                    None => before.len() as int,
                };
                assert(after[at].0@ == k && after[at].1.deep_view() == v);
                if name != k {
                    assert(a != at);
                    assert(after[a] == before[a]);
                    assert(key_at(before, name, a));
                    lemma_entry_gives_value(before, a);
                } else if a < at {
                    assert(after[a].0@ != after[at].0@);
                } else if at < a {
                    assert(after[at].0@ != after[a].0@);
                }
            }
            assert(entries_map(after) =~= entries_map(before).insert(k, v));
        }
        *self = TextMap { entries };
    }
}

} // verus!
