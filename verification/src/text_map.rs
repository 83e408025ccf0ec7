//! A map from texts to values, kept in the order of insertion.

use crate::text;
use crate::text::{owned, str_eq};
use vstd::prelude::*;

verus! {

/// A map from texts to values.
#[derive(Debug)]
pub struct TextMap<V> {
    entries: Vec<(String, V)>,
}

/// Where a key stands among entries, from the `k`-th on.
pub closed spec fn position<V>(entries: Seq<(String, V)>, key: Seq<char>, k: int) -> Option<int>
    decreases entries.len() - k,
{
    if k >= entries.len() {
        None
    } else if entries[k].0@ == key {
        Some(k)
    } else {
        position(entries, key, k + 1)
    }
}

/// Whether no key stands twice.
pub closed spec fn keys_differ<V>(entries: Seq<(String, V)>) -> bool {
    forall|i: int, j: int|
        0 <= i < j < entries.len() ==> (#[trigger] entries[i]).0@ != (#[trigger] entries[j]).0@
}

/// What entries map each key to.
pub closed spec fn mapping<V>(entries: Seq<(String, V)>) -> Map<Seq<char>, V> {
    Map::new(
        |key: Seq<char>| position(entries, key, 0) is Some,
        |key: Seq<char>| entries[position(entries, key, 0)->0].1,
    )
}

impl<V> View for TextMap<V> {
    type V = Map<Seq<char>, V>;

    closed spec fn view(&self) -> Map<Seq<char>, V> {
        mapping(self.entries@)
    }
}

proof fn lemma_position<V>(entries: Seq<(String, V)>, key: Seq<char>, k: int)
    requires
        0 <= k,
    ensures
        match position(entries, key, k) {
            Some(i) => k <= i < entries.len() && entries[i].0@ == key,
            None => forall|i: int| k <= i < entries.len() ==> (#[trigger] entries[i]).0@ != key,
        },
    decreases entries.len() - k,
{
    if k < entries.len() && entries[k].0@ != key {
        lemma_position(entries, key, k + 1);
    }
}

/// Where keys differ, an entry is what its key is mapped to.
proof fn lemma_entry<V>(entries: Seq<(String, V)>, i: int)
    requires
        keys_differ(entries),
        0 <= i < entries.len(),
    ensures
        position(entries, entries[i].0@, 0) == Some(i),
        mapping(entries).dom().contains(entries[i].0@),
        mapping(entries)[entries[i].0@] == entries[i].1,
{
    lemma_position(entries, entries[i].0@, 0);
    match position(entries, entries[i].0@, 0) {
        Some(j) => {
            if j < i {
                assert(entries[j].0@ != entries[i].0@);
            } else if i < j {
                assert(entries[i].0@ != entries[j].0@);
            }
        },
        None => {
            assert(entries[i].0@ != entries[i].0@);
        },
    }
}

impl<V> TextMap<V> {
    #[verifier::type_invariant]
    spec fn has_distinct_keys(self) -> bool {
        keys_differ(self.entries@)
    }

    /// A map of nothing.
    pub fn new() -> (r: Self)
        ensures
            r@ == Map::<Seq<char>, V>::empty(),
    {
        let r = TextMap { entries: Vec::new() };
        assert(r@ =~= Map::<Seq<char>, V>::empty());
        r
    }

    /// Where a key stands.
    fn find(&self, key: &str) -> (r: Option<usize>)
        ensures
            match r {
                Some(i) => i < self.entries@.len() && position(self.entries@, key@, 0) == Some(
                    i as int,
                ),
                None => position(self.entries@, key@, 0) is None,
            },
    {
        let mut k: usize = 0;
        while k < self.entries.len()
            invariant
                k <= self.entries@.len(),
                position(self.entries@, key@, 0) == position(self.entries@, key@, k as int),
            decreases self.entries@.len() - k,
        {
            if str_eq(self.entries[k].0.as_str(), key) {
                return Some(k);
            }
            k = k + 1;
        }
        None
    }

    /// What a key is mapped to.
    pub fn get(&self, key: &str) -> (r: Option<&V>)
        ensures
            match r {
                Some(v) => self@.dom().contains(key@) && self@[key@] == *v,
                None => !self@.dom().contains(key@),
            },
    {
        match self.find(key) {
            Some(i) => Some(&self.entries[i].1),
            None => None,
        }
    }

    /// Whether a key is mapped to anything.
    pub fn contains_key(&self, key: &str) -> (r: bool)
        ensures
            r == self@.dom().contains(key@),
    {
        self.find(key).is_some()
    }

    /// Maps a key to a value, and gives back what it was mapped to.
    pub fn insert(&mut self, key: &str, value: V) -> (r: Option<V>)
        ensures
            final(self)@ == old(self)@.insert(key@, value),
            match r {
                Some(v) => old(self)@.dom().contains(key@) && old(self)@[key@] == v,
                None => !old(self)@.dom().contains(key@),
            },
    {
        let before = self.remove(key);
        let ghost gone = self@;
        let mut entries: Vec<(String, V)> = Vec::new();
        proof {
            use_type_invariant(&*self);
        }
        std::mem::swap(&mut entries, &mut self.entries);
        let ghost was = entries@;
        entries.push((owned(key), value));
        proof {
            lemma_position(was, key@, 0);
            assert(position(was, key@, 0) is None) by {
                assert(!gone.dom().contains(key@));
            }
            assert(keys_differ(entries@));
            assert forall|k: Seq<char>| #[trigger]
                mapping(entries@).dom().contains(k) <==> gone.insert(key@, value).dom().contains(
                    k,
                ) by {
                lemma_position(was, k, 0);
                lemma_position(entries@, k, 0);
                if let Some(i) = position(was, k, 0) {
                    assert(entries@[i] == was[i]);
                }
                if k == key@ {
                    assert(entries@[was.len() as int].0@ == k);
                }
            }
            assert forall|k: Seq<char>| mapping(entries@).dom().contains(k) implies #[trigger] mapping(
                entries@,
            )[k] == gone.insert(key@, value)[k] by {
                if k == key@ {
                    lemma_entry(entries@, was.len() as int);
                } else {
                    lemma_position(was, k, 0);
                    let i = position(was, k, 0)->0;
                    assert(entries@[i] == was[i]);
                    lemma_entry(entries@, i);
                }
            }
            assert(mapping(entries@) =~= gone.insert(key@, value));
            assert(gone.insert(key@, value) =~= old(self)@.insert(key@, value));
        }
        self.entries = entries;
        before
    }

    /// Takes a key out, and gives back what it was mapped to.
    pub fn remove(&mut self, key: &str) -> (r: Option<V>)
        ensures
            final(self)@ == old(self)@.remove(key@),
            match r {
                Some(v) => old(self)@.dom().contains(key@) && old(self)@[key@] == v,
                None => !old(self)@.dom().contains(key@),
            },
    {
        proof {
            use_type_invariant(&*self);
        }
        let i: usize = match self.find(key) {
            Some(i) => i,
            None => {
                assert(self@.remove(key@) =~= self@);
                return None;
            },
        };
        let ghost before = self@;
        let mut entries: Vec<(String, V)> = Vec::new();
        std::mem::swap(&mut entries, &mut self.entries);
        let ghost was = entries@;
        let (_, value) = entries.remove(i);
        proof {
            assert forall|a: int, b: int| 0 <= a < b < entries@.len() implies (
            #[trigger] entries@[a]).0@ != (#[trigger] entries@[b]).0@ by {
                let x = if a < i {
                    a
                } else {
                    a + 1
                };
                let y = if b < i {
                    b
                } else {
                    b + 1
                };
                assert(entries@[a] == was[x] && entries@[b] == was[y]);
            }
            lemma_position(was, key@, 0);
            lemma_entry(was, i as int);
            assert(before == mapping(was));
            assert forall|k: Seq<char>| #[trigger]
                mapping(entries@).dom().contains(k) <==> before.remove(key@).dom().contains(k) by {
                lemma_position(was, k, 0);
                lemma_position(entries@, k, 0);
                if let Some(j) = position(was, k, 0) {
                    if j < i {
                        assert(entries@[j] == was[j]);
                    } else if j > i {
                        assert(entries@[j - 1] == was[j]);
                    }
                }
                if let Some(j) = position(entries@, k, 0) {
                    let x = if j < i {
                        j
                    } else {
                        j + 1
                    };
                    assert(entries@[j] == was[x]);
                    lemma_entry(was, x);
                    assert(k != key@);
                }
            }
            assert forall|k: Seq<char>| mapping(entries@).dom().contains(k) implies #[trigger] mapping(
                entries@,
            )[k] == before.remove(key@)[k] by {
                lemma_position(entries@, k, 0);
                let j = position(entries@, k, 0)->0;
                let x = if j < i {
                    j
                } else {
                    j + 1
                };
                assert(entries@[j] == was[x]);
                lemma_entry(was, x);
            }
            assert(mapping(entries@) =~= before.remove(key@));
        }
        self.entries = entries;
        Some(value)
    }

    /// The keys, in the order of insertion.
    pub fn keys(&self) -> (r: Vec<String>)
        ensures
            text::texts(r@).no_duplicates(),
            forall|k: Seq<char>| #[trigger] text::texts(r@).contains(k) <==> self@.dom().contains(k),
    {
        proof {
            use_type_invariant(self);
        }
        let ghost all = self.entries@;
        let mut r: Vec<String> = Vec::new();
        let mut i: usize = 0;
        while i < self.entries.len()
            invariant
                i <= self.entries@.len(),
                all == self.entries@,
                r@.len() == i,
                forall|j: int| 0 <= j < i ==> (#[trigger] r@[j])@ == all[j].0@,
            decreases self.entries@.len() - i,
        {
            r.push(owned(self.entries[i].0.as_str()));
            i = i + 1;
        }
        proof {
            let keys = text::texts(r@);
            assert forall|a: int, b: int| 0 <= a < keys.len() && 0 <= b < keys.len() && a != b
                implies keys[a] != keys[b] by {
                assert(r@[a]@ == all[a].0@ && r@[b]@ == all[b].0@);
                if a < b {
                    assert(all[a].0@ != all[b].0@);
                } else {
                    assert(all[b].0@ != all[a].0@);
                }
            }
            assert forall|k: Seq<char>| #[trigger] keys.contains(k) <==> self@.dom().contains(k) by {
                lemma_position(all, k, 0);
                if keys.contains(k) {
                    let j = choose|j: int| 0 <= j < keys.len() && keys[j] == k;
                    assert(r@[j]@ == all[j].0@);
                }
                if let Some(j) = position(all, k, 0) {
                    assert(r@[j]@ == all[j].0@);
                    assert(keys[j] == k);
                }
            }
        }
        r
    }

    /// Whether no key is mapped to anything.
    pub fn is_empty(&self) -> (r: bool)
        ensures
            r == (self@ == Map::<Seq<char>, V>::empty()),
    {
        proof {
            if self.entries@.len() == 0 {
                assert(self@ =~= Map::<Seq<char>, V>::empty());
            } else {
                let key = self.entries@[0].0@;
                lemma_position(self.entries@, key, 0);
                assert(self@.dom().contains(key));
            }
        }
        self.entries.len() == 0
    }
}

} // verus!
