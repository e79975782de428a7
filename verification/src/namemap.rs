//! A small name-keyed map that keeps insertion order.
use vstd::prelude::*;

use crate::text::str_eq;

verus! {

/// `i` is the last position of `s` whose key is `k`.
pub open spec fn last_key_at<V>(s: Seq<(String, V)>, k: Seq<char>, i: int) -> bool {
    &&& 0 <= i < s.len()
    &&& s[i].0@ == k
    &&& forall|j: int| i < j < s.len() ==> #[trigger] s[j].0@ != k
}

/// The value stored under `k`: that of the last entry with key `k`.
pub open spec fn lookup_entries<V>(s: Seq<(String, V)>, k: Seq<char>) -> Option<V> {
    if exists|i: int| last_key_at(s, k, i) {
        Some(s[choose|i: int| last_key_at(s, k, i)].1)
    } else {
        None
    }
}

/// The last position holding a key is unique.
pub proof fn lemma_last_key_unique<V>(s: Seq<(String, V)>, k: Seq<char>, i: int, j: int)
    requires
        last_key_at(s, k, i),
        last_key_at(s, k, j),
    ensures
        i == j,
{
    if i < j {
        assert(s[j].0@ != k);
    }
    if j < i {
        assert(s[i].0@ != k);
    }
}

/// The entries after storing `v` under `key`: the last entry with that key
/// is replaced in place, or the pair is appended.
pub open spec fn insert_entries<V>(s: Seq<(String, V)>, key: String, v: V) -> Seq<(String, V)> {
    if exists|i: int| last_key_at(s, key@, i) {
        s.update(choose|i: int| last_key_at(s, key@, i), (key, v))
    } else {
        s.push((key, v))
    }
}

/// Sequences with the same keys position by position agree on where each
/// key last occurs.
pub proof fn lemma_same_keys<V>(s1: Seq<(String, V)>, s2: Seq<(String, V)>, k: Seq<char>)
    requires
        s1.len() == s2.len(),
        forall|m: int| 0 <= m < s1.len() ==> #[trigger] s1[m].0@ == s2[m].0@,
    ensures
        forall|j: int| last_key_at(s1, k, j) <==> last_key_at(s2, k, j),
{
    assert forall|j: int| last_key_at(s1, k, j) implies last_key_at(s2, k, j) by {
        assert forall|m: int| j < m < s2.len() implies #[trigger] s2[m].0@ != k by {
            assert(s1[m].0@ != k);
        }
    }
    assert forall|j: int| last_key_at(s2, k, j) implies last_key_at(s1, k, j) by {
        assert forall|m: int| j < m < s1.len() implies #[trigger] s1[m].0@ != k by {
            assert(s2[m].0@ != k);
        }
    }
}

/// Appending an entry with another key keeps where `k` last occurs.
pub proof fn lemma_push_other_key<V>(s1: Seq<(String, V)>, s2: Seq<(String, V)>, k: Seq<char>)
    requires
        s2.len() == s1.len() + 1,
        forall|m: int| 0 <= m < s1.len() ==> #[trigger] s2[m] == s1[m],
        s2[s1.len() as int].0@ != k,
    ensures
        forall|j: int| last_key_at(s1, k, j) <==> last_key_at(s2, k, j),
{
    assert forall|j: int| last_key_at(s1, k, j) implies last_key_at(s2, k, j) by {
        assert forall|m: int| j < m < s2.len() implies #[trigger] s2[m].0@ != k by {
            if m < s1.len() {
                assert(s1[m].0@ != k);
            }
        }
    }
    assert forall|j: int| last_key_at(s2, k, j) implies last_key_at(s1, k, j) by {
        assert(j != s1.len());
        assert(s2[j] == s1[j]);
        assert forall|m: int| j < m < s1.len() implies #[trigger] s1[m].0@ != k by {
            assert(s2[m].0@ != k);
        }
    }
}

/// A map from names to values. Iteration follows insertion order; inserting
/// an existing name replaces its value in place.
#[derive(Debug, Clone)]
pub struct NameMap<V> {
    /// The entries, in insertion order.
    pub entries: Vec<(String, V)>,
}

impl<V> NameMap<V> {
    /// The value stored under `k`.
    pub open spec fn lookup(&self, k: Seq<char>) -> Option<V> {
        lookup_entries(self.entries@, k)
    }

    /// An empty map.
    pub fn new() -> (m: Self)
        ensures
            m.entries@.len() == 0,
            forall|k: Seq<char>| m.lookup(k) is None,
    {
        NameMap { entries: Vec::new() }
    }

    /// Number of entries.
    pub fn len(&self) -> (n: usize)
        ensures
            n == self.entries@.len(),
    {
        self.entries.len()
    }

    /// Whether the map has no entries.
    pub fn is_empty(&self) -> (r: bool)
        ensures
            r == (self.entries@.len() == 0),
    {
        self.entries.len() == 0
    }

    /// The position of the entry holding `key`, if any.
    pub fn position(&self, key: &str) -> (r: Option<usize>)
        ensures
            match r {
                Some(i) => last_key_at(self.entries@, key@, i as int),
                None => forall|i: int| !#[trigger] last_key_at(self.entries@, key@, i),
            },
    {
        let mut i = self.entries.len();
        while i > 0
            invariant
                i <= self.entries@.len(),
                forall|j: int| i <= j < self.entries@.len() ==> #[trigger] self.entries@[j].0@
                    != key@,
            decreases i,
        {
            i = i - 1;
            if str_eq(self.entries[i].0.as_str(), key) {
                return Some(i);
            }
        }
        proof {
            assert forall|i: int| !#[trigger] last_key_at(self.entries@, key@, i) by {
                if last_key_at(self.entries@, key@, i) {
                    assert(self.entries@[i].0@ == key@);
                }
            }
        }
        None
    }

    /// The value stored under `key`.
    pub fn get(&self, key: &str) -> (r: Option<&V>)
        ensures
            match r {
                Some(v) => self.lookup(key@) == Some(*v),
                None => self.lookup(key@) is None,
            },
    {
        match self.position(key) {
            Some(i) => {
                proof {
                    let c = choose|j: int| last_key_at(self.entries@, key@, j);
                    lemma_last_key_unique(self.entries@, key@, c, i as int);
                }
                Some(&self.entries[i].1)
            },
            None => None,
        }
    }

    /// Whether a value is stored under `key`.
    pub fn contains_key(&self, key: &str) -> (r: bool)
        ensures
            r == (self.lookup(key@) is Some),
    {
        self.get(key).is_some()
    }

    /// Stores `value` under `key`, replacing any earlier value.
    pub fn insert(&mut self, key: String, value: V)
        ensures
            final(self).entries@ == insert_entries(old(self).entries@, key, value),
            forall|k: Seq<char>| #[trigger]
                final(self).lookup(k) == if k == key@ {
                    Some(value)
                } else {
                    old(self).lookup(k)
                },
    {
        let ghost old_entries = self.entries@;
        match self.position(key.as_str()) {
            Some(i) => {
                let ghost kv = key@;
                let ghost kk = key;
                self.entries.set(i, (key, value));
                proof {
                    let c = choose|j: int| last_key_at(old_entries, kv, j);
                    lemma_last_key_unique(old_entries, kv, c, i as int);
                    assert(self.entries@ == insert_entries(old_entries, kk, value));
                    let s = self.entries@;
                    assert forall|k: Seq<char>| #[trigger]
                        lookup_entries(s, k) == if k == kv {
                            Some(value)
                        } else {
                            lookup_entries(old_entries, k)
                        } by {
                        if k == kv {
                            assert(last_key_at(s, k, i as int));
                            let c = choose|j: int| last_key_at(s, k, j);
                            lemma_last_key_unique(s, k, c, i as int);
                        } else {
                            assert(old_entries[i as int].0@ == kv);
                            lemma_same_keys(s, old_entries, k);
                            if exists|j: int| last_key_at(s, k, j) {
                                let c1 = choose|j: int| last_key_at(s, k, j);
                                let c2 = choose|j: int| last_key_at(old_entries, k, j);
                                lemma_last_key_unique(s, k, c1, c2);
                            }
                        }
                    }
                }
            },
            None => {
                let ghost kv = key@;
                self.entries.push((key, value));
                proof {
                    let s = self.entries@;
                    let n = old_entries.len() as int;
                    assert forall|k: Seq<char>| #[trigger]
                        lookup_entries(s, k) == if k == kv {
                            Some(value)
                        } else {
                            lookup_entries(old_entries, k)
                        } by {
                        if k == kv {
                            assert(last_key_at(s, k, n));
                            let c = choose|j: int| last_key_at(s, k, j);
                            lemma_last_key_unique(s, k, c, n);
                        } else {
                            lemma_push_other_key(old_entries, s, k);
                            if exists|j: int| last_key_at(s, k, j) {
                                let c1 = choose|j: int| last_key_at(s, k, j);
                                let c2 = choose|j: int| last_key_at(old_entries, k, j);
                                lemma_last_key_unique(s, k, c1, c2);
                            }
                        }
                    }
                }
            },
        }
    }
}

} // verus!
