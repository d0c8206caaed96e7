//! A map keyed by digests whose entries are kept in ascending key order, so
//! that walking it is deterministic.

use vstd::prelude::*;
use crate::hash::{Digest, hash_lt, lemma_hash_order};

verus! {

/// Keys strictly ascending.
pub open spec fn keys_ascending<V>(s: Seq<(Digest, V)>) -> bool {
    forall|i: int, j: int| 0 <= i < j < s.len() ==> hash_lt(#[trigger] s[i].0, #[trigger] s[j].0)
}

/// Every key at most once.
pub open spec fn keys_unique<V>(s: Seq<(Digest, V)>) -> bool {
    forall|i: int, j: int| 0 <= i < s.len() && 0 <= j < s.len() && i != j ==> #[trigger] s[i].0 != #[trigger] s[j].0
}

/// The value that the first entry with key `k` holds.
pub open spec fn lookup<K, V>(s: Seq<(K, V)>, k: K) -> Option<V>
    decreases s.len(),
{
    if s.len() == 0 {
        None
    } else if s[0].0 == k {
        Some(s[0].1)
    } else {
        lookup(s.drop_first(), k)
    }
}

pub proof fn lemma_ascending_unique<V>(s: Seq<(Digest, V)>)
    requires
        keys_ascending(s),
    ensures
        keys_unique(s),
{
    assert forall|i: int, j: int| 0 <= i < s.len() && 0 <= j < s.len() && i != j implies #[trigger] s[i].0 != #[trigger] s[j].0 by {
        lemma_hash_order(s[i].0, s[j].0, s[j].0);
        lemma_hash_order(s[j].0, s[i].0, s[i].0);
    }
}

/// In a sequence with unique keys, the lookup of an entry's key gives its value.
pub proof fn lemma_lookup_at<V>(s: Seq<(Digest, V)>, i: int)
    requires
        keys_unique(s),
        0 <= i < s.len(),
    ensures
        lookup(s, s[i].0) == Some(s[i].1),
    decreases s.len(),
{
    if i > 0 {
        let t = s.drop_first();
        assert(s[0].0 != s[i].0);
        assert(keys_unique(t)) by {
            assert forall|a: int, b: int| 0 <= a < t.len() && 0 <= b < t.len() && a != b implies #[trigger] t[a].0 != #[trigger] t[b].0 by {
                assert(t[a] == s[a + 1] && t[b] == s[b + 1]);
            }
        }
        lemma_lookup_at(t, i - 1);
    }
}

/// The lookup of a key that no entry holds gives nothing.
pub proof fn lemma_lookup_absent<K, V>(s: Seq<(K, V)>, k: K)
    requires
        forall|i: int| 0 <= i < s.len() ==> s[i].0 != k,
    ensures
        lookup(s, k) is None,
    decreases s.len(),
{
    if s.len() > 0 {
        let t = s.drop_first();
        assert forall|i: int| 0 <= i < t.len() implies t[i].0 != k by {
            assert(t[i] == s[i + 1]);
        }
        lemma_lookup_absent(t, k);
    }
}

/// The value that the last entry with key `k` holds.
pub open spec fn last_value<K, V>(s: Seq<(K, V)>, k: K) -> Option<V>
    decreases s.len(),
{
    if s.len() == 0 {
        None
    } else if s.last().0 == k {
        Some(s.last().1)
    } else {
        last_value(s.drop_last(), k)
    }
}

/// Entries of a map, ascending by key.
#[derive(Debug, PartialEq, Eq)]
pub struct KeyMap<V> {
    entries: Vec<(Digest, V)>,
}

impl<V> View for KeyMap<V> {
    type V = Seq<(Digest, V)>;

    closed spec fn view(&self) -> Seq<(Digest, V)> {
        self.entries@
    }
}

impl<V: Clone> Clone for KeyMap<V> {
    /// A map with the same keys, each with a clone of its value.
    fn clone(&self) -> (r: KeyMap<V>)
        ensures
            r@.len() == self@.len(),
            forall|i: int| 0 <= i < r@.len() ==> (#[trigger] r@[i]).0 == self@[i].0,
    {
        proof {
            use_type_invariant(self);
        }
        let n = self.entries.len();
        let mut entries: Vec<(Digest, V)> = Vec::new();
        let mut i: usize = 0;
        while i < n
            invariant
                n == self@.len(),
                i <= n,
                keys_ascending(self@),
                entries@.len() == i,
                forall|j: int| 0 <= j < i ==> (#[trigger] entries@[j]).0 == self@[j].0,
            decreases n - i,
        {
            let e = &self.entries[i];
            entries.push((e.0, e.1.clone()));
            i += 1;
        }
        KeyMap { entries }
    }
}

impl<V> KeyMap<V> {
    #[verifier::type_invariant]
    closed spec fn ascending(&self) -> bool {
        keys_ascending(self.entries@)
    }

    /// The entries are ascending by key.
    pub fn is_ascending(&self)
        ensures
            keys_ascending(self@),
            keys_unique(self@),
    {
        proof {
            use_type_invariant(self);
            lemma_ascending_unique(self@);
        }
    }

    /// An empty map.
    pub fn new() -> (r: KeyMap<V>)
        ensures
            r@ == Seq::<(Digest, V)>::empty(),
    {
        KeyMap { entries: Vec::new() }
    }

    /// Number of entries.
    pub fn len(&self) -> (r: usize)
        ensures
            r == self@.len(),
    {
        self.entries.len()
    }

    /// The entry at `i` in key order.
    pub fn entry_at(&self, i: usize) -> (r: &(Digest, V))
        requires
            i < self@.len(),
        ensures
            *r == self@[i as int],
    {
        &self.entries[i]
    }

    /// Index of the first entry whose key is not below `k`, and whether its key is `k`.
    fn position(&self, k: &Digest) -> (r: (usize, bool))
        ensures
            r.0 <= self@.len(),
            forall|j: int| 0 <= j < r.0 ==> hash_lt(#[trigger] self@[j].0, *k),
            forall|j: int| r.0 <= j < self@.len() ==> (#[trigger] self@[j].0 == *k && j == r.0) || hash_lt(*k, self@[j].0),
            r.1 == (r.0 < self@.len() && self@[r.0 as int].0 == *k),
            !r.1 ==> forall|j: int| 0 <= j < self@.len() ==> #[trigger] self@[j].0 != *k,
    {
        proof {
            use_type_invariant(self);
        }
        proof {
            lemma_hash_order(*k, *k, *k);
        }
        let n = self.entries.len();
        let mut i: usize = 0;
        while i < n && self.entries[i].0.lt(k)
            invariant
                n == self@.len(),
                i <= n,
                keys_ascending(self@),
                forall|j: int| 0 <= j < i ==> hash_lt(#[trigger] self@[j].0, *k),
            decreases n - i,
        {
            i += 1;
        }
        if i < n {
            let found = self.entries[i].0 == *k;
            proof {
                let ki = self@[i as int].0;
                lemma_hash_order(ki, *k, ki);
                if found {
                    crate::hash::lemma_hash_eq(ki, *k);
                }
                assert forall|j: int| i <= j < self@.len() implies (#[trigger] self@[j].0 == *k && j == i) || hash_lt(*k, self@[j].0) by {
                    if j > i {
                        lemma_hash_order(*k, ki, self@[j].0);
                        lemma_hash_order(ki, self@[j].0, self@[j].0);
                        if found {
                            lemma_hash_order(*k, self@[j].0, self@[j].0);
                        }
                    }
                }
            }
            (i, found)
        } else {
            (i, false)
        }
    }

    /// The value held under `k`.
    pub fn get(&self, k: &Digest) -> (r: Option<&V>)
        ensures
            r is Some <==> lookup(self@, *k) is Some,
            r matches Some(v) ==> lookup(self@, *k) == Some(*v),
    {
        self.is_ascending();
        let (i, found) = self.position(k);
        if found {
            proof {
                lemma_lookup_at(self@, i as int);
            }
            Some(&self.entries[i].1)
        } else {
            proof {
                lemma_lookup_absent(self@, *k);
            }
            None
        }
    }

    /// Whether a value is held under `k`.
    pub fn contains_key(&self, k: &Digest) -> (r: bool)
        ensures
            r == (lookup(self@, *k) is Some),
    {
        self.get(k).is_some()
    }

    /// Holds `v` under `k`, in place of any earlier value, which is returned.
    pub fn insert(&mut self, k: Digest, v: V) -> (r: Option<V>)
        ensures
            r == lookup(old(self)@, k),
            lookup(final(self)@, k) == Some(v),
            forall|x: Digest| x != k ==> lookup(#[trigger] final(self)@, x) == lookup(old(self)@, x),
            (forall|j: int| 0 <= j < old(self)@.len() ==> hash_lt(#[trigger] old(self)@[j].0, k))
                ==> final(self)@ == old(self)@.push((k, v)),
    {
        self.is_ascending();
        let ghost s = self@;
        let (i, found) = self.position(&k);
        let mut entries = Vec::new();
        std::mem::swap(&mut entries, &mut self.entries);
        let r;
        if found {
            proof {
                lemma_lookup_at(s, i as int);
                lemma_hash_order(k, k, k);
                assert(!hash_lt(s[i as int].0, k));
            }
            let (_, old_v) = entries.remove(i);
            entries.insert(i, (k, v));
            r = Some(old_v);
            let ghost t = entries@;
            assert(t =~= s.update(i as int, (k, v)));
            proof {
                assert(keys_ascending(t)) by {
                    assert forall|a: int, b: int| 0 <= a < b < t.len() implies hash_lt(#[trigger] t[a].0, #[trigger] t[b].0) by {
                        assert(t[a].0 == s[a].0 && t[b].0 == s[b].0);
                    }
                }
            }
        } else {
            proof {
                lemma_lookup_absent(s, k);
            }
            entries.insert(i, (k, v));
            r = None;
            let ghost t = entries@;
            assert(t =~= s.insert(i as int, (k, v)));
            proof {
                assert(keys_ascending(t)) by {
                    assert forall|a: int, b: int| 0 <= a < b < t.len() implies hash_lt(#[trigger] t[a].0, #[trigger] t[b].0) by {
                        if b < i {
                        } else if b == i {
                        } else if a < i {
                            assert(t[b] == s[b - 1]);
                        } else if a == i {
                            assert(t[b] == s[b - 1]);
                        } else {
                            assert(t[a] == s[a - 1] && t[b] == s[b - 1]);
                        }
                    }
                }
                if forall|j: int| 0 <= j < s.len() ==> hash_lt(#[trigger] s[j].0, k) {
                    if i < s.len() {
                        lemma_hash_order(k, k, k);
                        lemma_hash_order(s[i as int].0, k, s[i as int].0);
                    }
                    assert(t =~= s.push((k, v)));
                }
            }
        }
        self.entries = entries;
        proof {
            let t = self@;
            lemma_ascending_unique(t);
            lemma_lookup_at(t, i as int);
            assert forall|x: Digest| x != k implies lookup(#[trigger] self@, x) == lookup(s, x) by {
                if exists|j: int| 0 <= j < s.len() && s[j].0 == x {
                    let j = choose|j: int| 0 <= j < s.len() && s[j].0 == x;
                    lemma_lookup_at(s, j);
                    if found {
                        assert(t[j] == s[j]);
                        lemma_lookup_at(t, j);
                    } else if j < i {
                        assert(t[j] == s[j]);
                        lemma_lookup_at(t, j);
                    } else {
                        assert(t[j + 1] == s[j]);
                        lemma_lookup_at(t, j + 1);
                    }
                } else {
                    lemma_lookup_absent(s, x);
                    assert forall|j: int| 0 <= j < t.len() implies t[j].0 != x by {
                        if j != i {
                            if found || j < i {
                                assert(t[j] == s[j]);
                            } else {
                                assert(t[j] == s[j - 1]);
                            }
                        }
                    }
                    lemma_lookup_absent(t, x);
                }
            }
        }
        r
    }

    /// Drops the value held under `k`, and returns it.
    pub fn remove(&mut self, k: &Digest) -> (r: Option<V>)
        ensures
            r == lookup(old(self)@, *k),
            lookup(final(self)@, *k) is None,
            forall|x: Digest| x != *k ==> lookup(#[trigger] final(self)@, x) == lookup(old(self)@, x),
    {
        self.is_ascending();
        let ghost s = self@;
        let (i, found) = self.position(k);
        if !found {
            proof {
                lemma_lookup_absent(s, *k);
            }
            return None;
        }
        proof {
            lemma_lookup_at(s, i as int);
        }
        let mut entries = Vec::new();
        std::mem::swap(&mut entries, &mut self.entries);
        let (_, old_v) = entries.remove(i);
        let ghost t = entries@;
        assert(t =~= s.remove(i as int));
        proof {
            assert(keys_ascending(t)) by {
                assert forall|a: int, b: int| 0 <= a < b < t.len() implies hash_lt(#[trigger] t[a].0, #[trigger] t[b].0) by {
                    if a < i {
                        if b < i {
                            assert(t[b] == s[b]);
                        } else {
                            assert(t[b] == s[b + 1]);
                        }
                        assert(t[a] == s[a]);
                    } else {
                        assert(t[a] == s[a + 1] && t[b] == s[b + 1]);
                    }
                }
            }
        }
        self.entries = entries;
        proof {
            lemma_ascending_unique(t);
            assert forall|j: int| 0 <= j < t.len() implies t[j].0 != *k by {
                if j < i {
                    assert(t[j] == s[j]);
                } else {
                    assert(t[j] == s[j + 1]);
                }
            }
            lemma_lookup_absent(t, *k);
            assert forall|x: Digest| x != *k implies lookup(#[trigger] self@, x) == lookup(s, x) by {
                if exists|j: int| 0 <= j < s.len() && s[j].0 == x {
                    let j = choose|j: int| 0 <= j < s.len() && s[j].0 == x;
                    lemma_lookup_at(s, j);
                    if j < i {
                        assert(t[j] == s[j]);
                        lemma_lookup_at(t, j);
                    } else {
                        assert(j != i);
                        assert(t[j - 1] == s[j]);
                        lemma_lookup_at(t, j - 1);
                    }
                } else {
                    lemma_lookup_absent(s, x);
                    assert forall|j: int| 0 <= j < t.len() implies t[j].0 != x by {
                        if j < i {
                            assert(t[j] == s[j]);
                        } else {
                            assert(t[j] == s[j + 1]);
                        }
                    }
                    lemma_lookup_absent(t, x);
                }
            }
        }
        Some(old_v)
    }
}

} // verus!
