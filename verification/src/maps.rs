//! Insertion-ordered maps keyed by strings or by integers.
//!
//! Entries keep the order in which their keys were first inserted; keys are
//! distinct. Iteration goes by position.
use vstd::prelude::*;
use crate::text::str_eq;

verus! {

/// A map from strings to values that remembers insertion order.
#[derive(Debug)]
pub struct StrMap<V: View> {
    entries: Vec<(String, V)>,
}

/// Keys of a sequence of pairs are pairwise distinct.
pub open spec fn distinct_keys<K, V>(s: Seq<(K, V)>) -> bool {
    forall|i: int, j: int| 0 <= i < s.len() && 0 <= j < s.len() && i != j ==> s[i].0 != s[j].0
}

/// Some pair of `s` has key `k`.
pub open spec fn has_key<K, V>(s: Seq<(K, V)>, k: K) -> bool {
    exists|i: int| 0 <= i < s.len() && s[i].0 == k
}

/// The position of key `k` in `s` (meaningful when `has_key(s, k)`).
pub open spec fn key_index<K, V>(s: Seq<(K, V)>, k: K) -> int {
    choose|i: int| 0 <= i < s.len() && s[i].0 == k
}

/// The value stored for `k` in `s`, if any.
pub open spec fn lookup<K, V>(s: Seq<(K, V)>, k: K) -> Option<V> {
    if has_key(s, k) {
        Some(s[key_index(s, k)].1)
    } else {
        None
    }
}

/// The keys of `s`, in order.
pub open spec fn keys_of<K, V>(s: Seq<(K, V)>) -> Seq<K> {
    Seq::new(s.len(), |i: int| s[i].0)
}

/// `s` with key `k` set to `v`: replaced in place when present, appended otherwise.
pub open spec fn assoc_insert<K, V>(s: Seq<(K, V)>, k: K, v: V) -> Seq<(K, V)> {
    if has_key(s, k) {
        s.update(key_index(s, k), (k, v))
    } else {
        s.push((k, v))
    }
}

/// `s` without the pair whose key is `k`.
pub open spec fn assoc_remove<K, V>(s: Seq<(K, V)>, k: K) -> Seq<(K, V)> {
    if has_key(s, k) {
        s.remove(key_index(s, k))
    } else {
        s
    }
}

/// With distinct keys, the entry at `i` is the one found for its key.
pub proof fn lemma_lookup_at<K, V>(s: Seq<(K, V)>, i: int)
    requires
        distinct_keys(s),
        0 <= i < s.len(),
    ensures
        has_key(s, s[i].0),
        key_index(s, s[i].0) == i,
        lookup(s, s[i].0) == Some(s[i].1),
{
    assert(0 <= i < s.len() && s[i].0 == s[i].0);
}

/// Inserting keeps keys distinct and maps `k` to `v`; other keys keep their values.
pub proof fn lemma_assoc_insert<K, V>(s: Seq<(K, V)>, k: K, v: V)
    requires
        distinct_keys(s),
    ensures
        distinct_keys(assoc_insert(s, k, v)),
        lookup(assoc_insert(s, k, v), k) == Some(v),
        forall|k2: K| k2 != k ==> lookup(assoc_insert(s, k, v), k2) == lookup(s, k2),
{
    let t = assoc_insert(s, k, v);
    if has_key(s, k) {
        let i = key_index(s, k);
        assert(distinct_keys(t));
        lemma_lookup_at(t, i);
        assert forall|k2: K| k2 != k implies lookup(t, k2) == lookup(s, k2) by {
            if has_key(s, k2) {
                let j = key_index(s, k2);
                assert(t[j] == s[j]);
                lemma_lookup_at(t, j);
            } else {
                if has_key(t, k2) {
                    let j = key_index(t, k2);
                    assert(s[j].0 == k2);
                }
            }
        }
    } else {
        assert(distinct_keys(t));
        lemma_lookup_at(t, s.len() as int);
        assert forall|k2: K| k2 != k implies lookup(t, k2) == lookup(s, k2) by {
            if has_key(s, k2) {
                let j = key_index(s, k2);
                assert(t[j] == s[j]);
                lemma_lookup_at(t, j);
            } else {
                if has_key(t, k2) {
                    let j = key_index(t, k2);
                    assert(s[j].0 == k2);
                }
            }
        }
    }
}

/// Removing keeps keys distinct, forgets `k`, and leaves other keys alone.
pub proof fn lemma_assoc_remove<K, V>(s: Seq<(K, V)>, k: K)
    requires
        distinct_keys(s),
    ensures
        distinct_keys(assoc_remove(s, k)),
        lookup(assoc_remove(s, k), k) is None,
        forall|k2: K| k2 != k ==> lookup(assoc_remove(s, k), k2) == lookup(s, k2),
{
    let t = assoc_remove(s, k);
    if has_key(s, k) {
        let i = key_index(s, k);
        assert forall|a: int, b: int| 0 <= a < t.len() && 0 <= b < t.len() && a != b implies t[a].0 != t[b].0 by {
            let a2 = if a < i { a } else { a + 1 };
            let b2 = if b < i { b } else { b + 1 };
            assert(t[a] == s[a2] && t[b] == s[b2]);
        }
        if has_key(t, k) {
            let j = key_index(t, k);
            let j2 = if j < i { j } else { j + 1 };
            assert(t[j] == s[j2]);
        }
        assert forall|k2: K| k2 != k implies lookup(t, k2) == lookup(s, k2) by {
            if has_key(s, k2) {
                let j = key_index(s, k2);
                let j1 = if j < i { j } else { j - 1 };
                assert(t[j1] == s[j]);
                lemma_lookup_at(t, j1);
            } else {
                if has_key(t, k2) {
                    let j = key_index(t, k2);
                    let j2 = if j < i { j } else { j + 1 };
                    assert(t[j] == s[j2]);
                }
            }
        }
    }
}

/// String-keyed entries seen as (key text, value) pairs.
pub open spec fn str_pairs<V: View>(e: Seq<(String, V)>) -> Seq<(Seq<char>, V::V)> {
    Seq::new(e.len(), |i: int| (e[i].0@, e[i].1@))
}

/// Id-keyed entries seen as (id, value view) pairs.
pub open spec fn id_pairs<V: View>(e: Seq<(usize, V)>) -> Seq<(usize, V::V)> {
    Seq::new(e.len(), |i: int| (e[i].0, e[i].1@))
}

impl<V: View> StrMap<V> {
    #[verifier::type_invariant]
    spec fn inv(self) -> bool {
        distinct_keys(self.pairs())
    }

    /// The entries as (key text, value) pairs, in insertion order.
    pub closed spec fn pairs(self) -> Seq<(Seq<char>, V::V)> {
        str_pairs(self.entries@)
    }

    /// The value for key text `k`, if any.
    pub open spec fn spec_get(self, k: Seq<char>) -> Option<V::V> {
        lookup(self.pairs(), k)
    }

    /// The key texts, in insertion order.
    pub open spec fn key_seq(self) -> Seq<Seq<char>> {
        keys_of(self.pairs())
    }

    /// An empty map.
    pub fn new() -> (m: Self)
        ensures
            m.pairs() == Seq::<(Seq<char>, V::V)>::empty(),
    {
        let m = StrMap { entries: Vec::new() };
        assert(m.pairs() =~= Seq::<(Seq<char>, V::V)>::empty());
        m
    }

    /// Number of entries.
    pub fn len(&self) -> (n: usize)
        ensures
            n == self.pairs().len(),
            distinct_keys(self.pairs()),
    {
        proof {
            use_type_invariant(self);
        }
        self.entries.len()
    }

    /// The key of the entry at position `i`.
    pub fn key_at(&self, i: usize) -> (k: &String)
        requires
            i < self.pairs().len(),
        ensures
            k@ == self.pairs()[i as int].0,
    {
        &self.entries[i].0
    }

    /// The value of the entry at position `i`.
    pub fn value_at(&self, i: usize) -> (v: &V)
        requires
            i < self.pairs().len(),
        ensures
            v@ == self.pairs()[i as int].1,
    {
        &self.entries[i].1
    }

    /// Position of key `k`, if present.
    pub fn index_of(&self, k: &str) -> (r: Option<usize>)
        ensures
            r matches Some(i) ==> i < self.pairs().len() && self.pairs()[i as int].0 == k@
                && key_index(self.pairs(), k@) == i,
            r is None ==> !has_key(self.pairs(), k@),
    {
        proof {
            use_type_invariant(self);
        }
        let mut i: usize = 0;
        while i < self.entries.len()
            invariant
                i <= self.entries@.len(),
                distinct_keys(self.pairs()),
                forall|j: int| 0 <= j < i ==> self.pairs()[j].0 != k@,
            decreases self.entries@.len() - i,
        {
            if str_eq(self.entries[i].0.as_str(), k) {
                proof {
                    lemma_lookup_at(self.pairs(), i as int);
                }
                return Some(i);
            }
            i += 1;
        }
        None
    }

    /// Whether key `k` is present.
    pub fn contains_key(&self, k: &str) -> (r: bool)
        ensures
            r == has_key(self.pairs(), k@),
    {
        self.index_of(k).is_some()
    }

    /// The value for key `k`, if present.
    pub fn get(&self, k: &str) -> (r: Option<&V>)
        ensures
            match r {
                Some(v) => self.spec_get(k@) == Some(v@),
                None => self.spec_get(k@) is None,
            },
    {
        match self.index_of(k) {
            Some(i) => Some(&self.entries[i].1),
            None => None,
        }
    }

    /// Sets key `k` to `v`, keeping the position of an existing key.
    pub fn insert(&mut self, k: String, v: V)
        ensures
            final(self).pairs() == assoc_insert(old(self).pairs(), k@, v@),
    {
        proof {
            use_type_invariant(&*self);
        }
        let ghost old_pairs = self.pairs();
        let ghost vv = v@;
        match self.index_of(k.as_str()) {
            Some(i) => {
                let ghost kv = k@;
                proof {
                    lemma_assoc_insert(old_pairs, kv, vv);
                }
                let mut e: Vec<(String, V)> = Vec::new();
                std::mem::swap(&mut e, &mut self.entries);
                e.set(i, (k, v));
                assert(str_pairs(e@) =~= old_pairs.update(i as int, (kv, vv)));
                self.entries = e;
            },
            None => {
                let ghost kv = k@;
                proof {
                    lemma_assoc_insert(old_pairs, kv, vv);
                }
                let mut e: Vec<(String, V)> = Vec::new();
                std::mem::swap(&mut e, &mut self.entries);
                e.push((k, v));
                assert(str_pairs(e@) =~= old_pairs.push((kv, vv)));
                self.entries = e;
            },
        }
    }

    /// Removes key `k` if present.
    pub fn remove(&mut self, k: &str)
        ensures
            final(self).pairs() == assoc_remove(old(self).pairs(), k@),
    {
        proof {
            use_type_invariant(&*self);
        }
        let ghost old_pairs = self.pairs();
        match self.index_of(k) {
            Some(i) => {
                proof {
                    lemma_assoc_remove(old_pairs, k@);
                }
                let mut e: Vec<(String, V)> = Vec::new();
                std::mem::swap(&mut e, &mut self.entries);
                let _ = e.remove(i);
                assert(str_pairs(e@) =~= old_pairs.remove(i as int));
                self.entries = e;
            },
            None => {},
        }
    }
}

impl<V: View> StrMap<V> {
    /// The entries, in insertion order.
    pub fn into_entries(self) -> (r: Vec<(String, V)>)
        ensures
            str_pairs(r@) == self.pairs(),
    {
        self.entries
    }
}

/// A map from integer ids to values that remembers insertion order.
#[derive(Debug)]
pub struct IdMap<V: View> {
    entries: Vec<(usize, V)>,
}

impl<V: View> IdMap<V> {
    #[verifier::type_invariant]
    spec fn inv(self) -> bool {
        distinct_keys(id_pairs(self.entries@))
    }

    /// The entries as (id, value view) pairs, in insertion order.
    pub closed spec fn pairs(self) -> Seq<(usize, V::V)> {
        id_pairs(self.entries@)
    }

    /// The value for id `k`, if any.
    pub open spec fn spec_get(self, k: usize) -> Option<V::V> {
        lookup(self.pairs(), k)
    }

    /// An empty map.
    pub fn new() -> (m: Self)
        ensures
            m.pairs() == Seq::<(usize, V::V)>::empty(),
    {
        let m = IdMap { entries: Vec::new() };
        assert(m.pairs() =~= Seq::<(usize, V::V)>::empty());
        m
    }

    /// Number of entries.
    pub fn len(&self) -> (n: usize)
        ensures
            n == self.pairs().len(),
            distinct_keys(self.pairs()),
    {
        proof {
            use_type_invariant(self);
        }
        self.entries.len()
    }

    /// The id of the entry at position `i`.
    pub fn key_at(&self, i: usize) -> (k: usize)
        requires
            i < self.pairs().len(),
        ensures
            k == self.pairs()[i as int].0,
    {
        self.entries[i].0
    }

    /// The value of the entry at position `i`.
    pub fn value_at(&self, i: usize) -> (v: &V)
        requires
            i < self.pairs().len(),
        ensures
            v@ == self.pairs()[i as int].1,
    {
        &self.entries[i].1
    }

    /// Position of id `k`, if present.
    pub fn index_of(&self, k: usize) -> (r: Option<usize>)
        ensures
            r matches Some(i) ==> i < self.pairs().len() && self.pairs()[i as int].0 == k
                && key_index(self.pairs(), k) == i,
            r is None ==> !has_key(self.pairs(), k),
    {
        proof {
            use_type_invariant(self);
        }
        let mut i: usize = 0;
        while i < self.entries.len()
            invariant
                i <= self.entries@.len(),
                distinct_keys(self.pairs()),
                forall|j: int| 0 <= j < i ==> self.pairs()[j].0 != k,
            decreases self.entries@.len() - i,
        {
            if self.entries[i].0 == k {
                proof {
                    lemma_lookup_at(self.pairs(), i as int);
                }
                return Some(i);
            }
            i += 1;
        }
        None
    }

    /// Whether id `k` is present.
    pub fn contains_key(&self, k: usize) -> (r: bool)
        ensures
            r == has_key(self.pairs(), k),
    {
        self.index_of(k).is_some()
    }

    /// The value for id `k`, if present.
    pub fn get(&self, k: usize) -> (r: Option<&V>)
        ensures
            match r {
                Some(v) => self.spec_get(k) == Some(v@),
                None => self.spec_get(k) is None,
            },
    {
        match self.index_of(k) {
            Some(i) => Some(&self.entries[i].1),
            None => None,
        }
    }

    /// Sets id `k` to `v`, keeping the position of an existing id.
    pub fn insert(&mut self, k: usize, v: V)
        ensures
            final(self).pairs() == assoc_insert(old(self).pairs(), k, v@),
    {
        proof {
            use_type_invariant(&*self);
        }
        let ghost old_pairs = self.pairs();
        let ghost vv = v@;
        proof {
            lemma_assoc_insert(old_pairs, k, vv);
        }
        match self.index_of(k) {
            Some(i) => {
                let mut e: Vec<(usize, V)> = Vec::new();
                std::mem::swap(&mut e, &mut self.entries);
                e.set(i, (k, v));
                assert(id_pairs(e@) =~= old_pairs.update(i as int, (k, vv)));
                self.entries = e;
            },
            None => {
                let mut e: Vec<(usize, V)> = Vec::new();
                std::mem::swap(&mut e, &mut self.entries);
                e.push((k, v));
                assert(id_pairs(e@) =~= old_pairs.push((k, vv)));
                self.entries = e;
            },
        }
    }
}


impl<V: View> IdMap<V> {
    /// Replaces the value at position `i`, handing back the one it held.
    pub fn replace_at(&mut self, i: usize, v: V) -> (prev: V)
        requires
            i < old(self).pairs().len(),
        ensures
            final(self).pairs() == old(self).pairs().update(i as int, (old(self).pairs()[i as int].0, v@)),
            prev@ == old(self).pairs()[i as int].1,
    {
        proof {
            use_type_invariant(&*self);
        }
        let ghost old_pairs = self.pairs();
        let mut e: Vec<(usize, V)> = Vec::new();
        std::mem::swap(&mut e, &mut self.entries);
        let (k, prev) = e.remove(i);
        e.insert(i, (k, v));
        assert(id_pairs(e@) =~= old_pairs.update(i as int, (old_pairs[i as int].0, v@)));
        assert(distinct_keys(id_pairs(e@))) by {
            assert forall|a: int, b: int| 0 <= a < id_pairs(e@).len() && 0 <= b < id_pairs(e@).len() && a != b
                implies id_pairs(e@)[a].0 != id_pairs(e@)[b].0 by {
                assert(id_pairs(e@)[a].0 == old_pairs[a].0);
                assert(id_pairs(e@)[b].0 == old_pairs[b].0);
            }
        }
        self.entries = e;
        prev
    }
}


impl<V: View> IdMap<V> {
    /// The ids of the map are pairwise distinct.
    pub fn keys_distinct(&self)
        ensures
            distinct_keys(self.pairs()),
    {
        proof {
            use_type_invariant(self);
        }
    }

    /// Removes id `k` if present.
    pub fn remove(&mut self, k: usize)
        ensures
            final(self).pairs() == assoc_remove(old(self).pairs(), k),
    {
        proof {
            use_type_invariant(&*self);
        }
        let ghost old_pairs = self.pairs();
        match self.index_of(k) {
            Some(i) => {
                proof {
                    lemma_assoc_remove(old_pairs, k);
                }
                let mut e: Vec<(usize, V)> = Vec::new();
                std::mem::swap(&mut e, &mut self.entries);
                let _ = e.remove(i);
                assert(id_pairs(e@) =~= old_pairs.remove(i as int));
                self.entries = e;
            },
            None => {},
        }
    }
}

} // verus!
