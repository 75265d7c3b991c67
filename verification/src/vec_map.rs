//! A map backed by a vector of key-value pairs.
//!
//! `VecMap` preserves insertion order and allows duplicate keys.  Lookups
//! walk the pairs from the front, so the first inserted pair with a given
//! key wins.
use vstd::prelude::*;

verus! {

/// A map that keeps its pairs in insertion order and accepts duplicates.
pub struct VecMap<K, V>(Vec<(K, V)>);

/// Index of the first pair whose key reads `k`, or `-1` when none does.
pub open spec fn key_index<V>(s: Seq<(String, V)>, k: Seq<char>) -> int
    decreases s.len(),
{
    if s.len() == 0 {
        -1
    } else if s[0].0@ == k {
        0
    } else {
        let r = key_index(s.drop_first(), k);
        if r < 0 {
            -1
        } else {
            r + 1
        }
    }
}

/// What a `key_index` answer means: a non-negative answer points at the
/// first matching pair; `-1` means no pair matches.
pub proof fn lemma_key_index_props<V>(s: Seq<(String, V)>, k: Seq<char>)
    ensures
        ({
            let r = key_index(s, k);
            if r >= 0 {
                r < s.len() && s[r].0@ == k && (forall|j: int|
                    0 <= j < r ==> (#[trigger] s[j]).0@ != k)
            } else {
                forall|j: int| 0 <= j < s.len() ==> (#[trigger] s[j]).0@ != k
            }
        }),
    decreases s.len(),
{
    if s.len() == 0 {
    } else if s[0].0@ == k {
    } else {
        let s1 = s.drop_first();
        lemma_key_index_props(s1, k);
        let r1 = key_index(s1, k);
        if r1 >= 0 {
            assert(s[r1 + 1] == s1[r1]);
            assert forall|j: int| 0 <= j < r1 + 1 implies (#[trigger] s[j]).0@ != k by {
                if j > 0 {
                    assert(s[j] == s1[j - 1]);
                }
            }
        } else {
            assert forall|j: int| 0 <= j < s.len() implies (#[trigger] s[j]).0@ != k by {
                if j > 0 {
                    assert(s[j] == s1[j - 1]);
                }
            }
        }
    }
}

impl<K, V> VecMap<K, V> {
    /// The pairs, in insertion order.
    pub closed spec fn entries(&self) -> Seq<(K, V)> {
        self.0@
    }

    /// Creates a new, empty map.
    pub fn new() -> (r: Self)
        ensures
            r.entries() == Seq::<(K, V)>::empty(),
    {
        let v: Vec<(K, V)> = Vec::new();
        proof {
            assert(v@ =~= Seq::<(K, V)>::empty());
        }
        VecMap(v)
    }

    /// Returns `true` if the map holds no pair.
    pub fn is_empty(&self) -> (r: bool)
        ensures
            r == (self.entries().len() == 0),
    {
        self.0.len() == 0
    }

    /// Returns the number of key-value pairs in the map.
    pub fn len(&self) -> (r: usize)
        ensures
            r == self.entries().len(),
    {
        self.0.len()
    }

    /// Appends a key-value pair.  An existing pair with the same key stays
    /// and keeps shadowing lookups.
    pub fn insert(&mut self, k: K, v: V)
        ensures
            final(self).entries() == old(self).entries().push((k, v)),
    {
        self.0.push((k, v));
    }

    /// The key-value pairs in insertion order, by reference.
    pub fn iter(&self) -> (r: Vec<(&K, &V)>)
        ensures
            r@.len() == self.entries().len(),
            forall|i: int| 0 <= i < r@.len() ==> *(#[trigger] r@[i]).0 == self.entries()[i].0
                && *r@[i].1 == self.entries()[i].1,
    {
        let mut r: Vec<(&K, &V)> = Vec::new();
        let mut i: usize = 0;
        while i < self.0.len()
            invariant
                i <= self.0.len(),
                r@.len() == i,
                forall|j: int| 0 <= j < i ==> *(#[trigger] r@[j]).0 == self.entries()[j].0
                    && *r@[j].1 == self.entries()[j].1,
        decreases self.0.len() - i,
        {
            let p = &self.0[i];
            r.push((&p.0, &p.1));
            i = i + 1;
        }
        r
    }

    /// The keys in insertion order, by reference.
    pub fn keys(&self) -> (r: Vec<&K>)
        ensures
            r@.len() == self.entries().len(),
            forall|i: int| 0 <= i < r@.len() ==> *(#[trigger] r@[i]) == self.entries()[i].0,
    {
        let mut r: Vec<&K> = Vec::new();
        let mut i: usize = 0;
        while i < self.0.len()
            invariant
                i <= self.0.len(),
                r@.len() == i,
                forall|j: int| 0 <= j < i ==> *(#[trigger] r@[j]) == self.entries()[j].0,
        decreases self.0.len() - i,
        {
            r.push(&self.0[i].0);
            i = i + 1;
        }
        r
    }

    /// The values in insertion order, by reference.
    pub fn values(&self) -> (r: Vec<&V>)
        ensures
            r@.len() == self.entries().len(),
            forall|i: int| 0 <= i < r@.len() ==> *(#[trigger] r@[i]) == self.entries()[i].1,
    {
        let mut r: Vec<&V> = Vec::new();
        let mut i: usize = 0;
        while i < self.0.len()
            invariant
                i <= self.0.len(),
                r@.len() == i,
                forall|j: int| 0 <= j < i ==> *(#[trigger] r@[j]) == self.entries()[j].1,
        decreases self.0.len() - i,
        {
            r.push(&self.0[i].1);
            i = i + 1;
        }
        r
    }
}

impl Clone for VecMap<String, String> {
    /// The copy carries the same pairs in the same order.
    fn clone(&self) -> (r: Self)
        ensures
            r.entries() == self.entries(),
    {
        let mut v: Vec<(String, String)> = Vec::new();
        let mut i: usize = 0;
        while i < self.0.len()
            invariant
                i <= self.0@.len(),
                v@ == self.0@.take(i as int),
        decreases self.0@.len() - i,
        {
            let p = &self.0[i];
            v.push((p.0.clone(), p.1.clone()));
            assert(v@ =~= self.0@.take(i + 1));
            i = i + 1;
        }
        assert(v@ =~= self.0@);
        VecMap(v)
    }
}

impl<V> VecMap<String, V> {
    /// Returns `true` if some pair carries the key.
    pub fn contains_key(&self, k: &str) -> (r: bool)
        ensures
            r == (key_index(self.entries(), k@) >= 0),
    {
        self.get(k).is_some()
    }

    /// The value of the first pair carrying the key, if any.
    pub fn get(&self, k: &str) -> (r: Option<&V>)
        ensures
            ({
                let ki = key_index(self.entries(), k@);
                match r {
                    Some(v) => ki >= 0 && *v == self.entries()[ki].1,
                    None => ki < 0,
                }
            }),
    {
        proof {
            lemma_key_index_props(self.entries(), k@);
        }
        let mut i: usize = 0;
        while i < self.0.len()
            invariant
                i <= self.0.len(),
                forall|j: int| 0 <= j < i ==> (#[trigger] self.entries()[j]).0@ != k@,
                key_index(self.entries(), k@) >= 0 ==> key_index(self.entries(), k@) < self.entries().len()
                    && self.entries()[key_index(self.entries(), k@)].0@ == k@,
                key_index(self.entries(), k@) < 0 ==> (forall|j: int|
                    0 <= j < self.entries().len() ==> (#[trigger] self.entries()[j]).0@ != k@),
        decreases self.0.len() - i,
        {
            let key: &String = &self.0[i].0;
            let ks: String = k.to_owned();
            if *key == ks {
                proof {
                    let ki = key_index(self.entries(), k@);
                    if ki < 0 {
                        assert(self.entries()[i as int].0@ != k@);
                        assert(false);
                    }
                    if ki < i {
                        assert(self.entries()[ki].0@ != k@);
                        assert(false);
                    }
                    if ki > i {
                        lemma_key_index_props(self.entries(), k@);
                        assert(self.entries()[i as int].0@ != k@);
                        assert(false);
                    }
                }
                return Some(&self.0[i].1);
            }
            i = i + 1;
        }
        proof {
            let ki = key_index(self.entries(), k@);
            if ki >= 0 {
                assert(self.entries()[ki].0@ != k@);
                assert(false);
            }
        }
        None
    }
}

} // verus!
