//! A map from keys to values, usable by the engine.
//!
//! The map is kept as an insertion-ordered sequence of key/value pairs,
//! so that both generation and shrinking are deterministic functions of
//! the model.  Inserting an existing key overwrites its value; lookup
//! finds the first pair with the key.  Generation performs a drawn
//! number of insertions, so the realised size may be smaller; shrinking
//! goes through the derived pair sequence, exactly as a sequence
//! shrinks.

use crate::arbitrary::{small_n, Arbitrary};
use crate::lazy::{Lazy, MapFn, MapProd};
use crate::model::Model;
use crate::rng::Rng;
use crate::shrink::{Shrink, VecProd};
use vstd::prelude::*;

verus! {

/// A key type whose equality the engine can decide: the test returns
/// true exactly when the models are equal.
pub trait KeyEq: Model {
    /// Decide whether two keys are the same.
    fn key_eq(&self, other: &Self) -> (r: bool)
        ensures
            r == (self.model() == other.model()),
    ;
}

impl KeyEq for u8 {
    fn key_eq(&self, other: &u8) -> (r: bool) {
        *self == *other
    }
}

impl KeyEq for usize {
    fn key_eq(&self, other: &usize) -> (r: bool) {
        *self == *other
    }
}

impl KeyEq for isize {
    fn key_eq(&self, other: &isize) -> (r: bool) {
        *self == *other
    }
}

impl KeyEq for bool {
    fn key_eq(&self, other: &bool) -> (r: bool) {
        *self == *other
    }
}

impl KeyEq for char {
    fn key_eq(&self, other: &char) -> (r: bool) {
        *self == *other
    }
}

impl KeyEq for String {
    fn key_eq(&self, other: &String) -> (r: bool) {
        self.eq(other)
    }
}

/// The value the pair sequence `m` associates with `k`: that of the
/// first pair carrying `k`.
pub open spec fn kv_get<KM, VM>(m: Seq<(KM, VM)>, k: KM) -> Option<VM>
    decreases m.len(),
{
    if m.len() == 0 {
        None
    } else if m[0].0 == k {
        Some(m[0].1)
    } else {
        kv_get(m.drop_first(), k)
    }
}

/// The pair sequence `m` with the first pair carrying `k` removed.
pub open spec fn kv_remove<KM, VM>(m: Seq<(KM, VM)>, k: KM) -> Seq<(KM, VM)>
    decreases m.len(),
{
    if m.len() == 0 {
        m
    } else if m[0].0 == k {
        m.drop_first()
    } else {
        seq![m[0]] + kv_remove(m.drop_first(), k)
    }
}

/// Whether no two pairs of `m` carry the same key.
pub open spec fn unique_keys<KM, VM>(m: Seq<(KM, VM)>) -> bool {
    forall|i: int, j: int| 0 <= i < j < m.len() ==> (#[trigger] m[i]).0 != (#[trigger] m[j]).0
}

proof fn lemma_kv_remove_at<KM, VM>(m: Seq<(KM, VM)>, k: KM, idx: int)
    requires
        0 <= idx < m.len(),
        m[idx].0 == k,
        forall|j: int| 0 <= j < idx ==> (#[trigger] m[j]).0 != k,
    ensures
        kv_remove(m, k) == m.remove(idx),
    decreases idx,
{
    if idx == 0 {
        assert(m.remove(0) =~= m.drop_first());
    } else {
        lemma_kv_remove_at(m.drop_first(), k, idx - 1);
        assert(m[0].0 != k);
        assert(m.drop_first().remove(idx - 1) =~= m.remove(idx).drop_first());
        assert(kv_remove(m, k) =~= m.remove(idx));
    }
}

proof fn lemma_kv_remove_absent<KM, VM>(m: Seq<(KM, VM)>, k: KM)
    requires
        forall|j: int| 0 <= j < m.len() ==> (#[trigger] m[j]).0 != k,
    ensures
        kv_remove(m, k) == m,
    decreases m.len(),
{
    if m.len() > 0 {
        lemma_kv_remove_absent(m.drop_first(), k);
        assert(kv_remove(m, k) =~= m);
    }
}

/// A map from `K` to `V`, kept as insertion-ordered key/value pairs.
pub struct KvMap<K, V> {
    pairs: Vec<(K, V)>,
}

impl<K: KeyEq, V: Model> Model for KvMap<K, V> {
    type M = Seq<(K::M, V::M)>;

    closed spec fn model(&self) -> Seq<(K::M, V::M)> {
        self.pairs.model()
    }

    fn dup(&self) -> (r: KvMap<K, V>) {
        KvMap { pairs: self.pairs.dup() }
    }
}

impl<K: KeyEq, V: Model> KvMap<K, V> {
    /// The empty map.
    pub fn new() -> (r: KvMap<K, V>)
        ensures
            r.model() == Seq::<(K::M, V::M)>::empty(),
    {
        let r = KvMap { pairs: Vec::new() };
        proof {
            assert(r.model() =~= Seq::<(K::M, V::M)>::empty());
        }
        r
    }

    /// How many pairs the map holds.
    pub fn len(&self) -> (r: usize)
        ensures
            r == self.model().len(),
    {
        self.pairs.len()
    }

    /// Build a map directly from a pair sequence; later lookups find the
    /// first pair with a key.
    pub fn from_pairs(pairs: Vec<(K, V)>) -> (r: KvMap<K, V>)
        ensures
            r.model() == pairs.model(),
    {
        KvMap { pairs }
    }

    /// The map's pairs, in insertion order.
    pub fn to_pairs(self) -> (r: Vec<(K, V)>)
        ensures
            r.model() == self.model(),
    {
        self.pairs
    }

    /// The value associated with `k`, duplicated out of the map.
    pub fn get(&self, k: &K) -> (r: Option<V>)
        ensures
            match r {
                Some(v) => kv_get(self.model(), k.model()) == Some(v.model()),
                None => kv_get(self.model(), k.model()) is None,
            },
    {
        let ghost m = self.model();
        let ghost km = k.model();
        proof {
            assert(m.skip(0) =~= m);
        }
        let mut i: usize = 0;
        while i < self.pairs.len()
            invariant
                i <= self.pairs@.len(),
                m == self.model(),
                km == k.model(),
                kv_get(m, km) == kv_get(m.skip(i as int), km),
            decreases self.pairs@.len() - i,
        {
            let hit = self.pairs[i].0.key_eq(k);
            proof {
                assert(m.skip(i as int)[0] == m[i as int]);
                assert(m[i as int].0 == self.pairs@[i as int].0.model());
            }
            if hit {
                let v = self.pairs[i].1.dup();
                return Some(v);
            }
            proof {
                assert(m.skip(i as int).drop_first() =~= m.skip(i as int + 1));
            }
            i += 1;
        }
        proof {
            assert(m.skip(i as int).len() == 0);
        }
        None
    }

    /// Insert `v` under `k`, overwriting the pair that carried `k`
    /// before, if any.  Insertion cannot introduce a duplicate key, and
    /// grows the map by at most one pair.
    pub fn insert(&mut self, k: K, v: V)
        ensures
            final(self).model() == kv_remove(old(self).model(), k.model()).push(
                (k.model(), v.model()),
            ),
            unique_keys(old(self).model()) ==> unique_keys(final(self).model()),
            final(self).model().len() <= old(self).model().len() + 1,
    {
        let ghost m = self.model();
        let ghost km = k.model();
        let mut i: usize = 0;
        let mut found: Option<usize> = None;
        while i < self.pairs.len() && found.is_none()
            invariant
                i <= self.pairs@.len(),
                m == self.model(),
                km == k.model(),
                match found {
                    Some(idx) => idx < i && m[idx as int].0 == km && forall|j: int|
                        0 <= j < idx ==> (#[trigger] m[j]).0 != km,
                    None => forall|j: int| 0 <= j < i ==> (#[trigger] m[j]).0 != km,
                },
            decreases self.pairs@.len() - i,
        {
            let hit = self.pairs[i].0.key_eq(&k);
            proof {
                assert(m[i as int].0 == self.pairs@[i as int].0.model());
            }
            if hit {
                found = Some(i);
            }
            i += 1;
        }
        match found {
            Some(idx) => {
                proof {
                    lemma_kv_remove_at(m, km, idx as int);
                }
                let _ = self.pairs.remove(idx);
                self.pairs.push((k, v));
                proof {
                    assert(self.model() =~= kv_remove(m, km).push((km, v.model())));
                    if unique_keys(m) {
                        assert forall|a: int, b: int|
                            0 <= a < b < self.model().len() implies (#[trigger] self.model()[a]).0
                            != (#[trigger] self.model()[b]).0 by {
                            let mr = m.remove(idx as int);
                            if b < self.model().len() - 1 {
                            } else {
                                if a < idx {
                                    assert(mr[a] == m[a]);
                                } else {
                                    assert(mr[a] == m[a + 1]);
                                }
                            }
                        }
                    }
                }
            },
            None => {
                proof {
                    lemma_kv_remove_absent(m, km);
                }
                self.pairs.push((k, v));
                proof {
                    assert(self.model() =~= kv_remove(m, km).push((km, v.model())));
                }
            },
        }
    }
}

impl<K: KeyEq + Arbitrary, V: Arbitrary> Arbitrary for KvMap<K, V> {
    /// A generated map has unique keys and no more pairs than the drawn
    /// number of insertions allows.
    open spec fn gen_ok(m: Seq<(K::M, V::M)>, size: nat) -> bool {
        unique_keys(m) && m.len() <= 16 * size
    }

    fn arbitrary(rng: &mut Rng, size: usize) -> (r: KvMap<K, V>) {
        let n = small_n(rng, size);
        let mut r: KvMap<K, V> = KvMap::new();
        let mut i: usize = 0;
        while i < n
            invariant
                i <= n,
                n as nat <= 16 * (size as nat),
                unique_keys(r.model()),
                r.model().len() <= i,
            decreases n - i,
        {
            let k = K::arbitrary(rng, size);
            let v = V::arbitrary(rng, size);
            r.insert(k, v);
            i += 1;
        }
        r
    }
}

/// Rebuild a map from a shrunk sequence of its pairs.
pub struct KvWrap;

impl<K: KeyEq, V: Model> MapFn<Vec<(K, V)>, KvMap<K, V>> for KvWrap {
    open spec fn fspec(a: Seq<(K::M, V::M)>) -> Seq<(K::M, V::M)> {
        a
    }

    fn apply(&self, a: Vec<(K, V)>) -> (b: KvMap<K, V>) {
        KvMap { pairs: a }
    }
}

impl<K: KeyEq + Shrink, V: Shrink> Shrink for KvMap<K, V> {
    type Prod = MapProd<Vec<(K, V)>, VecProd<(K, V)>, KvWrap>;

    open spec fn size_of(m: Seq<(K::M, V::M)>) -> nat {
        <Vec<(K, V)> as Shrink>::size_of(m)
    }

    open spec fn cands(m: Seq<(K::M, V::M)>) -> Seq<Seq<(K::M, V::M)>> {
        <Vec<(K, V)> as Shrink>::cands(m)
    }

    open spec fn sweight(m: Seq<(K::M, V::M)>) -> nat {
        3 + 2 * <Vec<(K, V)> as Shrink>::sweight(m)
    }

    proof fn cands_smaller(m: Seq<(K::M, V::M)>) {
        <Vec<(K, V)> as Shrink>::cands_smaller(m);
    }

    fn shrink(&self) -> (l: Lazy<KvMap<K, V>, Self::Prod>) {
        let pv = self.pairs.dup();
        let mut l = Lazy::new();
        l.push_map(pv.shrink(), KvWrap);
        proof {
            assert(<Vec<(K, V)> as Shrink>::cands(self.model()).map_values(
                |a: Seq<(K::M, V::M)>| a,
            ) =~= <Vec<(K, V)> as Shrink>::cands(self.model()));
            assert(l.future() =~= Self::cands(self.model()));
        }
        l
    }
}

} // verus!
