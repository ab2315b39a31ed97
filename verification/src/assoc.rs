//! A small map from identifiers to values, kept as a list of entries in
//! insertion order, with no key occurring twice.
use vstd::prelude::*;

use crate::ids::Keyed;

verus! {

pub struct AssocList<K: Keyed, V> {
    entries: Vec<(K, V)>,
}

impl<K: Keyed, V> AssocList<K, V> {
    /// No key occurs twice.
    #[verifier::type_invariant]
    spec fn unique_keys(self) -> bool {
        forall|i: int, j: int|
            0 <= i < j < self.entries@.len() ==> self.entries@[i].0@ != self.entries@[j].0@
    }

    /// The keys, in insertion order.
    pub closed spec fn keys(&self) -> Seq<K::V> {
        self.entries@.map_values(|e: (K, V)| e.0@)
    }

    /// The key-value map the list stands for.
    pub closed spec fn map(&self) -> Map<K::V, V> {
        Map::new(
            |k: K::V| exists|i: int| 0 <= i < self.entries@.len() && self.entries@[i].0@ == k,
            |k: K::V|
                self.entries@[choose|i: int|
                    0 <= i < self.entries@.len() && self.entries@[i].0@ == k].1,
        )
    }

    proof fn lemma_entry(&self, i: int)
        requires
            0 <= i < self.entries@.len(),
            self.unique_keys(),
        ensures
            self.map().dom().contains(self.entries@[i].0@),
            self.map()[self.entries@[i].0@] == self.entries@[i].1,
            self.keys()[i] == self.entries@[i].0@,
    {
        let k = self.entries@[i].0@;
        assert(self.map().dom().contains(k));
        let j = choose|j: int| 0 <= j < self.entries@.len() && self.entries@[j].0@ == k;
        assert(j == i);
    }

    /// The keys listed are exactly the keys of the map, each once.
    pub proof fn lemma_keys_match(&self)
        ensures
            forall|k: K::V| self.map().dom().contains(k) <==> self.keys().contains(k),
            forall|i: int|
                0 <= i < self.keys().len() ==> self.map().dom().contains(
                    #[trigger] self.keys()[i],
                ),
    {
        assert forall|k: K::V| self.map().dom().contains(k) implies self.keys().contains(k) by {
            let i = choose|i: int| 0 <= i < self.entries@.len() && self.entries@[i].0@ == k;
            assert(self.keys()[i] == k);
        }
        assert forall|k: K::V| self.keys().contains(k) implies self.map().dom().contains(k) by {
            let i = choose|i: int| 0 <= i < self.keys().len() && self.keys()[i] == k;
            assert(self.entries@[i].0@ == k);
        }
    }

    pub fn new() -> (r: AssocList<K, V>)
        ensures
            r.map() == Map::<K::V, V>::empty(),
            r.keys() == Seq::<K::V>::empty(),
    {
        let r = AssocList { entries: Vec::new() };
        assert(r.map() =~= Map::<K::V, V>::empty());
        assert(r.keys() =~= Seq::<K::V>::empty());
        r
    }

    /// The number of entries; no key is listed twice.
    pub fn len(&self) -> (r: usize)
        ensures
            r == self.keys().len(),
            forall|i: int, j: int|
                0 <= i < j < self.keys().len() ==> self.keys()[i] != self.keys()[j],
    {
        proof {
            use_type_invariant(self);
        }
        self.entries.len()
    }

    /// The position of `k`, if present.
    pub fn find(&self, k: &K) -> (r: Option<usize>)
        ensures
            r matches Some(i) ==> i < self.keys().len() && self.keys()[i as int] == k@
                && self.map().dom().contains(k@),
            r is None ==> !self.map().dom().contains(k@),
    {
        proof {
            use_type_invariant(self);
        }
        let mut i: usize = 0;
        while i < self.entries.len()
            invariant
                i <= self.entries@.len(),
                self.unique_keys(),
                forall|j: int| 0 <= j < i ==> self.entries@[j].0@ != k@,
            decreases self.entries@.len() - i,
        {
            if self.entries[i].0.same_key(k) {
                proof {
                    self.lemma_entry(i as int);
                }
                return Some(i);
            }
            i = i + 1;
        }
        None
    }

    pub fn key_at(&self, i: usize) -> (r: &K)
        requires
            i < self.keys().len(),
        ensures
            r@ == self.keys()[i as int],
    {
        &self.entries[i].0
    }

    pub fn value_at(&self, i: usize) -> (r: &V)
        requires
            i < self.keys().len(),
        ensures
            self.map().dom().contains(self.keys()[i as int]),
            *r == self.map()[self.keys()[i as int]],
    {
        proof {
            use_type_invariant(self);
            self.lemma_entry(i as int);
        }
        &self.entries[i].1
    }

    pub fn get(&self, k: &K) -> (r: Option<&V>)
        ensures
            r is Some <==> self.map().dom().contains(k@),
            r matches Some(v) ==> *v == self.map()[k@],
    {
        match self.find(k) {
            Some(i) => Some(self.value_at(i)),
            None => None,
        }
    }

    pub fn contains(&self, k: &K) -> (r: bool)
        ensures
            r == self.map().dom().contains(k@),
    {
        self.find(k).is_some()
    }

    /// Replaces the value at position `i`; the keys stay as they are.
    pub fn set_value(&mut self, i: usize, v: V)
        requires
            i < old(self).keys().len(),
        ensures
            final(self).keys() == old(self).keys(),
            final(self).map() == old(self).map().insert(old(self).keys()[i as int], v),
    {
        proof {
            use_type_invariant(&*self);
        }
        let ghost before = *self;
        let mut entries = Vec::new();
        std::mem::swap(&mut entries, &mut self.entries);
        let (key, _) = entries.remove(i);
        entries.insert(i, (key, v));
        self.entries = entries;
        proof {
            assert(self.keys() =~= before.keys());
            let k = before.keys()[i as int];
            assert(self.entries@[i as int].0@ == k);
            assert forall|j: int| 0 <= j < self.entries@.len() && j != i implies self.entries@[j]
                == before.entries@[j] by {}
            assert forall|kk: K::V| #![auto] self.map().dom().contains(kk) <==> before.map().insert(
                k,
                v,
            ).dom().contains(kk) by {
                if before.map().insert(k, v).dom().contains(kk) && kk != k {
                    let j = choose|j: int|
                        0 <= j < before.entries@.len() && before.entries@[j].0@ == kk;
                    assert(self.entries@[j].0@ == kk);
                }
            }
            assert forall|kk: K::V| #[trigger]
                self.map().dom().contains(kk) implies self.map()[kk] == before.map().insert(
                k,
                v,
            )[kk] by {
                let j = choose|j: int| 0 <= j < self.entries@.len() && self.entries@[j].0@ == kk;
                self.lemma_entry(j);
                if j != i {
                    before.lemma_entry(j);
                }
            }
            assert(self.map() =~= before.map().insert(k, v));
        }
    }

    /// Maps `k` to `v`, replacing any earlier value; a new key goes last.
    pub fn insert(&mut self, k: K, v: V)
        ensures
            final(self).map() == old(self).map().insert(k@, v),
            old(self).map().dom().contains(k@) ==> final(self).keys() == old(self).keys(),
            !old(self).map().dom().contains(k@) ==> final(self).keys() == old(self).keys().push(
                k@,
            ),
    {
        match self.find(&k) {
            Some(i) => {
                self.set_value(i, v);
            },
            None => {
                proof {
                    use_type_invariant(&*self);
                }
                let ghost before = *self;
                let ghost kv = k@;
                let mut entries = Vec::new();
                std::mem::swap(&mut entries, &mut self.entries);
                entries.push((k, v));
                self.entries = entries;
                proof {
                    let n = before.entries@.len() as int;
                    assert(self.entries@.len() == n + 1);
                    assert(self.entries@[n].0@ == kv);
                    assert(forall|j: int| 0 <= j < n ==> self.entries@[j] == before.entries@[j]);
                    assert(self.keys() =~= before.keys().push(kv));
                    assert forall|kk: K::V| #![auto] self.map().dom().contains(kk) <==> before.map().insert(
                        kv,
                        v,
                    ).dom().contains(kk) by {
                        if self.map().dom().contains(kk) && kk != kv {
                            let j = choose|j: int|
                                0 <= j < self.entries@.len() && self.entries@[j].0@ == kk;
                            assert(j < n);
                            assert(before.entries@[j].0@ == kk);
                        }
                        if before.map().insert(kv, v).dom().contains(kk) && kk != kv {
                            let j = choose|j: int|
                                0 <= j < before.entries@.len() && before.entries@[j].0@ == kk;
                            assert(self.entries@[j].0@ == kk);
                        }
                    }
                    assert forall|kk: K::V| #[trigger]
                        self.map().dom().contains(kk) implies self.map()[kk] == before.map().insert(
                        kv,
                        v,
                    )[kk] by {
                        let j = choose|j: int|
                            0 <= j < self.entries@.len() && self.entries@[j].0@ == kk;
                        self.lemma_entry(j);
                        if j < n {
                            before.lemma_entry(j);
                        }
                    }
                    assert(self.map() =~= before.map().insert(kv, v));
                }
            },
        }
    }

    /// Removes `k`, handing back its value.
    pub fn remove(&mut self, k: &K) -> (r: Option<V>)
        ensures
            final(self).map() == old(self).map().remove(k@),
            r is Some <==> old(self).map().dom().contains(k@),
            r matches Some(v) ==> v == old(self).map()[k@],
    {
        match self.find(k) {
            Some(i) => {
                proof {
                    use_type_invariant(&*self);
                }
                let ghost before = *self;
                let mut entries = Vec::new();
                std::mem::swap(&mut entries, &mut self.entries);
                let (_, v) = entries.remove(i);
                self.entries = entries;
                proof {
                    before.lemma_entry(i as int);
                    let n = before.entries@.len() as int;
                    assert forall|j: int| 0 <= j < self.entries@.len() implies #[trigger] self.entries@[j]
                        == before.entries@[if j < i {
                        j
                    } else {
                        j + 1
                    }] by {}
                    assert forall|kk: K::V| #![auto] self.map().dom().contains(kk) <==> before.map().remove(
                        k@,
                    ).dom().contains(kk) by {
                        if self.map().dom().contains(kk) {
                            let j = choose|j: int|
                                0 <= j < self.entries@.len() && self.entries@[j].0@ == kk;
                            let jj = if j < i {
                                j
                            } else {
                                j + 1
                            };
                            assert(before.entries@[jj].0@ == kk);
                        }
                        if before.map().remove(k@).dom().contains(kk) {
                            let j = choose|j: int|
                                0 <= j < before.entries@.len() && before.entries@[j].0@ == kk;
                            assert(j != i);
                            let jj = if j < i {
                                j
                            } else {
                                j - 1
                            };
                            assert(self.entries@[jj].0@ == kk);
                        }
                    }
                    assert forall|kk: K::V| #[trigger]
                        self.map().dom().contains(kk) implies self.map()[kk] == before.map().remove(
                        k@,
                    )[kk] by {
                        let j = choose|j: int|
                            0 <= j < self.entries@.len() && self.entries@[j].0@ == kk;
                        self.lemma_entry(j);
                        let jj = if j < i {
                            j
                        } else {
                            j + 1
                        };
                        before.lemma_entry(jj);
                    }
                    assert(self.map() =~= before.map().remove(k@));
                }
                Some(v)
            },
            None => {
                proof {
                    assert(self.map() =~= self.map().remove(k@));
                }
                None
            },
        }
    }
}

} // verus!
