//! A string-keyed map kept as a vector of entries with distinct keys, in insertion order.
use vstd::prelude::*;
use crate::bytes::str_eq;

verus! {

/// A map from names to values. Its entries keep the order in which their keys
/// were first inserted.
pub struct NameMap<V> {
    entries: Vec<(String, V)>,
}

pub open spec fn keys_of<V>(s: Seq<(String, V)>) -> Seq<Seq<char>> {
    s.map_values(|e: (String, V)| e.0@)
}

pub open spec fn map_of<V>(s: Seq<(String, V)>) -> Map<Seq<char>, V> {
    Map::new(|k: Seq<char>| keys_of(s).contains(k), |k: Seq<char>| s[keys_of(s).index_of(k)].1)
}

/// Replacing the value of one entry replaces the value under its key.
proof fn lemma_update_value<V>(s: Seq<(String, V)>, i: int)
    requires
        keys_of(s).no_duplicates(),
        0 <= i < s.len(),
    ensures
        forall|v: V| #[trigger] keys_of(s.update(i, (s[i].0, v))) == keys_of(s),
        forall|v: V|
            #[trigger] map_of(s.update(i, (s[i].0, v))) == map_of(s).insert(s[i].0@, v),
{
    assert forall|v: V| #[trigger] keys_of(s.update(i, (s[i].0, v))) == keys_of(s) by {
        assert(keys_of(s.update(i, (s[i].0, v))) =~= keys_of(s));
    }
    assert forall|v: V| #[trigger] map_of(s.update(i, (s[i].0, v))) == map_of(s).insert(s[i].0@, v) by {
        let s2 = s.update(i, (s[i].0, v));
        assert(keys_of(s2) =~= keys_of(s));
        let k = s[i].0@;
        assert(keys_of(s)[i] == k);
        assert forall|k2: Seq<char>| #[trigger] map_of(s2).contains_key(k2) implies map_of(s2)[k2] == map_of(s).insert(k, v)[k2] by {
            let j = keys_of(s).index_of(k2);
            assert(keys_of(s)[j] == k2);
            if k2 == k {
                assert(j == i);
            } else {
                assert(j != i);
            }
        }
        assert(map_of(s2) =~= map_of(s).insert(k, v));
    }
}

impl<V> NameMap<V> {
    /// The keys, in insertion order.
    pub closed spec fn keys(&self) -> Seq<Seq<char>> {
        keys_of(self.entries@)
    }

    /// No key occurs twice.
    pub closed spec fn wf(&self) -> bool {
        self.keys().no_duplicates()
    }

    /// The map itself.
    pub closed spec fn map(&self) -> Map<Seq<char>, V> {
        map_of(self.entries@)
    }

    proof fn lemma_index(&self, i: int)
        requires
            self.wf(),
            0 <= i < self.entries@.len(),
        ensures
            self.map().contains_key(self.entries@[i].0@),
            self.map()[self.entries@[i].0@] == self.entries@[i].1,
            self.keys()[i] == self.entries@[i].0@,
    {
        let k = self.entries@[i].0@;
        assert(self.keys()[i] == k);
        assert(self.keys().contains(k));
        let j = self.keys().index_of(k);
        assert(self.keys()[j] == k);
    }

    /// The keys, in insertion order, are exactly the keys of the map, each once.
    pub proof fn lemma_keys(&self)
        requires
            self.wf(),
        ensures
            self.keys().no_duplicates(),
            self.keys().to_set() == self.map().dom(),
            self.keys().len() == self.map().len(),
            self.map().dom().finite(),
            forall|i: int| 0 <= i < self.keys().len() ==> #[trigger] self.map().contains_key(self.keys()[i]),
            forall|k: Seq<char>| #[trigger] self.map().contains_key(k) ==> exists|i: int|
                0 <= i < self.keys().len() && #[trigger] self.keys()[i] == k,
    {
        assert(self.keys().to_set() =~= self.map().dom());
        vstd::seq_lib::seq_to_set_is_finite(self.keys());
        assert forall|k: Seq<char>| #[trigger] self.map().contains_key(k) implies exists|i: int|
            0 <= i < self.keys().len() && #[trigger] self.keys()[i] == k by {
            assert(self.keys().contains(k));
        }
        self.keys().unique_seq_to_set();
        assert forall|i: int| 0 <= i < self.keys().len() implies #[trigger] self.map().contains_key(self.keys()[i]) by {
            assert(self.keys().contains(self.keys()[i]));
        }
    }

    fn value_mut(&mut self, i: usize) -> (r: &mut V)
        requires
            i < old(self).entries@.len(),
        ensures
            *r == old(self).entries@[i as int].1,
            final(self).entries@ == old(self).entries@.update(i as int, (old(self).entries@[i as int].0, *final(r))),
    {
        &mut self.entries[i].1
    }

    /// An empty map.
    pub fn new() -> (m: Self)
        ensures
            m.wf(),
            m.map() == Map::<Seq<char>, V>::empty(),
            m.keys() == Seq::<Seq<char>>::empty(),
    {
        let m = NameMap { entries: Vec::new() };
        assert(m.map() =~= Map::<Seq<char>, V>::empty());
        assert(m.keys() =~= Seq::<Seq<char>>::empty());
        m
    }

    /// The number of entries.
    pub fn len(&self) -> (n: usize)
        requires
            self.wf(),
        ensures
            n == self.map().len(),
    {
        proof { self.lemma_keys(); }
        self.entries.len()
    }

    /// The position of key `k`, if present.
    fn find(&self, k: &str) -> (r: Option<usize>)
        requires
            self.wf(),
        ensures
            match r {
                Some(i) => i < self.entries@.len() && self.entries@[i as int].0@ == k@,
                None => !self.map().contains_key(k@),
            },
    {
        let mut i: usize = 0;
        while i < self.entries.len()
            invariant
                self.wf(),
                i <= self.entries@.len(),
                forall|j: int| 0 <= j < i ==> self.keys()[j] != k@,
            decreases self.entries@.len() - i,
        {
            if str_eq(self.entries[i].0.as_str(), k) {
                return Some(i);
            }
            assert(self.keys()[i as int] == self.entries@[i as int].0@);
            i = i + 1;
        }
        proof {
            if self.keys().contains(k@) {
                let j = self.keys().index_of(k@);
                assert(self.keys()[j] == k@);
            }
        }
        None
    }

    /// Whether `k` is a key.
    pub fn contains_key(&self, k: &str) -> (b: bool)
        requires
            self.wf(),
        ensures
            b == self.map().contains_key(k@),
    {
        match self.find(k) {
            Some(i) => {
                proof { self.lemma_index(i as int); }
                true
            },
            None => false,
        }
    }

    /// The value under `k`, if any.
    pub fn get(&self, k: &str) -> (r: Option<&V>)
        requires
            self.wf(),
        ensures
            match r {
                Some(v) => self.map().contains_key(k@) && *v == self.map()[k@],
                None => !self.map().contains_key(k@),
            },
    {
        match self.find(k) {
            Some(i) => {
                proof { self.lemma_index(i as int); }
                Some(&self.entries[i].1)
            },
            None => None,
        }
    }

    /// The value under `k`, if any, for modification in place.
    pub fn get_mut(&mut self, k: &str) -> (r: Option<&mut V>)
        requires
            old(self).wf(),
        ensures
            match r {
                Some(v) => {
                    &&& old(self).map().contains_key(k@)
                    &&& *v == old(self).map()[k@]
                    &&& final(self).wf()
                    &&& final(self).keys() == old(self).keys()
                    &&& final(self).map() == old(self).map().insert(k@, *final(v))
                },
                None => !old(self).map().contains_key(k@) && *final(self) == *old(self),
            },
    {
        match self.find(k) {
            Some(i) => {
                proof {
                    self.lemma_index(i as int);
                    lemma_update_value(self.entries@, i as int);
                }
                let r = self.value_mut(i);
                Some(r)
            },
            None => None,
        }
    }

    /// Puts `v` under `k`, replacing any value there; a new key goes last.
    pub fn insert(&mut self, k: String, v: V)
        requires
            old(self).wf(),
        ensures
            final(self).wf(),
            final(self).map() == old(self).map().insert(k@, v),
            old(self).map().contains_key(k@) ==> final(self).keys() == old(self).keys(),
            !old(self).map().contains_key(k@) ==> final(self).keys() == old(self).keys().push(k@),
    {
        match self.find(k.as_str()) {
            Some(i) => {
                proof {
                    self.lemma_index(i as int);
                    lemma_update_value(self.entries@, i as int);
                }
                let slot = self.value_mut(i);
                *slot = v;
            },
            None => {
                let ghost s = self.entries@;
                let ghost kv = k@;
                self.entries.push((k, v));
                proof {
                    let s2 = self.entries@;
                    assert(keys_of(s2) =~= keys_of(s).push(kv));
                    assert(!keys_of(s).contains(kv));
                    assert forall|a: int, b: int| 0 <= a < b < keys_of(s2).len() implies keys_of(s2)[a] != keys_of(s2)[b] by {
                        if b == keys_of(s).len() {
                            assert(keys_of(s2)[a] == keys_of(s)[a]);
                        } else {
                            assert(keys_of(s2)[a] == keys_of(s)[a]);
                            assert(keys_of(s2)[b] == keys_of(s)[b]);
                        }
                    }
                    assert forall|k2: Seq<char>| #[trigger] map_of(s2).contains_key(k2) implies map_of(s2)[k2] == map_of(s).insert(kv, v)[k2] by {
                        let j = keys_of(s2).index_of(k2);
                        assert(keys_of(s2)[j] == k2);
                        if k2 == kv {
                            assert(keys_of(s2)[keys_of(s).len() as int] == kv);
                            assert(j == keys_of(s).len());
                        } else {
                            assert(j < keys_of(s).len());
                            assert(keys_of(s)[j] == k2);
                            let j0 = keys_of(s).index_of(k2);
                            assert(keys_of(s).contains(k2));
                            assert(keys_of(s)[j0] == k2);
                            assert(j0 == j);
                        }
                    }
                    assert forall|k2: Seq<char>| #[trigger] map_of(s).insert(kv, v).contains_key(k2) implies map_of(s2).contains_key(k2) by {
                        if k2 != kv {
                            let j0 = keys_of(s).index_of(k2);
                            assert(keys_of(s)[j0] == k2);
                            assert(keys_of(s2)[j0] == k2);
                        } else {
                            assert(keys_of(s2)[keys_of(s).len() as int] == kv);
                        }
                    }
                    assert(map_of(s2) =~= map_of(s).insert(kv, v));
                }
            },
        }
    }

    /// Takes out the value under `k`, if any; the other keys keep their order.
    pub fn remove(&mut self, k: &str) -> (r: Option<V>)
        requires
            old(self).wf(),
        ensures
            final(self).wf(),
            match r {
                Some(v) => old(self).map().contains_key(k@) && v == old(self).map()[k@]
                    && final(self).map() == old(self).map().remove(k@),
                None => !old(self).map().contains_key(k@) && final(self).map() == old(self).map(),
            },
    {
        match self.find(k) {
            Some(i) => {
                proof { self.lemma_index(i as int); }
                let ghost s = self.entries@;
                let ghost ks = keys_of(s);
                let e = self.entries.remove(i);
                proof {
                    let s2 = self.entries@;
                    assert(keys_of(s2) =~= ks.remove(i as int));
                    assert forall|a: int, b: int| 0 <= a < b < keys_of(s2).len() implies keys_of(s2)[a] != keys_of(s2)[b] by {
                        let a0 = if a < i { a } else { a + 1 };
                        let b0 = if b < i { b } else { b + 1 };
                        assert(keys_of(s2)[a] == ks[a0]);
                        assert(keys_of(s2)[b] == ks[b0]);
                    }
                    assert forall|k2: Seq<char>| #[trigger] map_of(s2).contains_key(k2) implies map_of(s2)[k2] == map_of(s).remove(k@)[k2] by {
                        let j = keys_of(s2).index_of(k2);
                        assert(keys_of(s2)[j] == k2);
                        let j0 = if j < i { j } else { j + 1 };
                        assert(ks[j0] == k2);
                        assert(k2 != k@);
                        let j1 = ks.index_of(k2);
                        assert(ks.contains(k2));
                        assert(ks[j1] == k2);
                        assert(j1 == j0);
                    }
                    assert forall|k2: Seq<char>| #[trigger] map_of(s).remove(k@).contains_key(k2) implies map_of(s2).contains_key(k2) by {
                        let j0 = ks.index_of(k2);
                        assert(ks[j0] == k2);
                        assert(j0 != i);
                        let j = if j0 < i { j0 } else { j0 - 1 };
                        assert(keys_of(s2)[j] == k2);
                    }
                    assert(map_of(s2) =~= map_of(s).remove(k@));
                }
                Some(e.1)
            },
            None => None,
        }
    }

    /// The keys, in insertion order.
    pub fn key_list(&self) -> (r: Vec<String>)
        requires
            self.wf(),
        ensures
            r@.map_values(|s: String| s@) == self.keys(),
    {
        let mut r: Vec<String> = Vec::new();
        let mut i: usize = 0;
        while i < self.entries.len()
            invariant
                i <= self.entries@.len(),
                r@.len() == i,
                forall|j: int| 0 <= j < i ==> (#[trigger] r@[j])@ == self.entries@[j].0@,
            decreases self.entries@.len() - i,
        {
            r.push(self.entries[i].0.clone());
            i = i + 1;
        }
        assert(r@.map_values(|s: String| s@) =~= self.keys());
        r
    }

    /// References to the values, in the order of [`Self::keys`].
    pub fn value_list(&self) -> (r: Vec<&V>)
        requires
            self.wf(),
        ensures
            r@.len() == self.keys().len(),
            forall|i: int| 0 <= i < r@.len() ==> *(#[trigger] r@[i]) == self.map()[self.keys()[i]],
    {
        let mut r: Vec<&V> = Vec::new();
        let mut i: usize = 0;
        while i < self.entries.len()
            invariant
                self.wf(),
                i <= self.entries@.len(),
                r@.len() == i,
                forall|j: int| 0 <= j < i ==> *(#[trigger] r@[j]) == self.map()[self.keys()[j]],
            decreases self.entries@.len() - i,
        {
            proof { self.lemma_index(i as int); }
            r.push(&self.entries[i].1);
            i = i + 1;
        }
        r
    }
}

} // verus!
