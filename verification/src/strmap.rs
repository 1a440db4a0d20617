//! A map keyed by strings, kept as two parallel vectors in insertion order.
//!
//! Nothing occurs twice among the keys (`wf`); the map's view is the
//! mathematical map from each key's characters to its value.

use vstd::prelude::*;
use crate::text::str_eq;

verus! {

/// A string-keyed map that remembers the order in which keys were added.
pub struct StrMap<V> {
    pub keys: Vec<String>,
    pub vals: Vec<V>,
}

/// The characters of each string of a sequence.
pub open spec fn views_of(s: Seq<String>) -> Seq<Seq<char>> {
    s.map_values(|k: String| k@)
}

impl<V> StrMap<V> {
    /// The keys' characters, in insertion order.
    pub open spec fn key_views(&self) -> Seq<Seq<char>> {
        views_of(self.keys@)
    }

    /// The values, in the order of their keys.
    pub open spec fn values(&self) -> Seq<V> {
        self.vals@
    }

    /// One value per key, and no key twice.
    pub open spec fn wf(&self) -> bool {
        &&& self.keys@.len() == self.vals@.len()
        &&& self.key_views().no_duplicates()
    }

    /// The mathematical map this value stands for.
    pub open spec fn map(&self) -> Map<Seq<char>, V> {
        Map::new(
            |k: Seq<char>| self.key_views().contains(k),
            |k: Seq<char>| self.vals@[self.key_views().index_of(k)],
        )
    }

    /// A key at a position has the value at that position.
    pub proof fn lemma_entry(&self, i: int)
        requires
            self.wf(),
            0 <= i < self.keys@.len(),
        ensures
            self.map().contains_key(self.key_views()[i]),
            self.map()[self.key_views()[i]] == self.vals@[i],
    {
        let k = self.key_views()[i];
        assert(self.key_views().contains(k));
        let j = self.key_views().index_of(k);
        assert(self.key_views()[j] == k);
    }

    /// Every position's key/value pair belongs to the map.
    pub proof fn lemma_entries(&self)
        requires
            self.wf(),
        ensures
            forall|i: int|
                0 <= i < self.keys@.len() ==> #[trigger] self.map().contains_key(self.key_views()[i])
                    && self.map()[self.key_views()[i]] == self.vals@[i],
            self.map().dom() == self.key_views().to_set(),
    {
        assert forall|i: int| 0 <= i < self.keys@.len() implies #[trigger] self.map().contains_key(
            self.key_views()[i],
        ) && self.map()[self.key_views()[i]] == self.vals@[i] by {
            self.lemma_entry(i);
        }
        assert(self.map().dom() =~= self.key_views().to_set());
    }

    /// An empty map.
    pub fn new() -> (m: Self)
        ensures
            m.wf(),
            m.keys@.len() == 0,
            m.map() == Map::<Seq<char>, V>::empty(),
    {
        let m = StrMap { keys: Vec::new(), vals: Vec::new() };
        assert(m.map() =~= Map::<Seq<char>, V>::empty());
        m
    }

    /// The number of keys.
    pub fn len(&self) -> (n: usize)
        requires
            self.wf(),
        ensures
            n == self.keys@.len(),
            n == self.map().dom().len(),
    {
        proof {
            self.lemma_entries();
            self.key_views().unique_seq_to_set();
        }
        self.keys.len()
    }

    /// Whether the map has no key.
    pub fn is_empty(&self) -> (b: bool)
        requires
            self.wf(),
        ensures
            b == (self.keys@.len() == 0),
            b == (self.map() == Map::<Seq<char>, V>::empty()),
    {
        proof {
            self.lemma_entries();
            if self.keys@.len() > 0 {
                assert(self.map().contains_key(self.key_views()[0]));
            } else {
                assert(self.map() =~= Map::<Seq<char>, V>::empty());
            }
        }
        self.keys.len() == 0
    }

    /// The position of `k` among the keys.
    pub fn position(&self, k: &str) -> (r: Option<usize>)
        requires
            self.wf(),
        ensures
            match r {
                Some(i) => i < self.keys@.len() && self.key_views()[i as int] == k@,
                None => !self.key_views().contains(k@),
            },
            r is Some == self.map().contains_key(k@),
    {
        let mut i: usize = 0;
        while i < self.keys.len()
            invariant
                self.wf(),
                i <= self.keys@.len(),
                forall|j: int| 0 <= j < i ==> self.key_views()[j] != k@,
            decreases self.keys@.len() - i,
        {
            if str_eq(self.keys[i].as_str(), k) {
                return Some(i);
            }
            i = i + 1;
        }
        None
    }

    /// Whether `k` is a key.
    pub fn contains_key(&self, k: &str) -> (b: bool)
        requires
            self.wf(),
        ensures
            b == self.map().contains_key(k@),
    {
        self.position(k).is_some()
    }

    /// The value of `k`, if `k` is a key.
    pub fn get(&self, k: &str) -> (r: Option<&V>)
        requires
            self.wf(),
        ensures
            r is Some == self.map().contains_key(k@),
            r matches Some(v) ==> *v == self.map()[k@],
    {
        match self.position(k) {
            Some(i) => {
                proof {
                    self.lemma_entry(i as int);
                }
                Some(&self.vals[i])
            },
            None => None,
        }
    }

    /// The key at position `i`.
    pub fn key_at(&self, i: usize) -> (k: &String)
        requires
            i < self.keys@.len(),
        ensures
            k@ == self.key_views()[i as int],
            *k == self.keys@[i as int],
    {
        &self.keys[i]
    }

    /// The value at position `i`.
    pub fn value_at(&self, i: usize) -> (v: &V)
        requires
            i < self.vals@.len(),
        ensures
            *v == self.vals@[i as int],
    {
        &self.vals[i]
    }

    /// Sets the value of `k`: a key already there keeps its position, a new one goes last.
    pub fn insert(&mut self, k: String, v: V)
        requires
            old(self).wf(),
        ensures
            final(self).wf(),
            final(self).map() == old(self).map().insert(k@, v),
            old(self).key_views().contains(k@) ==> final(self).key_views() == old(self).key_views()
                && final(self).vals@ == old(self).vals@.update(
                old(self).key_views().index_of(k@),
                v,
            ),
            !old(self).key_views().contains(k@) ==> final(self).key_views() == old(
                self,
            ).key_views().push(k@) && final(self).vals@ == old(self).vals@.push(v),
    {
        let ghost old_keys = self.key_views();
        match self.position(k.as_str()) {
            Some(i) => {
                self.vals.set(i, v);
                proof {
                    assert(old_keys[old_keys.index_of(k@)] == k@);
                    assert(old_keys.index_of(k@) == i);
                    assert forall|k2: Seq<char>| #[trigger] self.map().contains_key(k2) implies self.map()[k2]
                        == old(self).map().insert(k@, v)[k2] by {
                        let j = old_keys.index_of(k2);
                        assert(old_keys[j] == k2);
                    }
                    assert(self.map() =~= old(self).map().insert(k@, v));
                }
            },
            None => {
                self.keys.push(k);
                self.vals.push(v);
                proof {
                    let nk = self.key_views();
                    assert(nk =~= old_keys.push(k@));
                    assert forall|a: int, b: int|
                        0 <= a < nk.len() && 0 <= b < nk.len() && a != b implies nk[a] != nk[b] by {
                        if a < old_keys.len() && b < old_keys.len() {
                        } else if a == old_keys.len() {
                            assert(old_keys.contains(nk[b]) || b == a);
                        } else {
                            assert(old_keys.contains(nk[a]) || b == a);
                        }
                    }
                    assert forall|k2: Seq<char>| #[trigger] self.map().contains_key(k2) implies self.map()[k2]
                        == old(self).map().insert(k@, v)[k2] by {
                        let j = nk.index_of(k2);
                        assert(nk[j] == k2);
                        if k2 == k@ {
                            assert(nk[old_keys.len() as int] == k2);
                        } else {
                            let j0 = old_keys.index_of(k2);
                            assert(old_keys[j0] == k2);
                            assert(nk[j0] == k2);
                        }
                    }
                    assert forall|k2: Seq<char>| #[trigger] old(self).map().insert(k@, v).contains_key(k2)
                        implies self.map().contains_key(k2) by {
                        if k2 == k@ {
                            assert(nk[old_keys.len() as int] == k2);
                        } else {
                            let j0 = old_keys.index_of(k2);
                            assert(nk[j0] == k2);
                        }
                    }
                    assert(self.map() =~= old(self).map().insert(k@, v));
                }
            },
        }
    }

    /// Drops `k` and its value; the other keys keep their order.
    pub fn remove(&mut self, k: &str) -> (r: Option<V>)
        requires
            old(self).wf(),
        ensures
            final(self).wf(),
            final(self).map() == old(self).map().remove(k@),
            r is Some == old(self).map().contains_key(k@),
            r matches Some(v) ==> v == old(self).map()[k@],
            final(self).key_views() == without(old(self).key_views(), k@),
            old(self).key_views().contains(k@) ==> {
                let i = old(self).key_views().index_of(k@);
                &&& final(self).key_views() == old(self).key_views().remove(i)
                &&& final(self).vals@ == old(self).vals@.remove(i)
            },
            !old(self).key_views().contains(k@) ==> final(self).vals@ == old(self).vals@,
    {
        let ghost old_keys = self.key_views();
        match self.position(k) {
            Some(i) => {
                proof {
                    old(self).lemma_entry(i as int);
                    assert(old_keys[old_keys.index_of(k@)] == k@);
                    assert(old_keys.index_of(k@) == i);
                }
                self.keys.remove(i);
                let v = self.vals.remove(i);
                proof {
                    let nk = self.key_views();
                    assert(nk =~= old_keys.remove(i as int));
                    assert forall|k2: Seq<char>| #[trigger] self.map().contains_key(k2) implies self.map()[k2]
                        == old(self).map().remove(k@)[k2] && k2 != k@ by {
                        let j = nk.index_of(k2);
                        assert(nk[j] == k2);
                        if j < i {
                            assert(old_keys[j] == k2);
                            old(self).lemma_entry(j);
                        } else {
                            assert(old_keys[j + 1] == k2);
                            old(self).lemma_entry(j + 1);
                        }
                    }
                    assert forall|k2: Seq<char>| #[trigger] old(self).map().remove(k@).contains_key(k2)
                        implies self.map().contains_key(k2) by {
                        let j0 = old_keys.index_of(k2);
                        assert(old_keys[j0] == k2);
                        if j0 < i {
                            assert(nk[j0] == k2);
                        } else {
                            assert(nk[j0 - 1] == k2);
                        }
                    }
                    assert(self.map() =~= old(self).map().remove(k@));
                    lemma_filter_remove_unique(old_keys, i as int, k@);
                }
                Some(v)
            },
            None => {
                proof {
                    assert(old(self).map().remove(k@) =~= old(self).map());
                    lemma_filter_absent(old_keys, k@);
                }
                None
            },
        }
    }
}

/// The sequence without any occurrence of `k`.
pub open spec fn without(s: Seq<Seq<char>>, k: Seq<char>) -> Seq<Seq<char>> {
    s.filter(|x: Seq<char>| x != k)
}

/// Filtering out a value that does not occur changes nothing.
pub proof fn lemma_filter_absent(s: Seq<Seq<char>>, k: Seq<char>)
    requires
        !s.contains(k),
    ensures
        without(s, k) == s,
    decreases s.len(),
{
    reveal_with_fuel(Seq::filter, 1);
    if s.len() > 0 {
        assert(s.drop_last().len() < s.len());
        assert(!s.drop_last().contains(k)) by {
            if s.drop_last().contains(k) {
                let j = s.drop_last().index_of(k);
                assert(s[j] == k);
            }
        }
        lemma_filter_absent(s.drop_last(), k);
        assert(s.last() != k);
        assert(s.drop_last().push(s.last()) =~= s);
    }
}

/// Filtering out the one occurrence of a value removes its position.
pub proof fn lemma_filter_remove_unique(s: Seq<Seq<char>>, i: int, k: Seq<char>)
    requires
        0 <= i < s.len(),
        s[i] == k,
        s.no_duplicates(),
    ensures
        without(s, k) == s.remove(i),
    decreases s.len(),
{
    reveal_with_fuel(Seq::filter, 1);
    if i == s.len() - 1 {
        assert(!s.drop_last().contains(k)) by {
            if s.drop_last().contains(k) {
                let j = s.drop_last().index_of(k);
                assert(s[j] == k);
            }
        }
        lemma_filter_absent(s.drop_last(), k);
        assert(s.remove(i) =~= s.drop_last());
    } else {
        lemma_filter_remove_unique(s.drop_last(), i, k);
        assert(s.last() != k);
        assert(s.remove(i) =~= s.drop_last().remove(i).push(s.last()));
    }
}

} // verus!
