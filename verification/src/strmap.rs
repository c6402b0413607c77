//! A small map keyed by strings, kept as a list of entries.

use vstd::prelude::*;
use crate::text::str_eq;

verus! {

/// A map from strings to values. Each key stands for the value of its first entry.
#[derive(Clone, Debug)]
pub struct StrMap<V> {
    entries: Vec<(String, V)>,
}

/// Entry `i` is the first one with key `k`.
pub open spec fn first_at<V>(e: Seq<(String, V)>, k: Seq<char>, i: int) -> bool {
    &&& 0 <= i < e.len()
    &&& e[i].0@ == k
    &&& forall|j: int| 0 <= j < i ==> (#[trigger] e[j].0)@ != k
}

/// The map a list of entries stands for.
pub open spec fn entries_map<V>(e: Seq<(String, V)>) -> Map<Seq<char>, V> {
    Map::new(
        |k: Seq<char>| exists|i: int| first_at(e, k, i),
        |k: Seq<char>| e[choose|i: int| first_at(e, k, i)].1,
    )
}

proof fn lemma_first_at_unique<V>(e: Seq<(String, V)>, k: Seq<char>, i: int, j: int)
    requires
        first_at(e, k, i),
        first_at(e, k, j),
    ensures
        i == j,
{
    if i < j {
        assert(e[i].0@ != k);
    } else if j < i {
        assert(e[j].0@ != k);
    }
}

proof fn lemma_map_at<V>(e: Seq<(String, V)>, k: Seq<char>, i: int)
    requires
        first_at(e, k, i),
    ensures
        entries_map(e).contains_key(k),
        entries_map(e)[k] == e[i].1,
{
    let c = choose|c: int| first_at(e, k, c);
    lemma_first_at_unique(e, k, i, c);
}

impl<V> View for StrMap<V> {
    type V = Map<Seq<char>, V>;

    closed spec fn view(&self) -> Map<Seq<char>, V> {
        entries_map(self.entries@)
    }
}

impl<V> StrMap<V> {
    /// The empty map.
    pub fn new() -> (m: StrMap<V>)
        ensures
            m@ == Map::<Seq<char>, V>::empty(),
    {
        let m = StrMap { entries: Vec::new() };
        assert(m@ =~= Map::<Seq<char>, V>::empty());
        m
    }

    /// The index of the first entry with key `k`.
    fn position(&self, k: &str) -> (r: Option<usize>)
        ensures
            match r {
                Some(i) => first_at(self.entries@, k@, i as int),
                None => forall|j: int| 0 <= j < self.entries@.len() ==> (#[trigger] self.entries@[j].0)@ != k@,
            },
    {
        let mut i: usize = 0;
        while i < self.entries.len()
            invariant
                i <= self.entries.len(),
                forall|j: int| 0 <= j < i ==> (#[trigger] self.entries@[j].0)@ != k@,
            decreases self.entries.len() - i,
        {
            if str_eq(self.entries[i].0.as_str(), k) {
                return Some(i);
            }
            i = i + 1;
        }
        None
    }

    /// The value stored for `k`.
    pub fn get(&self, k: &str) -> (r: Option<&V>)
        ensures
            match r {
                Some(v) => self@.contains_key(k@) && self@[k@] == *v,
                None => !self@.contains_key(k@),
            },
    {
        match self.position(k) {
            Some(i) => {
                proof {
                    lemma_map_at(self.entries@, k@, i as int);
                }
                Some(&self.entries[i].1)
            },
            None => {
                assert(!self@.contains_key(k@));
                None
            },
        }
    }

    /// Stores `v` for `k`, replacing what `k` held.
    pub fn insert(&mut self, k: String, v: V)
        ensures
            final(self)@ == old(self)@.insert(k@, v),
    {
        let ghost ks = k@;
        let ghost e0 = self.entries@;
        match self.position(k.as_str()) {
            Some(i) => {
                self.entries.set(i, (k, v));
                let ghost e1 = self.entries@;
                assert forall|j: int| 0 <= j < e1.len() && j != i implies #[trigger] e1[j] == e0[j] by {}
                assert(e0[i as int].0@ == ks);
                assert forall|j: int| 0 <= j < e1.len() implies (#[trigger] e1[j].0)@ == e0[j].0@ by {}
                assert forall|key: Seq<char>, n: int| first_at(e1, key, n) <==> first_at(e0, key, n) by {
                    if 0 <= n < e1.len() {
                        assert(e1[n].0@ == e0[n].0@);
                        if first_at(e0, key, n) {
                            assert forall|j: int| 0 <= j < n implies (#[trigger] e1[j].0)@ != key by {
                                assert(e0[j].0@ != key);
                            }
                        }
                        if first_at(e1, key, n) {
                            assert forall|j: int| 0 <= j < n implies (#[trigger] e0[j].0)@ != key by {
                                assert(e1[j].0@ != key);
                            }
                        }
                    }
                }
                assert forall|key: Seq<char>| #[trigger] entries_map(e1).contains_key(key) <==> old(self)@.insert(ks, v).contains_key(key) by {
                    if key == ks {
                        assert(first_at(e1, key, i as int));
                    }
                }
                assert forall|key: Seq<char>| entries_map(e1).contains_key(key) implies #[trigger] entries_map(e1)[key] == old(self)@.insert(ks, v)[key] by {
                    let n = choose|n: int| first_at(e1, key, n);
                    lemma_map_at(e1, key, n);
                    lemma_map_at(e0, key, n);
                    if key == ks {
                        lemma_first_at_unique(e0, key, n, i as int);
                    }
                }
                assert(entries_map(e1) =~= old(self)@.insert(ks, v));
            },
            None => {
                self.entries.push((k, v));
                let ghost e1 = self.entries@;
                assert forall|j: int| 0 <= j < e0.len() implies (#[trigger] e1[j].0)@ == e0[j].0@ by {
                    assert(e1[j] == e0[j]);
                }
                assert forall|key: Seq<char>, n: int| key != ks implies (first_at(e1, key, n) <==> first_at(e0, key, n)) by {
                    if 0 <= n < e0.len() {
                        assert(e1[n].0@ == e0[n].0@);
                        if first_at(e0, key, n) {
                            assert forall|j: int| 0 <= j < n implies (#[trigger] e1[j].0)@ != key by {
                                assert(e0[j].0@ != key);
                            }
                        }
                        if first_at(e1, key, n) {
                            assert forall|j: int| 0 <= j < n implies (#[trigger] e0[j].0)@ != key by {
                                assert(e1[j].0@ != key);
                            }
                        }
                    }
                    if n == e0.len() {
                        assert(e1[n].0@ == ks);
                    }
                }
                assert(first_at(e1, ks, e0.len() as int));
                assert forall|key: Seq<char>| #[trigger] entries_map(e1).contains_key(key) <==> old(self)@.insert(ks, v).contains_key(key) by {
                    if key != ks {
                        if entries_map(e1).contains_key(key) {
                            let n = choose|n: int| first_at(e1, key, n);
                            assert(first_at(e0, key, n));
                        }
                        if old(self)@.contains_key(key) {
                            let n = choose|n: int| first_at(e0, key, n);
                            assert(first_at(e1, key, n));
                        }
                    }
                }
                assert forall|key: Seq<char>| entries_map(e1).contains_key(key) implies #[trigger] entries_map(e1)[key] == old(self)@.insert(ks, v)[key] by {
                    let n = choose|n: int| first_at(e1, key, n);
                    lemma_map_at(e1, key, n);
                    if key == ks {
                        lemma_first_at_unique(e1, key, n, e0.len() as int);
                    } else {
                        assert(first_at(e0, key, n));
                        lemma_map_at(e0, key, n);
                        assert(e1[n] == e0[n]);
                    }
                }
                assert(entries_map(e1) =~= old(self)@.insert(ks, v));
            },
        }
    }

    /// Removes every entry.
    pub fn clear(&mut self)
        ensures
            final(self)@ == Map::<Seq<char>, V>::empty(),
    {
        self.entries.clear();
        assert(final(self)@ =~= Map::<Seq<char>, V>::empty());
    }
}

} // verus!
