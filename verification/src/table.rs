//! A small map keyed by `u64`, backed by a vector of key-value pairs.
//!
//! The vector representation keeps iteration by index available to verified
//! loops; the map it denotes is the view, so contracts elsewhere can be
//! stated over `Map<u64, V>`.

use vstd::map::*;
use vstd::prelude::*;
use vstd::set_lib::lemma_len_subset;

verus! {

/// The map a sequence of key-value pairs denotes: a key is bound when some
/// pair carries it, to the value of such a pair.
pub open spec fn pairs_map<V>(s: Seq<(u64, V)>) -> Map<u64, V> {
    Map::new(
        |k: u64| exists|i: int| 0 <= i < s.len() && s[i].0 == k,
        |k: u64| s[choose|i: int| 0 <= i < s.len() && s[i].0 == k].1,
    )
}

/// Keys of the pairs are pairwise distinct.
pub open spec fn unique_keys<V>(s: Seq<(u64, V)>) -> bool {
    forall|i: int, j: int|
        0 <= i < j < s.len() ==> (#[trigger] s[i]).0 != (#[trigger] s[j]).0
}

/// With distinct keys, each pair is an entry of the denoted map.
pub proof fn lemma_pair_in_map<V>(s: Seq<(u64, V)>, i: int)
    requires
        unique_keys(s),
        0 <= i < s.len(),
    ensures
        pairs_map(s).contains_key(s[i].0),
        pairs_map(s)[s[i].0] == s[i].1,
{
    let k = s[i].0;
    assert(pairs_map(s).contains_key(k));
    let j = choose|j: int| 0 <= j < s.len() && s[j].0 == k;
    assert(j == i);
}

/// A finite map with `u64` keys, kept as a vector of key-value pairs with
/// pairwise-distinct keys.
pub struct Table<V> {
    entries: Vec<(u64, V)>,
}

impl<V> View for Table<V> {
    type V = Map<u64, V>;

    closed spec fn view(&self) -> Map<u64, V> {
        pairs_map(self.entries@)
    }
}

impl<V> Table<V> {
    /// The underlying pair sequence; loops over the table go by index.
    pub closed spec fn pairs(self) -> Seq<(u64, V)> {
        self.entries@
    }

    /// Keys are pairwise distinct.
    pub open spec fn wf(self) -> bool {
        unique_keys(self.pairs())
    }

    /// The view is exactly the map the pair sequence denotes.
    pub proof fn lemma_view_is_pairs_map(self)
        ensures
            self@ == pairs_map(self.pairs()),
    {
    }

    /// The view's domain is finite.
    pub proof fn lemma_dom_finite(self)
        ensures
            self@.dom().finite(),
            self@.dom().len() <= self.pairs().len(),
    {
        broadcast use vstd::seq_lib::seq_to_set_is_finite;

        let keys = self.pairs().map_values(|e: (u64, V)| e.0);
        assert forall|k: u64| self@.dom().contains(k) implies keys.to_set().contains(k) by {
            let i = choose|i: int| 0 <= i < self.pairs().len() && self.pairs()[i].0 == k;
            assert(keys[i] == k);
            assert(keys.contains(k));
        };
        lemma_len_subset(self@.dom(), keys.to_set());
        keys.lemma_cardinality_of_set();
    }

    pub fn new() -> (t: Self)
        ensures
            t@ == Map::<u64, V>::empty(),
            t.wf(),
            t.pairs().len() == 0,
    {
        let t = Table { entries: Vec::new() };
        proof {
            assert(t@ =~= Map::<u64, V>::empty());
        }
        t
    }

    pub fn len(&self) -> (n: usize)
        ensures
            n == self.pairs().len(),
    {
        self.entries.len()
    }

    pub fn key_at(&self, i: usize) -> (k: u64)
        requires
            i < self.pairs().len(),
        ensures
            k == self.pairs()[i as int].0,
    {
        self.entries[i].0
    }

    pub fn value_at(&self, i: usize) -> (v: &V)
        requires
            i < self.pairs().len(),
        ensures
            *v == self.pairs()[i as int].1,
    {
        &self.entries[i].1
    }

    fn index_of(&self, k: u64) -> (r: Option<usize>)
        ensures
            match r {
                Some(i) => i < self.pairs().len() && self.pairs()[i as int].0 == k,
                None => forall|i: int|
                    0 <= i < self.pairs().len() ==> (#[trigger] self.pairs()[i]).0 != k,
            },
    {
        let mut i: usize = 0;
        while i < self.entries.len()
            invariant
                i <= self.entries.len(),
                forall|j: int| 0 <= j < i ==> (#[trigger] self.entries@[j]).0 != k,
            decreases self.entries.len() - i,
        {
            if self.entries[i].0 == k {
                return Some(i);
            }
            i = i + 1;
        }
        None
    }

    pub fn contains_key(&self, k: u64) -> (r: bool)
        requires
            self.wf(),
        ensures
            r == self@.contains_key(k),
    {
        match self.index_of(k) {
            Some(i) => {
                proof {
                    lemma_pair_in_map(self.pairs(), i as int);
                }
                true
            },
            None => false,
        }
    }

    pub fn get(&self, k: u64) -> (r: Option<&V>)
        requires
            self.wf(),
        ensures
            match r {
                Some(v) => self@.contains_key(k) && *v == self@[k],
                None => !self@.contains_key(k),
            },
    {
        match self.index_of(k) {
            Some(i) => {
                proof {
                    lemma_pair_in_map(self.pairs(), i as int);
                }
                Some(&self.entries[i].1)
            },
            None => None,
        }
    }

    pub fn insert(&mut self, k: u64, v: V)
        requires
            old(self).wf(),
        ensures
            final (self).wf(),
            final (self)@ == old(self)@.insert(k, v),
            final (self).pairs().len() <= old(self).pairs().len() + 1,
    {
        let ghost s = self.entries@;
        match self.index_of(k) {
            Some(i) => {
                self.entries[i].1 = v;
                proof {
                    let s2 = self.entries@;
                    assert(s2 == s.update(i as int, (s[i as int].0, v)));
                    assert(unique_keys(s2)) by {
                        assert forall|p: int, q: int| 0 <= p < q < s2.len() implies (
                        #[trigger] s2[p]).0 != (#[trigger] s2[q]).0 by {
                            assert(s2[p].0 == s[p].0);
                            assert(s2[q].0 == s[q].0);
                        }
                    };
                    assert_maps_equal!(pairs_map(s2), pairs_map(s).insert(k, v), k2 => {
                        if k2 == k {
                            lemma_pair_in_map(s2, i as int);
                            lemma_pair_in_map(s, i as int);
                        } else {
                            if exists|j: int| 0 <= j < s.len() && s[j].0 == k2 {
                                let j = choose|j: int| 0 <= j < s.len() && s[j].0 == k2;
                                assert(s2[j].0 == k2);
                                lemma_pair_in_map(s, j);
                                lemma_pair_in_map(s2, j);
                                assert(s2[j].1 == s[j].1);
                            } else {
                                if exists|j: int| 0 <= j < s2.len() && s2[j].0 == k2 {
                                    let j = choose|j: int| 0 <= j < s2.len() && s2[j].0 == k2;
                                    assert(s[j].0 == k2);
                                }
                            }
                        }
                    });
                }
            },
            None => {
                self.entries.push((k, v));
                proof {
                    let s2 = self.entries@;
                    assert(s2 == s.push((k, v)));
                    assert(unique_keys(s2)) by {
                        assert forall|p: int, q: int| 0 <= p < q < s2.len() implies (
                        #[trigger] s2[p]).0 != (#[trigger] s2[q]).0 by {
                            if q < s.len() {
                                assert(s2[p] == s[p] && s2[q] == s[q]);
                            } else {
                                assert(s2[q] == (k, v));
                                assert(s2[p] == s[p]);
                            }
                        }
                    };
                    assert_maps_equal!(pairs_map(s2), pairs_map(s).insert(k, v), k2 => {
                        if k2 == k {
                            lemma_pair_in_map(s2, s.len() as int);
                        } else {
                            if exists|j: int| 0 <= j < s.len() && s[j].0 == k2 {
                                let j = choose|j: int| 0 <= j < s.len() && s[j].0 == k2;
                                assert(s2[j].0 == k2);
                                lemma_pair_in_map(s, j);
                                lemma_pair_in_map(s2, j);
                            } else {
                                if exists|j: int| 0 <= j < s2.len() && s2[j].0 == k2 {
                                    let j = choose|j: int| 0 <= j < s2.len() && s2[j].0 == k2;
                                    assert(j < s.len() || s2[j] == (k, v));
                                    assert(s[j].0 == k2);
                                }
                            }
                        }
                    });
                }
            },
        }
    }

    pub fn take(&mut self, k: u64) -> (r: Option<V>)
        requires
            old(self).wf(),
        ensures
            final (self).wf(),
            match r {
                Some(v) => old(self)@.contains_key(k) && v == old(self)@[k] && final (self)@
                    == old(self)@.remove(k),
                None => !old(self)@.contains_key(k) && *final (self) == *old(self),
            },
            final (self).pairs().len() <= old(self).pairs().len(),
    {
        let ghost s = self.entries@;
        match self.index_of(k) {
            Some(i) => {
                proof {
                    lemma_pair_in_map(s, i as int);
                }
                let pair = self.entries.swap_remove(i);
                proof {
                    let s2 = self.entries@;
                    assert(s2 == s.update(i as int, s.last()).drop_last());
                    assert forall|j: int| 0 <= j < s2.len() implies #[trigger] s2[j] == (if j
                        == i as int {
                        s[s.len() - 1]
                    } else {
                        s[j]
                    }) by {}
                    assert(unique_keys(s2)) by {
                        assert forall|p: int, q: int| 0 <= p < q < s2.len() implies (
                        #[trigger] s2[p]).0 != (#[trigger] s2[q]).0 by {
                            let sp = if p == i as int { s.len() - 1 } else { p };
                            let sq = if q == i as int { s.len() - 1 } else { q };
                            assert(s2[p] == s[sp] && s2[q] == s[sq]);
                            assert(sp != sq);
                        }
                    };
                    assert_maps_equal!(pairs_map(s2), pairs_map(s).remove(k), k2 => {
                        if k2 == k {
                            if exists|j: int| 0 <= j < s2.len() && s2[j].0 == k {
                                let j = choose|j: int| 0 <= j < s2.len() && s2[j].0 == k;
                                let sj = if j == i as int { s.len() - 1 } else { j };
                                assert(s[sj].0 == k && s[i as int].0 == k && sj != i as int);
                            }
                        } else {
                            if exists|j: int| 0 <= j < s.len() && s[j].0 == k2 {
                                let j = choose|j: int| 0 <= j < s.len() && s[j].0 == k2;
                                lemma_pair_in_map(s, j);
                                // where the pair sits after the removal
                                let j2: int = if j == s.len() - 1 {
                                    i as int
                                } else {
                                    j
                                };
                                assert(j != i as int);
                                assert(0 <= j2 < s2.len() && s2[j2] == s[j]);
                                lemma_pair_in_map(s2, j2);
                            } else {
                                if exists|j: int| 0 <= j < s2.len() && s2[j].0 == k2 {
                                    let j = choose|j: int| 0 <= j < s2.len() && s2[j].0 == k2;
                                    let sj = if j == i as int { s.len() - 1 } else { j };
                                    assert(s[sj].0 == k2);
                                }
                            }
                        }
                    });
                }
                Some(pair.1)
            },
            None => {
                proof {
                    if self@.contains_key(k) {
                        let j = choose|j: int| 0 <= j < s.len() && s[j].0 == k;
                        assert(false);
                    }
                }
                None
            },
        }
    }
}

} // verus!
