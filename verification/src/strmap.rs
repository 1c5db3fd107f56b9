//! A map keyed by strings, kept in key order.
//!
//! Every map in the original is a `BTreeMap<String, _>`, and what its users rely on is two things:
//! a key holds one value, and walking the map yields the keys in order. This holds both as a type
//! invariant over a plain vector of pairs, which is what lets a contract say which value a key
//! gives back and in which order the keys come out.

use vstd::prelude::*;
use crate::order::{before, lemma_irreflexive, lemma_total, lemma_transitive};

verus! {

/// The keys of a list of pairs, as character sequences.
pub open spec fn keys_of<V>(pairs: Seq<(String, V)>) -> Seq<Seq<char>> {
    pairs.map_values(|e: (String, V)| e.0@)
}

/// Every key sorts strictly before the next ones, so no key appears twice.
pub open spec fn ascending(keys: Seq<Seq<char>>) -> bool {
    forall|i: int, j: int| 0 <= i < j < keys.len() ==> before(#[trigger] keys[i], #[trigger] keys[j])
}

/// The map a list of pairs stands for: each key to the value beside it.
pub open spec fn map_of<V>(pairs: Seq<(String, V)>) -> Map<Seq<char>, V> {
    Map::new(
        |k: Seq<char>| keys_of(pairs).contains(k),
        |k: Seq<char>| pairs[keys_of(pairs).index_of(k)].1,
    )
}

/// A map from strings to `V`, in ascending key order.
#[derive(Debug)]
pub struct StrMap<V> {
    entries: Vec<(String, V)>,
}

impl<V> StrMap<V> {
    /// The pairs, in ascending key order.
    pub closed spec fn pairs(self) -> Seq<(String, V)> {
        self.entries@
    }

    /// The keys, in ascending order.
    pub open spec fn keys(self) -> Seq<Seq<char>> {
        keys_of(self.pairs())
    }

    #[verifier::type_invariant]
    closed spec fn sorted(self) -> bool {
        ascending(keys_of(self.entries@))
    }

    /// A map with no key.
    pub fn new() -> (m: Self)
        ensures
            m.pairs().len() == 0,
            m@ == Map::<Seq<char>, V>::empty(),
    {
        let m = StrMap { entries: Vec::new() };
        assert(map_of(m.entries@) =~= Map::<Seq<char>, V>::empty());
        m
    }

    /// How many keys it holds.
    pub fn len(&self) -> (n: usize)
        ensures
            n == self.pairs().len(),
    {
        self.entries.len()
    }

    /// The pairs, in ascending key order, each key once.
    pub fn pairs_vec(&self) -> (r: &Vec<(String, V)>)
        ensures
            r@ == self.pairs(),
            ascending(self.keys()),
    {
        proof {
            use_type_invariant(self);
        }
        &self.entries
    }

    /// The value `key` holds, if any.
    pub fn get(&self, key: &str) -> (r: Option<&V>)
        ensures
            r is Some <==> self@.contains_key(key@),
            r matches Some(v) ==> *v == self@[key@],
    {
        proof {
            use_type_invariant(self);
        }
        let mut i: usize = 0;
        while i < self.entries.len()
            invariant
                i <= self.entries.len(),
                ascending(keys_of(self.entries@)),
                forall|j: int| 0 <= j < i ==> self.entries@[j].0@ != key@,
            decreases self.entries.len() - i,
        {
            if crate::order::same(self.entries[i].0.as_str(), key) {
                proof {
                    let ks = keys_of(self.entries@);
                    assert(ks[i as int] == key@);
                    assert(ks.contains(key@));
                    let at = ks.index_of(key@);
                    assert(0 <= at < ks.len() && ks[at] == key@);
                    if at != i as int {
                        if at < i {
                            lemma_irreflexive(key@);
                            assert(before(ks[at], ks[i as int]));
                        } else {
                            lemma_irreflexive(key@);
                            assert(before(ks[i as int], ks[at]));
                        }
                    }
                }
                return Some(&self.entries[i].1);
            }
            i = i + 1;
        }
        proof {
            let ks = keys_of(self.entries@);
            if ks.contains(key@) {
                let at = ks.index_of(key@);
                assert(self.entries@[at].0@ == key@);
            }
        }
        None
    }

    /// Sets `key` to `value`, replacing whatever it held.
    pub fn insert(&mut self, key: String, value: V)
        ensures
            final(self)@ == old(self)@.insert(key@, value),
    {
        proof {
            use_type_invariant(&*self);
        }
        let ghost old_pairs = self.entries@;
        let ghost ks = keys_of(old_pairs);
        let mut i: usize = 0;
        while i < self.entries.len() && crate::order::sorts_before(self.entries[i].0.as_str(), key.as_str())
            invariant
                i <= self.entries.len(),
                self.entries@ == old_pairs,
                ks == keys_of(old_pairs),
                ascending(ks),
                forall|j: int| 0 <= j < i ==> before(#[trigger] ks[j], key@),
            decreases self.entries.len() - i,
        {
            i = i + 1;
        }
        if i < self.entries.len() && crate::order::same(self.entries[i].0.as_str(), key.as_str()) {
            let ghost k = key@;
            let mut entries: Vec<(String, V)> = Vec::new();
            std::mem::swap(&mut entries, &mut self.entries);
            entries.set(i, (key, value));
            proof {
                let nk = keys_of(entries@);
                assert(nk =~= ks);
                let m_old = map_of(old_pairs);
                let m_new = map_of(entries@);
                assert(ks[i as int] == k);
                assert(m_new.dom() =~= m_old.insert(k, value).dom());
                assert forall|q: Seq<char>| #![auto] m_new.contains_key(q) implies m_new[q] == m_old.insert(k, value)[q] by {
                    let a = nk.index_of(q);
                    assert(0 <= a < nk.len() && nk[a] == q);
                    if q == k {
                        if a != i as int {
                            lemma_irreflexive(k);
                            if a < i { assert(before(nk[a], nk[i as int])); } else { assert(before(nk[i as int], nk[a])); }
                        }
                    } else {
                        let b = ks.index_of(q);
                        assert(0 <= b < ks.len() && ks[b] == q);
                        if a != b {
                            lemma_irreflexive(q);
                            if a < b { assert(before(nk[a], nk[b])); } else { assert(before(nk[b], nk[a])); }
                        }
                    }
                }
                assert(m_new =~= m_old.insert(k, value));
            }
            self.entries = entries;
        } else {
            let ghost k = key@;
            proof {
                if i < self.entries.len() {
                    lemma_total(ks[i as int], k);
                }
            }
            let mut entries: Vec<(String, V)> = Vec::new();
            std::mem::swap(&mut entries, &mut self.entries);
            entries.insert(i, (key, value));
            proof {
                let nk = keys_of(entries@);
                assert(nk =~= ks.insert(i as int, k));
                assert forall|a: int, b: int| 0 <= a < b < nk.len() implies before(#[trigger] nk[a], #[trigger] nk[b]) by {
                    if b < i {
                    } else if b == i {
                    } else if a < i {
                        lemma_transitive(nk[a], k, ks[i as int]);
                        if b - 1 > i {
                            lemma_transitive(nk[a], ks[i as int], nk[b]);
                        }
                    } else if a == i {
                        if b - 1 > i {
                            lemma_transitive(k, ks[i as int], nk[b]);
                        }
                    } else {
                    }
                }
                let m_old = map_of(old_pairs);
                let m_new = map_of(entries@);
                assert(nk[i as int] == k);
                assert forall|q: Seq<char>| #![auto] m_new.contains_key(q) <==> m_old.insert(k, value).contains_key(q) by {
                    if ks.contains(q) {
                        let b = ks.index_of(q);
                        assert(0 <= b < ks.len() && ks[b] == q);
                        if b < i { assert(nk[b] == q); } else { assert(nk[b + 1] == q); }
                    }
                    if nk.contains(q) && q != k {
                        let a = nk.index_of(q);
                        assert(0 <= a < nk.len() && nk[a] == q);
                        if a < i { assert(ks[a] == q); } else if a > i { assert(ks[a - 1] == q); }
                    }
                }
                assert forall|q: Seq<char>| #![auto] m_new.contains_key(q) implies m_new[q] == m_old.insert(k, value)[q] by {
                    let a = nk.index_of(q);
                    assert(0 <= a < nk.len() && nk[a] == q);
                    if q == k {
                        if a != i as int {
                            lemma_irreflexive(k);
                            if a < i { assert(before(nk[a], nk[i as int])); } else { assert(before(nk[i as int], nk[a])); }
                        }
                    } else {
                        let b = ks.index_of(q);
                        assert(0 <= b < ks.len() && ks[b] == q);
                        let b2 = if b < i { b } else { b + 1 };
                        assert(nk[b2] == q);
                        if a != b2 {
                            lemma_irreflexive(q);
                            if a < b2 { assert(before(nk[a], nk[b2])); } else { assert(before(nk[b2], nk[a])); }
                        }
                    }
                }
                assert(m_new =~= m_old.insert(k, value));
            }
            self.entries = entries;
        }
    }
}

impl<V> StrMap<V> {
    /// The map a `StrMap` stands for is the one its pairs stand for.
    pub proof fn lemma_view(&self)
        ensures
            self@ == map_of(self.pairs()),
    {
    }
}

/// In a list of pairs whose keys ascend, each key gives back the value beside it, and the map
/// holds no other key.
pub proof fn lemma_map_of_ascending<V>(pairs: Seq<(String, V)>)
    requires
        ascending(keys_of(pairs)),
    ensures
        forall|j: int|
            0 <= j < pairs.len() ==> map_of(pairs).contains_key(#[trigger] pairs[j].0@) && map_of(
                pairs,
            )[pairs[j].0@] == pairs[j].1,
        forall|k: Seq<char>| map_of(pairs).contains_key(k) <==> keys_of(pairs).contains(k),
{
    let ks = keys_of(pairs);
    assert forall|j: int| 0 <= j < pairs.len() implies map_of(pairs).contains_key(
        #[trigger] pairs[j].0@,
    ) && map_of(pairs)[pairs[j].0@] == pairs[j].1 by {
        assert(ks[j] == pairs[j].0@);
        assert(ks.contains(ks[j]));
        let at = ks.index_of(ks[j]);
        assert(0 <= at < ks.len() && ks[at] == ks[j]);
        if at != j {
            lemma_irreflexive(ks[j]);
            if at < j {
                assert(before(ks[at], ks[j]));
            } else {
                assert(before(ks[j], ks[at]));
            }
        }
    }
}

impl<V> View for StrMap<V> {
    type V = Map<Seq<char>, V>;

    closed spec fn view(&self) -> Map<Seq<char>, V> {
        map_of(self.entries@)
    }
}

} // verus!
