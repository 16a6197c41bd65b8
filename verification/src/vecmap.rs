//! An ordered map from `u64` keys, backed by a sorted vector.
//!
//! The observer keys everything it tracks (identities, versions, node tables,
//! clocks) by small integer identifiers and serializes it in ascending key
//! order, so the map keeps its entries strictly sorted and exposes them both
//! as a mathematical [`Map`] and as an ordered entry sequence.

use vstd::prelude::*;

verus! {

/// Entries strictly ascending by key.
pub open spec fn entries_wf<V>(s: Seq<(u64, V)>) -> bool {
    forall|i: int, j: int| 0 <= i < j < s.len() ==> (#[trigger] s[i]).0 < (#[trigger] s[j]).0
}

/// The mathematical map an entry sequence denotes.
pub open spec fn entries_map<V>(s: Seq<(u64, V)>) -> Map<u64, V>
    decreases s.len(),
{
    if s.len() == 0 {
        Map::empty()
    } else {
        entries_map(s.drop_last()).insert(s.last().0, s.last().1)
    }
}

/// A key is in the denoted map exactly when some entry holds it, and then the
/// map carries that entry's value.
pub proof fn lemma_entries_map_index<V>(s: Seq<(u64, V)>, k: u64)
    ensures
        entries_map(s).contains_key(k) <==> exists|i: int| 0 <= i < s.len() && (#[trigger] s[i]).0
            == k,
        forall|i: int|
            0 <= i < s.len() && (#[trigger] s[i]).0 == k && entries_wf(s) ==> entries_map(s)
                .contains_key(k) && entries_map(s)[k] == s[i].1,
    decreases s.len(),
{
    if s.len() > 0 {
        lemma_entries_map_index(s.drop_last(), k);
        assert(forall|i: int|
            0 <= i < s.len() - 1 ==> (#[trigger] s[i]) == s.drop_last()[i]);
        if s.last().0 == k {
            assert(s[s.len() - 1].0 == k);
        }
    }
}

/// Which keys a denoted map holds, over all keys at once.
pub proof fn lemma_entries_map_index_all<V>(s: Seq<(u64, V)>)
    ensures
        forall|k: u64|
            entries_map(s).contains_key(k) <==> exists|i: int|
                0 <= i < s.len() && (#[trigger] s[i]).0 == k,
{
    assert forall|k: u64|
        entries_map(s).contains_key(k) <==> exists|i: int|
            0 <= i < s.len() && (#[trigger] s[i]).0 == k by {
        lemma_entries_map_index(s, k);
    }
}

/// An ordered map from `u64` keys to values, kept sorted by key.
#[derive(Debug, Clone)]
pub struct VecMap<V> {
    entries: Vec<(u64, V)>,
}

impl<V> View for VecMap<V> {
    type V = Map<u64, V>;

    closed spec fn view(&self) -> Map<u64, V> {
        entries_map(self.entries@)
    }
}

impl<V> VecMap<V> {
    /// The entries, in ascending key order.
    pub closed spec fn seq(&self) -> Seq<(u64, V)> {
        self.entries@
    }

    /// The keys, in ascending order.
    pub open spec fn keys(&self) -> Seq<u64> {
        self.seq().map_values(|e: (u64, V)| e.0)
    }

    /// The entries are strictly sorted, and the map is their denotation.
    pub open spec fn wf(&self) -> bool {
        entries_wf(self.seq())
    }

    /// An empty map.
    pub fn new() -> (r: VecMap<V>)
        ensures
            r@ == Map::<u64, V>::empty(),
            r.wf(),
            r.seq().len() == 0,
    {
        let r = VecMap { entries: Vec::new() };
        proof {
            assert(r@ =~= Map::<u64, V>::empty());
        }
        r
    }

    /// The number of entries.
    pub fn len(&self) -> (r: usize)
        ensures
            r == self.seq().len(),
    {
        self.entries.len()
    }

    /// Is the map empty?
    pub fn is_empty(&self) -> (r: bool)
        ensures
            r <==> self.seq().len() == 0,
            r <==> self@ == Map::<u64, V>::empty(),
    {
        proof {
            if self.seq().len() == 0 {
                assert(self@ =~= Map::<u64, V>::empty());
            } else {
                lemma_entries_map_index(self.seq(), self.seq().last().0);
                assert(self@.contains_key(self.seq().last().0));
            }
        }
        self.entries.is_empty()
    }

    /// The entry at a position, in key order.
    pub fn entry_at(&self, i: usize) -> (r: &(u64, V))
        requires
            i < self.seq().len(),
        ensures
            *r == self.seq()[i as int],
            self.wf() ==> self@.contains_key(r.0) && self@[r.0] == r.1,
    {
        proof {
            lemma_entries_map_index(self.seq(), self.seq()[i as int].0);
        }
        &self.entries[i]
    }

    /// The first position whose key is not below `k`; the length if none is.
    fn position_of(&self, k: u64) -> (r: usize)
        requires
            self.wf(),
        ensures
            r <= self.seq().len(),
            forall|i: int| 0 <= i < r ==> (#[trigger] self.seq()[i]).0 < k,
            forall|i: int| r <= i < self.seq().len() ==> (#[trigger] self.seq()[i]).0 >= k,
    {
        let mut i: usize = 0;
        while i < self.entries.len()
            invariant
                self.wf(),
                i <= self.seq().len(),
                forall|j: int| 0 <= j < i ==> (#[trigger] self.seq()[j]).0 < k,
            decreases self.seq().len() - i,
        {
            if self.entries[i].0 >= k {
                proof {
                    assert forall|j: int|
                        i <= j < self.seq().len() implies (#[trigger] self.seq()[j]).0 >= k by {
                        if j != i {
                            assert(self.seq()[i as int].0 < self.seq()[j].0);
                        }
                    }
                }
                return i;
            }
            i = i + 1;
        }
        i
    }

    /// Look a key up.
    pub fn get(&self, k: u64) -> (r: Option<&V>)
        requires
            self.wf(),
        ensures
            r is Some <==> self@.contains_key(k),
            r is Some ==> *r->0 == self@[k],
    {
        proof {
            lemma_entries_map_index(self.seq(), k);
        }
        let p = self.position_of(k);
        if p < self.entries.len() && self.entries[p].0 == k {
            Some(&self.entries[p].1)
        } else {
            proof {
                if self@.contains_key(k) {
                    let i = choose|i: int|
                        0 <= i < self.seq().len() && (#[trigger] self.seq()[i]).0 == k;
                    assert(false);
                }
            }
            None
        }
    }

    /// Does the map hold this key?
    pub fn contains_key(&self, k: u64) -> (r: bool)
        requires
            self.wf(),
        ensures
            r <==> self@.contains_key(k),
    {
        match self.get(k) {
            Some(_) => true,
            None => false,
        }
    }

    /// Insert a value, replacing any previous value under the same key.
    pub fn insert(&mut self, k: u64, v: V)
        requires
            old(self).wf(),
        ensures
            final(self)@ == old(self)@.insert(k, v),
            final(self).wf(),
            final(self).seq().len() <= old(self).seq().len() + 1,
    {
        let p = self.position_of(k);
        if p < self.entries.len() && self.entries[p].0 == k {
            let ghost s0 = self.entries@;
            self.entries.remove(p);
            self.entries.insert(p, (k, v));
            proof {
                assert(self.entries@ =~= s0.update(p as int, (k, v)));
                lemma_entries_map_update(s0, p as int, v);
            }
        } else {
            let ghost s0 = self.entries@;
            self.entries.insert(p, (k, v));
            proof {
                lemma_entries_map_insert_at(s0, p as int, k, v);
            }
        }
    }

    /// The greatest key, if the map is not empty.
    pub fn last_key(&self) -> (r: Option<u64>)
        requires
            self.wf(),
        ensures
            r is Some <==> self.seq().len() > 0,
            r is None ==> self@ == Map::<u64, V>::empty(),
            r is Some ==> self@.contains_key(r->0),
            r is Some ==> forall|k: u64| self@.contains_key(k) ==> k <= r->0,
    {
        if self.entries.len() == 0 {
            proof {
                assert forall|k: u64| !self@.contains_key(k) by {
                    lemma_entries_map_index(self.seq(), k);
                }
            }
            None
        } else {
            let last = self.entries[self.entries.len() - 1].0;
            proof {
                lemma_entries_map_index(self.seq(), last);
                assert forall|k: u64| self@.contains_key(k) implies k <= last by {
                    lemma_entries_map_index(self.seq(), k);
                    let i = choose|i: int|
                        0 <= i < self.seq().len() && (#[trigger] self.seq()[i]).0 == k;
                    if i < self.seq().len() - 1 {
                        assert(self.seq()[i].0 < self.seq()[self.seq().len() - 1].0);
                    }
                }
            }
            Some(last)
        }
    }

    /// The denoted map holds exactly the keys of the entries, each with its
    /// entry's value.
    pub proof fn lemma_seq_view(&self)
        requires
            self.wf(),
        ensures
            forall|k: u64|
                self@.contains_key(k) <==> exists|i: int|
                    0 <= i < self.seq().len() && (#[trigger] self.seq()[i]).0 == k,
            forall|i: int|
                0 <= i < self.seq().len() ==> self@.contains_key((#[trigger] self.seq()[i]).0)
                    && self@[self.seq()[i].0] == self.seq()[i].1,
    {
        lemma_entries_map_index_all(self.entries@);
        assert forall|i: int|
            0 <= i < self.seq().len() implies self@.contains_key((#[trigger] self.seq()[i]).0)
            && self@[self.seq()[i].0] == self.seq()[i].1 by {
            lemma_entries_map_index(self.entries@, self.entries@[i].0);
        }
    }

    /// Remove a key, returning its value if it was present.
    pub fn remove(&mut self, k: u64) -> (r: Option<V>)
        requires
            old(self).wf(),
        ensures
            final(self)@ == old(self)@.remove(k),
            final(self).wf(),
            r is Some <==> old(self)@.contains_key(k),
            r is Some ==> r->0 == old(self)@[k],
    {
        proof {
            lemma_entries_map_index(self.seq(), k);
        }
        let p = self.position_of(k);
        if p < self.entries.len() && self.entries[p].0 == k {
            let ghost s0 = self.entries@;
            let (_, v) = self.entries.remove(p);
            proof {
                lemma_entries_map_remove_at(s0, p as int);
            }
            Some(v)
        } else {
            proof {
                if self@.contains_key(k) {
                    let i = choose|i: int|
                        0 <= i < self.seq().len() && (#[trigger] self.seq()[i]).0 == k;
                    assert(false);
                }
                assert(self@ =~= self@.remove(k));
            }
            None
        }
    }
}

/// Replacing the value at one position replaces it under that key in the
/// denoted map.
proof fn lemma_entries_map_update<V>(s: Seq<(u64, V)>, p: int, v: V)
    requires
        entries_wf(s),
        0 <= p < s.len(),
    ensures
        entries_map(s.update(p, (s[p].0, v))) == entries_map(s).insert(s[p].0, v),
        entries_wf(s.update(p, (s[p].0, v))),
    decreases s.len(),
{
    let k = s[p].0;
    let t = s.update(p, (k, v));
    assert(forall|i: int| 0 <= i < s.len() && i != p ==> t[i] == s[i]);
    if p == s.len() - 1 {
        assert(t.drop_last() =~= s.drop_last());
        assert(t.last() == (k, v));
        assert(entries_map(t) == entries_map(s.drop_last()).insert(k, v));
        assert(entries_map(s).insert(k, v) =~= entries_map(s.drop_last()).insert(k, v));
    } else {
        assert(t.drop_last() =~= s.drop_last().update(p, (k, v)));
        assert(s.drop_last()[p] == s[p]);
        lemma_entries_map_update(s.drop_last(), p, v);
        assert(t.last() == s.last());
        assert(k != s.last().0);
        assert(entries_map(t) == entries_map(s.drop_last()).insert(k, v).insert(
            s.last().0,
            s.last().1,
        ));
        assert(entries_map(s.drop_last()).insert(k, v).insert(s.last().0, s.last().1)
            =~= entries_map(s.drop_last()).insert(s.last().0, s.last().1).insert(k, v));
    }
}

/// Inserting an entry at the position that keeps the order inserts it in the
/// denoted map.
proof fn lemma_entries_map_insert_at<V>(s: Seq<(u64, V)>, p: int, k: u64, v: V)
    requires
        entries_wf(s),
        0 <= p <= s.len(),
        forall|i: int| 0 <= i < p ==> (#[trigger] s[i]).0 < k,
        forall|i: int| p <= i < s.len() ==> (#[trigger] s[i]).0 > k,
    ensures
        entries_map(s.insert(p, (k, v))) == entries_map(s).insert(k, v),
        entries_wf(s.insert(p, (k, v))),
    decreases s.len(),
{
    let t = s.insert(p, (k, v));
    assert(forall|i: int| 0 <= i < p ==> t[i] == s[i]);
    assert(forall|i: int| p < i < t.len() ==> t[i] == s[i - 1]);
    assert(t[p] == (k, v));
    if p == s.len() {
        assert(t.drop_last() =~= s);
        assert(t.last() == (k, v));
    } else {
        assert(t.drop_last() =~= s.drop_last().insert(p, (k, v)));
        lemma_entries_map_insert_at(s.drop_last(), p, k, v);
        assert(t.last() == s.last());
        assert(k != s.last().0);
        assert(entries_map(t) == entries_map(s.drop_last()).insert(k, v).insert(
            s.last().0,
            s.last().1,
        ));
        assert(entries_map(s.drop_last()).insert(k, v).insert(s.last().0, s.last().1)
            =~= entries_map(s.drop_last()).insert(s.last().0, s.last().1).insert(k, v));
    }
}

/// Removing the entry at a key's position removes the key from the denoted
/// map.
proof fn lemma_entries_map_remove_at<V>(s: Seq<(u64, V)>, p: int)
    requires
        entries_wf(s),
        0 <= p < s.len(),
    ensures
        entries_map(s.remove(p)) == entries_map(s).remove(s[p].0),
        entries_wf(s.remove(p)),
    decreases s.len(),
{
    let k = s[p].0;
    let t = s.remove(p);
    assert(forall|i: int| 0 <= i < p ==> t[i] == s[i]);
    assert(forall|i: int| p <= i < t.len() ==> t[i] == s[i + 1]);
    if p == s.len() - 1 {
        assert(t =~= s.drop_last());
        lemma_entries_map_index(t, k);
        assert(forall|i: int| 0 <= i < t.len() ==> (#[trigger] t[i]).0 != k);
        assert(!entries_map(t).contains_key(k));
        assert(entries_map(s).remove(k) =~= entries_map(t));
    } else {
        assert(t.drop_last() =~= s.drop_last().remove(p));
        assert(s.drop_last()[p] == s[p]);
        lemma_entries_map_remove_at(s.drop_last(), p);
        assert(t.last() == s.last());
        assert(k != s.last().0);
        assert(entries_map(t) == entries_map(s.drop_last()).remove(k).insert(
            s.last().0,
            s.last().1,
        ));
        assert(entries_map(s.drop_last()).remove(k).insert(s.last().0, s.last().1)
            =~= entries_map(s.drop_last()).insert(s.last().0, s.last().1).remove(k));
    }
}

} // verus!
