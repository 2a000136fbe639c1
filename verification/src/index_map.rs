//! A small verified index: value -> position within one tier.
//!
//! Entries are kept in insertion order; a later entry for a key shadows an
//! earlier one, so the abstract content is the map folded from the entries
//! left to right.

use vstd::prelude::*;

verus! {

/// The map folded from a sequence of entries, later entries shadowing earlier
/// ones.
pub open spec fn entries_map(s: Seq<(u64, u16)>) -> Map<u64, u16>
    decreases s.len(),
{
    if s.len() == 0 {
        Map::empty()
    } else {
        entries_map(s.drop_last()).insert(s.last().0, s.last().1)
    }
}

/// Entries past position `i` aside, the folded map does not change at a key
/// none of them carries.
pub proof fn lemma_entries_map_skip(s: Seq<(u64, u16)>, i: int, k: u64)
    requires
        0 <= i <= s.len(),
        forall|j: int| i <= j < s.len() ==> (#[trigger] s[j]).0 != k,
    ensures
        entries_map(s).contains_key(k) == entries_map(s.take(i)).contains_key(k),
        entries_map(s).contains_key(k) ==> entries_map(s)[k] == entries_map(s.take(i))[k],
    decreases s.len(),
{
    if i == s.len() {
        assert(s.take(i) =~= s);
    } else {
        assert(s.last() == s[s.len() - 1]);
        assert(s.drop_last().take(i) =~= s.take(i));
        lemma_entries_map_skip(s.drop_last(), i, k);
    }
}

/// The folded map holds, at a key, the value of the last entry that carries
/// that key.
pub proof fn lemma_entries_map_found(s: Seq<(u64, u16)>, j: int, k: u64)
    requires
        0 <= j < s.len(),
        s[j].0 == k,
        forall|l: int| j < l < s.len() ==> (#[trigger] s[l]).0 != k,
    ensures
        entries_map(s).contains_key(k),
        entries_map(s)[k] == s[j].1,
{
    lemma_entries_map_skip(s, j + 1, k);
    let t = s.take(j + 1);
    assert(t.last() == s[j]);
    assert(entries_map(t) == entries_map(t.drop_last()).insert(k, s[j].1));
}

/// Any key that appears among the entries is in the folded map.
pub proof fn lemma_entries_map_has_key(s: Seq<(u64, u16)>, j: int)
    requires
        0 <= j < s.len(),
    ensures
        entries_map(s).contains_key(s[j].0),
    decreases s.len(),
{
    if j < s.len() - 1 {
        lemma_entries_map_has_key(s.drop_last(), j);
        assert(s.drop_last()[j] == s[j]);
    }
}

/// An index from committed values to positions. An entry is recorded in
/// O(1) amortized time; a lookup scans backward from the most recent entry,
/// so it takes time linear in the number of entries.
#[derive(Clone, Debug, PartialEq, Eq)]
pub struct IndexMap {
    pub entries: Vec<(u64, u16)>,
}

impl View for IndexMap {
    type V = Map<u64, u16>;

    open spec fn view(&self) -> Map<u64, u16> {
        entries_map(self.entries@)
    }
}

impl IndexMap {
    /// Creates an empty index.
    pub fn new() -> (r: IndexMap)
        ensures
            r@ == Map::<u64, u16>::empty(),
            r.entries@.len() == 0,
    {
        IndexMap { entries: Vec::new() }
    }

    /// Looks a value up, returning its position when it is indexed.
    pub fn get(&self, k: u64) -> (r: Option<u16>)
        ensures
            match r {
                Some(p) => self@.contains_key(k) && self@[k] == p,
                None => !self@.contains_key(k),
            },
    {
        let n: usize = self.entries.len();
        let mut i: usize = n;
        while i > 0
            invariant
                i <= n,
                n == self.entries@.len(),
                forall|j: int| i <= j < n ==> (#[trigger] self.entries@[j]).0 != k,
            decreases i,
        {
            i = i - 1;
            let e = self.entries[i];
            if e.0 == k {
                proof {
                    lemma_entries_map_found(self.entries@, i as int, k);
                }
                return Some(e.1);
            }
        }
        proof {
            lemma_entries_map_skip(self.entries@, 0, k);
            assert(self.entries@.take(0) =~= Seq::<(u64, u16)>::empty());
        }
        None
    }

    /// Records a position for a value, shadowing any earlier record.
    pub fn insert(&mut self, k: u64, p: u16)
        ensures
            final(self)@ == old(self)@.insert(k, p),
            final(self).entries@ == old(self).entries@.push((k, p)),
    {
        self.entries.push((k, p));
        proof {
            let s = old(self).entries@;
            assert(s.push((k, p)).drop_last() =~= s);
        }
    }

    /// Strikes a value from the index.
    pub fn remove_key(&mut self, k: u64)
        ensures
            final(self)@ == old(self)@.remove(k),
    {
        let n: usize = self.entries.len();
        let mut kept: Vec<(u64, u16)> = Vec::new();
        let mut i: usize = 0;
        while i < n
            invariant
                i <= n,
                n == self.entries@.len(),
                self.entries@ == old(self).entries@,
                entries_map(kept@) =~= entries_map(self.entries@.take(i as int)).remove(k),
            decreases n - i,
        {
            let e = self.entries[i];
            proof {
                let s = self.entries@;
                assert(s.take(i + 1).drop_last() =~= s.take(i as int));
                assert(s.take(i + 1).last() == s[i as int]);
            }
            if e.0 != k {
                let ghost pre = kept@;
                kept.push(e);
                proof {
                    assert(kept@.drop_last() =~= pre);
                    assert(entries_map(kept@) =~= entries_map(
                        self.entries@.take(i + 1),
                    ).remove(k));
                }
            } else {
                proof {
                    assert(entries_map(kept@) =~= entries_map(
                        self.entries@.take(i + 1),
                    ).remove(k));
                }
            }
            i = i + 1;
        }
        proof {
            assert(self.entries@.take(n as int) =~= self.entries@);
        }
        self.entries = kept;
    }
}

} // verus!
