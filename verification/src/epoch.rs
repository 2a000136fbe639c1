//! An epoch: one tier of block trees, plus the two indices resolving a kept
//! item's value to its (block, item) address.

use vstd::prelude::*;
use crate::digest::Digest;
use crate::index_map::{entries_map, IndexMap};
use crate::insert::{Insert, Item};
use crate::tree::{
    block_slot_bounded, epoch_digest, epoch_tree_bounded, EpochTree, TIER_CAPACITY,
};

verus! {

/// Within an epoch-level tier, position (b, i) currently holds the kept item
/// `v`: block `b` is kept and its slot `i` holds `Keep(v)`.
pub open spec fn epoch_slot_ok(slots: Seq<Insert<crate::tree::BlockTree>>, b: u16, i: u16, v: u64) -> bool {
    &&& b < slots.len()
    &&& match slots[b as int] {
        Insert::Keep(bt) => i < bt.slots@.len() && bt.slots@[i as int] == Insert::Keep(
            Item { value: v },
        ),
        Insert::Hash(_) => false,
    }
}

/// The tier slot an inserted block collapses to: a kept block contributes its
/// bare tree, a pruned one its digest.
pub open spec fn block_to_slot(b: Insert<crate::block::Block>) -> Insert<crate::tree::BlockTree> {
    match b {
        Insert::Keep(blk) => Insert::Keep(blk.inner),
        Insert::Hash(d) => Insert::Hash(d),
    }
}

/// A tier of up to 65,536 blocks, witnessable by value through two indices.
#[derive(Clone, Debug, PartialEq, Eq)]
pub struct Epoch {
    pub inner: EpochTree,
    pub block_index: IndexMap,
    pub item_index: IndexMap,
}

impl Epoch {
    /// The indices are complete (both hold exactly the same values) and
    /// correct (every indexed value addresses a kept slot holding it), and
    /// every tier respects its capacity.
    pub open spec fn wf(&self) -> bool {
        &&& epoch_tree_bounded(self.inner.slots@)
        &&& forall|v: u64| #[trigger] self.item_index@.contains_key(v)
            ==> self.block_index@.contains_key(v)
        &&& forall|v: u64| #[trigger] self.block_index@.contains_key(v) ==> {
            &&& self.item_index@.contains_key(v)
            &&& epoch_slot_ok(
                self.inner.slots@,
                self.block_index@[v],
                self.item_index@[v],
                v,
            )
        }
    }

    /// Creates an empty epoch.
    pub fn new() -> (r: Epoch)
        ensures
            r.wf(),
            r.inner.slots@.len() == 0,
            r.block_index@ == Map::<u64, u16>::empty(),
            r.item_index@ == Map::<u64, u16>::empty(),
    {
        Epoch { inner: EpochTree::new(), block_index: IndexMap::new(), item_index: IndexMap::new() }
    }

    /// Appends one block, or its digest, to this epoch. A kept block's index
    /// merges upward: each of its values is recorded under the block position
    /// it lands on, with its position within the block kept verbatim. A value
    /// committed more than once resolves to its most recent kept occurrence.
    /// A full epoch rejects the block, returning it unchanged and mutating
    /// nothing.
    pub fn insert(&mut self, block: Insert<crate::block::Block>) -> (r: Result<
        (),
        Insert<crate::block::Block>,
    >)
        requires
            old(self).wf(),
            block matches Insert::Keep(blk) ==> blk.wf(),
        ensures
            final(self).wf(),
            old(self).inner.slots@.len() >= TIER_CAPACITY ==> r == Err::<
                (),
                Insert<crate::block::Block>,
            >(block) && *final(self) == *old(self),
            old(self).inner.slots@.len() < TIER_CAPACITY ==> {
                &&& r is Ok
                &&& final(self).inner.slots@ == old(self).inner.slots@.push(block_to_slot(block))
                &&& match block {
                    Insert::Hash(_) => final(self).block_index@ == old(self).block_index@
                        && final(self).item_index@ == old(self).item_index@,
                    Insert::Keep(blk) => {
                        &&& forall|v: u64| #[trigger] blk.item_index@.contains_key(v) ==> {
                            &&& final(self).block_index@.contains_key(v)
                            &&& final(self).block_index@[v] == old(self).inner.slots@.len() as u16
                            &&& final(self).item_index@.contains_key(v)
                            &&& final(self).item_index@[v] == blk.item_index@[v]
                        }
                        &&& forall|v: u64| !(#[trigger] blk.item_index@.contains_key(v)) ==> {
                            &&& final(self).block_index@.contains_key(v) == old(self).block_index@.contains_key(v)
                            &&& final(self).item_index@.contains_key(v) == old(self).item_index@.contains_key(v)
                            &&& (old(self).block_index@.contains_key(v) ==> final(self).block_index@[v] == old(self).block_index@[v])
                            &&& (old(self).item_index@.contains_key(v) ==> final(self).item_index@[v] == old(self).item_index@[v])
                        }
                    },
                }
            },
    {
        let n: usize = self.inner.slots.len();
        if n >= TIER_CAPACITY {
            return Err(block);
        }
        match block {
            Insert::Hash(d) => {
                self.inner.slots.push(Insert::Hash(d));
                proof {
                    assert forall|v: u64| #[trigger] self.item_index@.contains_key(v) implies
                        self.block_index@.contains_key(v) by {
                        assert(old(self).item_index@.contains_key(v));
                    }
                    assert forall|v: u64| #[trigger] self.block_index@.contains_key(v) implies {
                        &&& self.item_index@.contains_key(v)
                        &&& epoch_slot_ok(
                            self.inner.slots@,
                            self.block_index@[v],
                            self.item_index@[v],
                            v,
                        )
                    } by {
                        assert(epoch_slot_ok(
                            old(self).inner.slots@,
                            old(self).block_index@[v],
                            old(self).item_index@[v],
                            v,
                        ));
                        assert(self.inner.slots@[old(self).block_index@[v] as int]
                            == old(self).inner.slots@[old(self).block_index@[v] as int]);
                    }
                    assert forall|b: int| 0 <= b < self.inner.slots@.len() implies
                        block_slot_bounded(#[trigger] self.inner.slots@[b]) by {
                        if b < old(self).inner.slots@.len() {
                            assert(self.inner.slots@[b] == old(self).inner.slots@[b]);
                        }
                    }
                }
                Ok(())
            },
            Insert::Keep(blk) => {
                let ghost gblk = blk;
                let ghost pre = *old(self);
                let crate::block::Block { inner, item_index } = blk;
                self.inner.slots.push(Insert::Keep(inner));
                let ghost s = item_index.entries@;
                let m: usize = item_index.entries.len();
                let mut j: usize = 0;
                while j < m
                    invariant
                        j <= m,
                        m == s.len(),
                        item_index.entries@ == s,
                        gblk.item_index@ == entries_map(s),
                        n == pre.inner.slots@.len(),
                        self.inner.slots@ == pre.inner.slots@.push(Insert::Keep(gblk.inner)),
                        forall|v: u64| #[trigger] entries_map(s.take(j as int)).contains_key(v)
                            ==> {
                            &&& self.block_index@.contains_key(v)
                            &&& self.block_index@[v] == n as u16
                            &&& self.item_index@.contains_key(v)
                            &&& self.item_index@[v] == entries_map(s.take(j as int))[v]
                        },
                        forall|v: u64| !(#[trigger] entries_map(s.take(j as int)).contains_key(v))
                            ==> {
                            &&& self.block_index@.contains_key(v) == pre.block_index@.contains_key(
                                v,
                            )
                            &&& self.item_index@.contains_key(v) == pre.item_index@.contains_key(v)
                            &&& pre.block_index@.contains_key(v) ==> self.block_index@[v]
                                == pre.block_index@[v]
                            &&& pre.item_index@.contains_key(v) ==> self.item_index@[v]
                                == pre.item_index@[v]
                        },
                    decreases m - j,
                {
                    let e = item_index.entries[j];
                    self.block_index.insert(e.0, n as u16);
                    self.item_index.insert(e.0, e.1);
                    proof {
                        assert(s.take(j + 1).drop_last() =~= s.take(j as int));
                        assert(s.take(j + 1).last() == s[j as int]);
                        assert(entries_map(s.take(j + 1)) == entries_map(s.take(j as int)).insert(
                            e.0,
                            e.1,
                        ));
                    }
                    j = j + 1;
                }
                proof {
                    assert(s.take(m as int) =~= s);
                    assert forall|v: u64| #[trigger] self.item_index@.contains_key(v) implies
                        self.block_index@.contains_key(v) by {
                        if !entries_map(s).contains_key(v) {
                            assert(pre.item_index@.contains_key(v));
                        }
                    }
                    assert forall|v: u64| #[trigger] self.block_index@.contains_key(v) implies {
                        &&& self.item_index@.contains_key(v)
                        &&& epoch_slot_ok(
                            self.inner.slots@,
                            self.block_index@[v],
                            self.item_index@[v],
                            v,
                        )
                    } by {
                        if entries_map(s).contains_key(v) {
                            assert(gblk.item_index@.contains_key(v));
                            assert(self.inner.slots@[n as int] == Insert::Keep(gblk.inner));
                        } else {
                            assert(pre.block_index@.contains_key(v));
                            assert(epoch_slot_ok(
                                pre.inner.slots@,
                                pre.block_index@[v],
                                pre.item_index@[v],
                                v,
                            ));
                            assert(self.inner.slots@[pre.block_index@[v] as int]
                                == pre.inner.slots@[pre.block_index@[v] as int]);
                        }
                    }
                    assert forall|b: int| 0 <= b < self.inner.slots@.len() implies
                        block_slot_bounded(#[trigger] self.inner.slots@[b]) by {
                        if b < pre.inner.slots@.len() {
                            assert(self.inner.slots@[b] == pre.inner.slots@[b]);
                        } else {
                            assert(self.inner.slots@[b] == Insert::Keep(gblk.inner));
                        }
                    }
                }
                Ok(())
            },
        }
    }

    /// The root digest of this epoch.
    pub fn hash(&self) -> (r: Digest)
        ensures
            r.value == epoch_digest(self.inner.slots@),
    {
        Digest { value: self.inner.root() }
    }

    /// Produces the authentication path and leaf digest for a kept value:
    /// `Some` exactly when the value is indexed, the path carrying the
    /// digests of the enclosing block and of this epoch.
    pub fn witness(&self, value: u64) -> (r: Option<(Vec<Digest>, Digest)>)
        requires
            self.wf(),
        ensures
            r is Some <==> self.item_index@.contains_key(value),
            match r {
                Some((path, leaf)) => {
                    &&& path@.len() == 2
                    &&& path@[0].value == crate::tree::block_slot_digest(
                        self.inner.slots@[self.block_index@[value] as int],
                    )
                    &&& path@[1].value == epoch_digest(self.inner.slots@)
                    &&& leaf == (Digest { value: crate::digest::item_digest(value) })
                },
                None => true,
            },
    {
        let b_pos: u16 = match self.block_index.get(value) {
            None => {
                proof {
                    if self.item_index@.contains_key(value) {
                        assert(self.block_index@.contains_key(value));
                    }
                }
                return None;
            },
            Some(b) => b,
        };
        match &self.inner.slots[b_pos as usize] {
            Insert::Keep(bt) => {
                let mut path: Vec<Digest> = Vec::new();
                path.push(Digest { value: bt.root() });
                path.push(self.hash());
                Some((path, Digest { value: crate::digest::item_digest64(value) }))
            },
            Insert::Hash(_) => {
                proof {
                    assert(false);
                }
                None
            },
        }
    }

    /// Prunes a kept value to its digest and strikes it from both indices,
    /// returning whether it was indexed. The root digest never changes, and
    /// only the single item slot at the value's address is touched.
    pub fn forget(&mut self, value: u64) -> (r: bool)
        requires
            old(self).wf(),
        ensures
            final(self).wf(),
            r == old(self).item_index@.contains_key(value),
            final(self).block_index@ == old(self).block_index@.remove(value),
            final(self).item_index@ == old(self).item_index@.remove(value),
            epoch_digest(final(self).inner.slots@) == epoch_digest(old(self).inner.slots@),
            final(self).inner.slots@.len() == old(self).inner.slots@.len(),
            !r ==> *final(self) == *old(self),
            r ==> crate::tree::epoch_tier_pruned_at(
                old(self).inner.slots@,
                final(self).inner.slots@,
                old(self).block_index@[value] as int,
                old(self).item_index@[value] as int,
                crate::digest::item_digest(value),
            ),
    {
        let i_pos: u16 = match self.item_index.get(value) {
            None => {
                proof {
                    assert(old(self).block_index@.remove(value) =~= old(self).block_index@);
                    assert(old(self).item_index@.remove(value) =~= old(self).item_index@);
                }
                return false;
            },
            Some(i) => i,
        };
        let b_pos: u16 = match self.block_index.get(value) {
            Some(b) => b,
            None => {
                proof {
                    assert(false);
                }
                return false;
            },
        };
        let ghost pre = *old(self);
        let bslot = &mut self.inner.slots[b_pos as usize];
        match bslot {
            Insert::Keep(bt) => {
                let islot = &mut bt.slots[i_pos as usize];
                *islot = Insert::Hash(Digest { value: crate::digest::item_digest64(value) });
            },
            Insert::Hash(_) => {
                proof {
                    assert(false);
                }
            },
        }
        self.item_index.remove_key(value);
        self.block_index.remove_key(value);
        proof {
            let b = b_pos as int;
            let i = i_pos as int;
            let bt_old = pre.inner.slots@[b]->Keep_0;
            assert(self.inner.slots@[b] is Keep);
            let bt_new = self.inner.slots@[b]->Keep_0;
            assert(self.inner.slots@.len() == pre.inner.slots@.len());
            assert(forall|x: int|
                0 <= x < pre.inner.slots@.len() && x != b ==> #[trigger] self.inner.slots@[x]
                    == pre.inner.slots@[x]);
            assert(bt_new.slots@ =~= bt_old.slots@.update(
                i,
                Insert::Hash(Digest { value: crate::digest::item_digest(value) }),
            ));
            assert forall|x: int| 0 <= x < bt_old.slots@.len() implies
                crate::tree::item_slot_digest(#[trigger] bt_new.slots@[x])
                    == crate::tree::item_slot_digest(bt_old.slots@[x]) by {}
            crate::tree::lemma_block_digest_pointwise(bt_new.slots@, bt_old.slots@);
            assert forall|x: int| 0 <= x < pre.inner.slots@.len() implies
                crate::tree::block_slot_digest(#[trigger] self.inner.slots@[x])
                    == crate::tree::block_slot_digest(pre.inner.slots@[x]) by {}
            crate::tree::lemma_epoch_digest_pointwise(self.inner.slots@, pre.inner.slots@);
            assert forall|v: u64| #[trigger] self.block_index@.contains_key(v) implies {
                &&& self.item_index@.contains_key(v)
                &&& epoch_slot_ok(
                    self.inner.slots@,
                    self.block_index@[v],
                    self.item_index@[v],
                    v,
                )
            } by {
                assert(pre.block_index@.contains_key(v));
                assert(v != value);
                let vb = pre.block_index@[v] as int;
                let vi = pre.item_index@[v] as int;
                assert(epoch_slot_ok(
                    pre.inner.slots@,
                    pre.block_index@[v],
                    pre.item_index@[v],
                    v,
                ));
                if vb == b {
                    assert(vi != i) by {
                        if vi == i {
                            assert(bt_old.slots@[i] == Insert::Keep(Item { value: v }));
                            assert(bt_old.slots@[i] == Insert::Keep(Item { value }));
                        }
                    }
                    assert(bt_new.slots@[vi] == bt_old.slots@[vi]);
                } else {
                    assert(self.inner.slots@[vb] == pre.inner.slots@[vb]);
                }
            }
            assert forall|v: u64| #[trigger] self.item_index@.contains_key(v) implies
                self.block_index@.contains_key(v) by {
                assert(pre.item_index@.contains_key(v));
            }
            assert forall|x: int| 0 <= x < self.inner.slots@.len() implies
                block_slot_bounded(#[trigger] self.inner.slots@[x]) by {
                if x != b {
                    assert(self.inner.slots@[x] == pre.inner.slots@[x]);
                } else {
                    assert(block_slot_bounded(pre.inner.slots@[b]));
                }
            }
            assert(crate::tree::epoch_tier_pruned_at(
                pre.inner.slots@,
                self.inner.slots@,
                b,
                i,
                crate::digest::item_digest(value),
            ));
        }
        true
    }
}

} // verus!
