//! The three fixed-capacity append-only tiers and their root digests.
//!
//! Each tier holds up to 65,536 slots, every slot either a full child
//! (`Keep`) or the child's digest alone (`Hash`). The root digest of a tier
//! folds the digests of its slots left to right with `mix`, so pruning a kept
//! child to its own digest never disturbs any root above it.

use vstd::prelude::*;
use crate::digest::{
    mix, mix64, item_digest, item_digest64, Digest, EMPTY_BLOCK_DIGEST, EMPTY_EPOCH_DIGEST,
    EMPTY_ETERNITY_DIGEST,
};
use crate::insert::{Insert, Item};

verus! {

/// How many children one tier can hold.
pub const TIER_CAPACITY: usize = 65536;

/// The tree of one block: a tier of items.
#[derive(Clone, Debug, PartialEq, Eq)]
pub struct BlockTree {
    pub slots: Vec<Insert<Item>>,
}

/// The tree of one epoch: a tier of block trees.
#[derive(Clone, Debug, PartialEq, Eq)]
pub struct EpochTree {
    pub slots: Vec<Insert<BlockTree>>,
}

/// The tree of the eternity: a tier of epoch trees.
#[derive(Clone, Debug, PartialEq, Eq)]
pub struct EternityTree {
    pub slots: Vec<Insert<EpochTree>>,
}

/// Digest of one slot of a block: the item's digest, or the recorded digest
/// of a pruned item.
pub open spec fn item_slot_digest(s: Insert<Item>) -> u64 {
    match s {
        Insert::Keep(item) => item_digest(item.value),
        Insert::Hash(d) => d.value,
    }
}

/// Root digest of a block tree with the given slots.
pub open spec fn block_digest(slots: Seq<Insert<Item>>) -> u64
    decreases slots.len(),
{
    if slots.len() == 0 {
        EMPTY_BLOCK_DIGEST
    } else {
        mix(block_digest(slots.drop_last()), item_slot_digest(slots.last()))
    }
}

/// Digest of one slot of an epoch: the root of the kept block tree, or the
/// recorded digest of a pruned block.
pub open spec fn block_slot_digest(s: Insert<BlockTree>) -> u64 {
    match s {
        Insert::Keep(bt) => block_digest(bt.slots@),
        Insert::Hash(d) => d.value,
    }
}

/// Root digest of an epoch tree with the given slots.
pub open spec fn epoch_digest(slots: Seq<Insert<BlockTree>>) -> u64
    decreases slots.len(),
{
    if slots.len() == 0 {
        EMPTY_EPOCH_DIGEST
    } else {
        mix(epoch_digest(slots.drop_last()), block_slot_digest(slots.last()))
    }
}

/// Digest of one slot of the eternity: the root of the kept epoch tree, or
/// the recorded digest of a pruned epoch.
pub open spec fn epoch_slot_digest(s: Insert<EpochTree>) -> u64 {
    match s {
        Insert::Keep(et) => epoch_digest(et.slots@),
        Insert::Hash(d) => d.value,
    }
}

/// Root digest of the eternity tree with the given slots.
pub open spec fn eternity_digest(slots: Seq<Insert<EpochTree>>) -> u64
    decreases slots.len(),
{
    if slots.len() == 0 {
        EMPTY_ETERNITY_DIGEST
    } else {
        mix(eternity_digest(slots.drop_last()), epoch_slot_digest(slots.last()))
    }
}

/// A kept block slot respects the tier capacity.
pub open spec fn block_slot_bounded(s: Insert<BlockTree>) -> bool {
    match s {
        Insert::Keep(bt) => bt.slots@.len() <= TIER_CAPACITY,
        Insert::Hash(_) => true,
    }
}

/// An epoch-level tier and everything below it respect the tier capacity.
pub open spec fn epoch_tree_bounded(slots: Seq<Insert<BlockTree>>) -> bool {
    &&& slots.len() <= TIER_CAPACITY
    &&& forall|b: int| 0 <= b < slots.len() ==> block_slot_bounded(#[trigger] slots[b])
}

/// A kept epoch slot and everything below it respect the tier capacity.
pub open spec fn epoch_slot_bounded(s: Insert<EpochTree>) -> bool {
    match s {
        Insert::Keep(et) => epoch_tree_bounded(et.slots@),
        Insert::Hash(_) => true,
    }
}

/// The eternity-level tier and everything below it respect the tier capacity.
pub open spec fn eternity_tree_bounded(slots: Seq<Insert<EpochTree>>) -> bool {
    &&& slots.len() <= TIER_CAPACITY
    &&& forall|e: int| 0 <= e < slots.len() ==> epoch_slot_bounded(#[trigger] slots[e])
}

/// The epoch-level tier `post` equals `pre` with exactly one change: inside
/// the kept block at position `b`, the item slot at position `i` is replaced
/// by the digest `d`; every other slot of every block is unchanged.
pub open spec fn epoch_tier_pruned_at(
    pre: Seq<Insert<BlockTree>>,
    post: Seq<Insert<BlockTree>>,
    b: int,
    i: int,
    d: u64,
) -> bool {
    &&& 0 <= b < pre.len()
    &&& pre[b] is Keep
    &&& post.len() == pre.len()
    &&& (forall|x: int| 0 <= x < pre.len() && x != b ==> #[trigger] post[x] == pre[x])
    &&& post[b] is Keep
    &&& post[b]->Keep_0.slots@ == pre[b]->Keep_0.slots@.update(i, Insert::Hash(Digest { value: d }))
}

/// The eternity-level tier `post` equals `pre` with exactly one change:
/// inside the kept epoch at position `e`, the kept block at position `b` has
/// its item slot at position `i` replaced by the digest `d`; every other
/// slot of every tier is unchanged.
pub open spec fn eternity_tier_pruned_at(
    pre: Seq<Insert<EpochTree>>,
    post: Seq<Insert<EpochTree>>,
    e: int,
    b: int,
    i: int,
    d: u64,
) -> bool {
    &&& 0 <= e < pre.len()
    &&& pre[e] is Keep
    &&& post.len() == pre.len()
    &&& (forall|x: int| 0 <= x < pre.len() && x != e ==> #[trigger] post[x] == pre[x])
    &&& post[e] is Keep
    &&& epoch_tier_pruned_at(pre[e]->Keep_0.slots@, post[e]->Keep_0.slots@, b, i, d)
}

/// Two block tiers whose slots carry the same digests fold to the same root.
pub proof fn lemma_block_digest_pointwise(a: Seq<Insert<Item>>, b: Seq<Insert<Item>>)
    requires
        a.len() == b.len(),
        forall|i: int|
            0 <= i < a.len() ==> item_slot_digest(#[trigger] a[i]) == item_slot_digest(b[i]),
    ensures
        block_digest(a) == block_digest(b),
    decreases a.len(),
{
    if a.len() > 0 {
        assert(a.last() == a[a.len() - 1]);
        assert(b.last() == b[b.len() - 1]);
        lemma_block_digest_pointwise(a.drop_last(), b.drop_last());
    }
}

/// Two epoch tiers whose slots carry the same digests fold to the same root.
pub proof fn lemma_epoch_digest_pointwise(a: Seq<Insert<BlockTree>>, b: Seq<Insert<BlockTree>>)
    requires
        a.len() == b.len(),
        forall|i: int|
            0 <= i < a.len() ==> block_slot_digest(#[trigger] a[i]) == block_slot_digest(b[i]),
    ensures
        epoch_digest(a) == epoch_digest(b),
    decreases a.len(),
{
    if a.len() > 0 {
        assert(a.last() == a[a.len() - 1]);
        assert(b.last() == b[b.len() - 1]);
        lemma_epoch_digest_pointwise(a.drop_last(), b.drop_last());
    }
}

/// Two eternity tiers whose slots carry the same digests fold to the same
/// root.
pub proof fn lemma_eternity_digest_pointwise(a: Seq<Insert<EpochTree>>, b: Seq<Insert<EpochTree>>)
    requires
        a.len() == b.len(),
        forall|i: int|
            0 <= i < a.len() ==> epoch_slot_digest(#[trigger] a[i]) == epoch_slot_digest(b[i]),
    ensures
        eternity_digest(a) == eternity_digest(b),
    decreases a.len(),
{
    if a.len() > 0 {
        assert(a.last() == a[a.len() - 1]);
        assert(b.last() == b[b.len() - 1]);
        lemma_eternity_digest_pointwise(a.drop_last(), b.drop_last());
    }
}

impl BlockTree {
    /// Creates an empty block tree.
    pub fn new() -> (r: BlockTree)
        ensures
            r.slots@.len() == 0,
    {
        BlockTree { slots: Vec::new() }
    }

    /// Computes the root digest of this block tree.
    pub fn root(&self) -> (r: u64)
        ensures
            r == block_digest(self.slots@),
    {
        let n: usize = self.slots.len();
        let mut acc: u64 = EMPTY_BLOCK_DIGEST;
        let mut i: usize = 0;
        while i < n
            invariant
                i <= n,
                n == self.slots@.len(),
                acc == block_digest(self.slots@.take(i as int)),
            decreases n - i,
        {
            let d: u64 = match &self.slots[i] {
                Insert::Keep(item) => item_digest64(item.value),
                Insert::Hash(d) => d.value,
            };
            acc = mix64(acc, d);
            proof {
                let s = self.slots@;
                assert(s.take(i + 1).drop_last() =~= s.take(i as int));
                assert(s.take(i + 1).last() == s[i as int]);
            }
            i = i + 1;
        }
        proof {
            assert(self.slots@.take(n as int) =~= self.slots@);
        }
        acc
    }
}

impl EpochTree {
    /// Creates an empty epoch tree.
    pub fn new() -> (r: EpochTree)
        ensures
            r.slots@.len() == 0,
    {
        EpochTree { slots: Vec::new() }
    }

    /// Computes the root digest of this epoch tree.
    pub fn root(&self) -> (r: u64)
        ensures
            r == epoch_digest(self.slots@),
    {
        let n: usize = self.slots.len();
        let mut acc: u64 = EMPTY_EPOCH_DIGEST;
        let mut i: usize = 0;
        while i < n
            invariant
                i <= n,
                n == self.slots@.len(),
                acc == epoch_digest(self.slots@.take(i as int)),
            decreases n - i,
        {
            let d: u64 = match &self.slots[i] {
                Insert::Keep(bt) => bt.root(),
                Insert::Hash(d) => d.value,
            };
            acc = mix64(acc, d);
            proof {
                let s = self.slots@;
                assert(s.take(i + 1).drop_last() =~= s.take(i as int));
                assert(s.take(i + 1).last() == s[i as int]);
            }
            i = i + 1;
        }
        proof {
            assert(self.slots@.take(n as int) =~= self.slots@);
        }
        acc
    }
}

impl EternityTree {
    /// Creates an empty eternity tree.
    pub fn new() -> (r: EternityTree)
        ensures
            r.slots@.len() == 0,
    {
        EternityTree { slots: Vec::new() }
    }

    /// Computes the root digest of this eternity tree.
    pub fn root(&self) -> (r: u64)
        ensures
            r == eternity_digest(self.slots@),
    {
        let n: usize = self.slots.len();
        let mut acc: u64 = EMPTY_ETERNITY_DIGEST;
        let mut i: usize = 0;
        while i < n
            invariant
                i <= n,
                n == self.slots@.len(),
                acc == eternity_digest(self.slots@.take(i as int)),
            decreases n - i,
        {
            let d: u64 = match &self.slots[i] {
                Insert::Keep(et) => et.root(),
                Insert::Hash(d) => d.value,
            };
            acc = mix64(acc, d);
            proof {
                let s = self.slots@;
                assert(s.take(i + 1).drop_last() =~= s.take(i as int));
                assert(s.take(i + 1).last() == s[i as int]);
            }
            i = i + 1;
        }
        proof {
            assert(self.slots@.take(n as int) =~= self.slots@);
        }
        acc
    }
}

} // verus!
