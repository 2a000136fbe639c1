//! A block: one tier of items, plus the index resolving a kept item's value
//! to its position.

use vstd::prelude::*;
use crate::digest::{item_digest, item_digest64, Digest};
use crate::index_map::IndexMap;
use crate::insert::{Insert, Item};
use crate::tree::{block_digest, item_slot_digest, BlockTree, TIER_CAPACITY};

verus! {

/// A tier of up to 65,536 items, witnessable by value.
#[derive(Clone, Debug, PartialEq, Eq)]
pub struct Block {
    pub inner: BlockTree,
    pub item_index: IndexMap,
}

impl Block {
    /// The index is complete and correct: every indexed value addresses a
    /// slot currently holding that value, kept.
    pub open spec fn wf(&self) -> bool {
        &&& self.inner.slots@.len() <= TIER_CAPACITY
        &&& forall|v: u64| #[trigger] self.item_index@.contains_key(v) ==> {
            &&& self.item_index@[v] < self.inner.slots@.len()
            &&& self.inner.slots@[self.item_index@[v] as int] == Insert::Keep(Item { value: v })
        }
    }

    /// Creates an empty block.
    pub fn new() -> (r: Block)
        ensures
            r.wf(),
            r.inner.slots@.len() == 0,
            r.item_index@ == Map::<u64, u16>::empty(),
    {
        Block { inner: BlockTree::new(), item_index: IndexMap::new() }
    }

    /// Appends one item, or its digest, to this block. A kept item is also
    /// recorded in the index at the position it lands on. A full block
    /// rejects the item, returning it unchanged and mutating nothing.
    pub fn insert_item(&mut self, item: Insert<Item>) -> (r: Result<(), Insert<Item>>)
        requires
            old(self).wf(),
        ensures
            final(self).wf(),
            old(self).inner.slots@.len() >= TIER_CAPACITY ==> r == Err::<(), Insert<Item>>(item)
                && *final(self) == *old(self),
            old(self).inner.slots@.len() < TIER_CAPACITY ==> {
                &&& r is Ok
                &&& final(self).inner.slots@ == old(self).inner.slots@.push(item)
                &&& final(self).item_index@ == (match item {
                    Insert::Keep(it) => old(self).item_index@.insert(
                        it.value,
                        old(self).inner.slots@.len() as u16,
                    ),
                    Insert::Hash(_) => old(self).item_index@,
                })
            },
    {
        let n: usize = self.inner.slots.len();
        if n >= TIER_CAPACITY {
            return Err(item);
        }
        let ghost pre = *self;
        match &item {
            Insert::Keep(it) => {
                let value: u64 = it.value;
                self.inner.slots.push(item);
                self.item_index.insert(value, n as u16);
                proof {
                    assert forall|v: u64| #[trigger] final(self).item_index@.contains_key(v)
                        implies {
                        &&& final(self).item_index@[v] < final(self).inner.slots@.len()
                        &&& final(self).inner.slots@[final(self).item_index@[v] as int]
                            == Insert::Keep(Item { value: v })
                    } by {
                        if v != value {
                            assert(pre.item_index@.contains_key(v));
                        }
                    }
                }
            },
            Insert::Hash(_) => {
                self.inner.slots.push(item);
            },
        }
        Ok(())
    }

    /// How many slots this block has filled, pruned slots included.
    pub fn len(&self) -> (r: usize)
        ensures
            r == self.inner.slots@.len(),
    {
        self.inner.slots.len()
    }

    /// The root digest of this block.
    pub fn hash(&self) -> (r: Digest)
        ensures
            r.value == block_digest(self.inner.slots@),
    {
        Digest { value: self.inner.root() }
    }

    /// Produces the authentication path and leaf digest for a kept value:
    /// `Some` exactly when the value is indexed.
    pub fn witness(&self, value: u64) -> (r: Option<(Vec<Digest>, Digest)>)
        requires
            self.wf(),
        ensures
            r is Some <==> self.item_index@.contains_key(value),
            match r {
                Some((path, leaf)) => {
                    &&& path@.len() == 1
                    &&& path@[0] == (Digest { value: block_digest(self.inner.slots@) })
                    &&& leaf == (Digest { value: item_digest(value) })
                },
                None => true,
            },
    {
        match self.item_index.get(value) {
            None => None,
            Some(_) => {
                let mut path: Vec<Digest> = Vec::new();
                path.push(self.hash());
                Some((path, Digest { value: item_digest64(value) }))
            },
        }
    }

    /// Prunes a kept value to its digest and strikes it from the index,
    /// returning whether it was indexed. The root digest never changes.
    pub fn forget(&mut self, value: u64) -> (r: bool)
        requires
            old(self).wf(),
        ensures
            final(self).wf(),
            r == old(self).item_index@.contains_key(value),
            final(self).item_index@ == old(self).item_index@.remove(value),
            block_digest(final(self).inner.slots@) == block_digest(old(self).inner.slots@),
            final(self).inner.slots@.len() == old(self).inner.slots@.len(),
            !r ==> *final(self) == *old(self),
            r ==> final(self).inner.slots@ == old(self).inner.slots@.update(
                old(self).item_index@[value] as int,
                Insert::Hash(Digest { value: item_digest(value) }),
            ),
    {
        match self.item_index.get(value) {
            None => {
                proof {
                    assert(old(self).item_index@.remove(value) =~= old(self).item_index@);
                }
                false
            },
            Some(p) => {
                let ghost pre = *self;
                let slot = &mut self.inner.slots[p as usize];
                *slot = Insert::Hash(Digest { value: item_digest64(value) });
                self.item_index.remove_key(value);
                proof {
                    lemma_forget_keeps_block(
                        pre.inner.slots@,
                        final(self).inner.slots@,
                        p as int,
                        value,
                    );
                    assert forall|v: u64| #[trigger] final(self).item_index@.contains_key(v)
                        implies {
                        &&& final(self).item_index@[v] < final(self).inner.slots@.len()
                        &&& final(self).inner.slots@[final(self).item_index@[v] as int]
                            == Insert::Keep(Item { value: v })
                    } by {
                        assert(pre.item_index@.contains_key(v));
                        assert(v != value);
                        assert(pre.item_index@[v] != p);
                    }
                }
                true
            },
        }
    }
}

/// Replacing a kept item by its own digest leaves the block root unchanged.
proof fn lemma_forget_keeps_block(a: Seq<Insert<Item>>, b: Seq<Insert<Item>>, p: int, value: u64)
    requires
        0 <= p < a.len(),
        a[p] == Insert::Keep(Item { value }),
        b == a.update(p, Insert::Hash(Digest { value: item_digest(value) })),
    ensures
        block_digest(b) == block_digest(a),
{
    assert forall|i: int| 0 <= i < a.len() implies item_slot_digest(#[trigger] b[i])
        == item_slot_digest(a[i]) by {}
    crate::tree::lemma_block_digest_pointwise(b, a);
}

} // verus!
