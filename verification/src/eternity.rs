//! The eternity: one tier of epoch trees, plus the three indices resolving a
//! kept item's value to its full (epoch, block, item) address.

use vstd::prelude::*;
use crate::digest::{item_digest, item_digest64, Digest};
use crate::epoch::{epoch_slot_ok, Epoch};
use crate::index_map::{entries_map, IndexMap};
use crate::insert::{Insert, Item};
use crate::tree::{
    block_slot_digest, epoch_digest, epoch_slot_bounded, epoch_slot_digest, eternity_digest,
    eternity_tier_pruned_at, eternity_tree_bounded, BlockTree, EpochTree, EternityTree,
    TIER_CAPACITY,
};

verus! {

/// The (epoch, block, item) position uniquely addressing one committed
/// value; each coordinate is a local position within its tier.
#[derive(Clone, Copy, Debug, PartialEq, Eq, Structural)]
pub struct CompositeIndex {
    pub epoch: u16,
    pub block: u16,
    pub item: u16,
}

impl CompositeIndex {
    /// The 48-bit global address: epoch·2^32 + block·2^16 + item.
    pub open spec fn spec_as_u64(&self) -> u64 {
        (self.epoch * 0x100000000 + self.block * 0x10000 + self.item) as u64
    }

    /// Packs the address into one 48-bit integer, as `spec_as_u64` states.
    pub fn as_u64(&self) -> (r: u64)
        ensures
            r == self.spec_as_u64(),
    {
        (self.epoch as u64) * 0x100000000u64 + (self.block as u64) * 0x10000u64
            + (self.item as u64)
    }
}

/// An inclusion proof: the composite address of a value, the digests of the
/// tiers enclosing it from its block up to the root, and the value itself.
///
/// The authentication path holds one root digest per enclosing tier, bottom
/// up: the value's block, its epoch, and the whole eternity. It is not a
/// sibling-digest path — under this left-to-right digest fold no compact
/// sibling path exists — so a verifier checks it against tier digests
/// recomputed from kept content rather than recombining the path alone.
#[derive(Clone, Debug, PartialEq, Eq)]
pub struct Proof {
    pub index: CompositeIndex,
    pub auth_path: Vec<Digest>,
    pub leaf: u64,
}

/// Within the eternity-level tier, position (e, b, i) currently holds the
/// kept item `v`: epoch `e` is kept and holds `v` at (b, i).
pub open spec fn eternity_slot_ok(
    slots: Seq<Insert<EpochTree>>,
    e: u16,
    b: u16,
    i: u16,
    v: u64,
) -> bool {
    &&& e < slots.len()
    &&& match slots[e as int] {
        Insert::Keep(et) => epoch_slot_ok(et.slots@, b, i, v),
        Insert::Hash(_) => false,
    }
}

/// The tier slot an inserted epoch collapses to: a kept epoch contributes its
/// bare tree, a pruned one its digest.
pub open spec fn epoch_to_slot(e: Insert<Epoch>) -> Insert<EpochTree> {
    match e {
        Insert::Keep(ep) => Insert::Keep(ep.inner),
        Insert::Hash(d) => Insert::Hash(d),
    }
}

/// The digest of the block slot at (e, b), read through a kept epoch slot.
pub open spec fn inner_block_root(slots: Seq<Insert<EpochTree>>, e: u16, b: u16) -> u64 {
    match slots[e as int] {
        Insert::Keep(et) => block_slot_digest(et.slots@[b as int]),
        Insert::Hash(d) => d.value,
    }
}

/// What the rightmost block of a kept open epoch adds to the length: its true
/// item count when kept, the opaquely-full sentinel when pruned.
pub open spec fn block_tail_weight(s: Insert<BlockTree>) -> u64 {
    match s {
        Insert::Keep(bt) => bt.slots@.len() as u64,
        Insert::Hash(_) => 0xffff,
    }
}

/// What the rightmost epoch adds to the length: its earlier blocks weighted
/// by 2^16 plus its open block's weight when kept, the opaquely-full sentinel
/// when pruned.
pub open spec fn epoch_tail_weight(s: Insert<EpochTree>) -> u64 {
    match s {
        Insert::Keep(et) => if et.slots@.len() == 0 {
            0
        } else {
            ((et.slots@.len() - 1) * 0x10000 + block_tail_weight(et.slots@.last())) as u64
        },
        Insert::Hash(_) => 0xffffffff,
    }
}

/// A sparse commitment tree witnessing up to 65,536 epochs, each of up to
/// 65,536 blocks, each of up to 65,536 items.
#[derive(Clone, Debug, PartialEq, Eq)]
pub struct Eternity {
    pub inner: EternityTree,
    pub epoch_index: IndexMap,
    pub block_index: IndexMap,
    pub item_index: IndexMap,
}

impl Eternity {
    /// The three indices are complete (they hold exactly the same values)
    /// and correct (every indexed value's address holds it, kept), and every
    /// tier respects its capacity.
    pub open spec fn wf(&self) -> bool {
        &&& eternity_tree_bounded(self.inner.slots@)
        &&& forall|v: u64| #[trigger] self.epoch_index@.contains_key(v)
            ==> self.item_index@.contains_key(v)
        &&& forall|v: u64| #[trigger] self.block_index@.contains_key(v)
            ==> self.item_index@.contains_key(v)
        &&& forall|v: u64| #[trigger] self.item_index@.contains_key(v) ==> {
            &&& self.epoch_index@.contains_key(v)
            &&& self.block_index@.contains_key(v)
            &&& eternity_slot_ok(
                self.inner.slots@,
                self.epoch_index@[v],
                self.block_index@[v],
                self.item_index@[v],
                v,
            )
        }
    }

    /// The root digest, as a function of the slots alone.
    pub open spec fn spec_root(&self) -> u64 {
        eternity_digest(self.inner.slots@)
    }

    /// The length: earlier epochs weighted by 2^32, plus the rightmost
    /// epoch's weight; 0 when no epoch has been inserted.
    pub open spec fn spec_len(&self) -> u64 {
        if self.inner.slots@.len() == 0 {
            0
        } else {
            ((self.inner.slots@.len() - 1) * 0x100000000 + epoch_tail_weight(
                self.inner.slots@.last(),
            )) as u64
        }
    }

    /// Creates a new empty eternity for storing all commitments to the end
    /// of time.
    pub fn new() -> (r: Eternity)
        ensures
            r.wf(),
            r.inner.slots@.len() == 0,
            r.spec_len() == 0,
            r.epoch_index@ == Map::<u64, u16>::empty(),
            r.block_index@ == Map::<u64, u16>::empty(),
            r.item_index@ == Map::<u64, u16>::empty(),
    {
        Eternity {
            inner: EternityTree::new(),
            epoch_index: IndexMap::new(),
            block_index: IndexMap::new(),
            item_index: IndexMap::new(),
        }
    }

    /// Adds a whole epoch, or its digest, to this eternity. A kept epoch's
    /// indices merge upward: each of its values is recorded under the epoch
    /// position it lands on, with its block and item positions kept verbatim.
    /// A value committed more than once resolves to its most recent kept
    /// occurrence: the merge shadows any earlier address. A full eternity
    /// rejects the epoch, returning it unchanged and mutating nothing.
    pub fn insert(&mut self, epoch: Insert<Epoch>) -> (r: Result<(), Insert<Epoch>>)
        requires
            old(self).wf(),
            epoch matches Insert::Keep(ep) ==> ep.wf(),
        ensures
            final(self).wf(),
            old(self).inner.slots@.len() >= TIER_CAPACITY ==> r == Err::<(), Insert<Epoch>>(epoch)
                && *final(self) == *old(self),
            old(self).inner.slots@.len() < TIER_CAPACITY ==> {
                &&& r is Ok
                &&& final(self).inner.slots@ == old(self).inner.slots@.push(epoch_to_slot(epoch))
                &&& match epoch {
                    Insert::Hash(_) => {
                        &&& final(self).epoch_index@ == old(self).epoch_index@
                        &&& final(self).block_index@ == old(self).block_index@
                        &&& final(self).item_index@ == old(self).item_index@
                    },
                    Insert::Keep(ep) => {
                        &&& forall|v: u64| #[trigger] ep.item_index@.contains_key(v) ==> {
                            &&& final(self).epoch_index@.contains_key(v)
                            &&& final(self).epoch_index@[v] == old(self).inner.slots@.len() as u16
                            &&& final(self).block_index@.contains_key(v)
                            &&& final(self).block_index@[v] == ep.block_index@[v]
                            &&& final(self).item_index@.contains_key(v)
                            &&& final(self).item_index@[v] == ep.item_index@[v]
                        }
                        &&& forall|v: u64| !(#[trigger] ep.item_index@.contains_key(v)) ==> {
                            &&& final(self).epoch_index@.contains_key(v) == old(self).epoch_index@.contains_key(v)
                            &&& final(self).block_index@.contains_key(v) == old(self).block_index@.contains_key(v)
                            &&& final(self).item_index@.contains_key(v) == old(self).item_index@.contains_key(v)
                            &&& (old(self).epoch_index@.contains_key(v) ==> final(self).epoch_index@[v] == old(self).epoch_index@[v])
                            &&& (old(self).block_index@.contains_key(v) ==> final(self).block_index@[v] == old(self).block_index@[v])
                            &&& (old(self).item_index@.contains_key(v) ==> final(self).item_index@[v] == old(self).item_index@[v])
                        }
                    },
                }
            },
    {
        let n: usize = self.inner.slots.len();
        if n >= TIER_CAPACITY {
            return Err(epoch);
        }
        match epoch {
            Insert::Hash(d) => {
                self.inner.slots.push(Insert::Hash(d));
                proof {
                    assert forall|v: u64| #[trigger] self.item_index@.contains_key(v) implies {
                        &&& self.epoch_index@.contains_key(v)
                        &&& self.block_index@.contains_key(v)
                        &&& eternity_slot_ok(
                            self.inner.slots@,
                            self.epoch_index@[v],
                            self.block_index@[v],
                            self.item_index@[v],
                            v,
                        )
                    } by {
                        assert(old(self).item_index@.contains_key(v));
                        assert(self.inner.slots@[old(self).epoch_index@[v] as int]
                            == old(self).inner.slots@[old(self).epoch_index@[v] as int]);
                    }
                    assert forall|e: int| 0 <= e < self.inner.slots@.len() implies
                        epoch_slot_bounded(#[trigger] self.inner.slots@[e]) by {
                        if e < old(self).inner.slots@.len() {
                            assert(self.inner.slots@[e] == old(self).inner.slots@[e]);
                        }
                    }
                }
                Ok(())
            },
            Insert::Keep(ep) => {
                let ghost gep = ep;
                let ghost pre = *old(self);
                let Epoch { inner, block_index, item_index } = ep;
                self.inner.slots.push(Insert::Keep(inner));
                let ghost s = item_index.entries@;
                let m: usize = item_index.entries.len();
                let mut j: usize = 0;
                while j < m
                    invariant
                        j <= m,
                        m == s.len(),
                        item_index.entries@ == s,
                        gep.wf(),
                        gep.item_index@ == entries_map(s),
                        block_index == gep.block_index,
                        n == pre.inner.slots@.len(),
                        n < TIER_CAPACITY,
                        self.inner.slots@ == pre.inner.slots@.push(Insert::Keep(gep.inner)),
                        forall|v: u64| #[trigger] entries_map(s.take(j as int)).contains_key(v)
                            ==> {
                            &&& self.epoch_index@.contains_key(v)
                            &&& self.epoch_index@[v] == n as u16
                            &&& self.block_index@.contains_key(v)
                            &&& self.block_index@[v] == gep.block_index@[v]
                            &&& self.item_index@.contains_key(v)
                            &&& self.item_index@[v] == entries_map(s.take(j as int))[v]
                        },
                        forall|v: u64| !(#[trigger] entries_map(s.take(j as int)).contains_key(v))
                            ==> {
                            &&& self.epoch_index@.contains_key(v) == pre.epoch_index@.contains_key(v)
                            &&& self.block_index@.contains_key(v) == pre.block_index@.contains_key(v)
                            &&& self.item_index@.contains_key(v) == pre.item_index@.contains_key(v)
                            &&& (pre.epoch_index@.contains_key(v) ==> self.epoch_index@[v] == pre.epoch_index@[v])
                            &&& (pre.block_index@.contains_key(v) ==> self.block_index@[v] == pre.block_index@[v])
                            &&& (pre.item_index@.contains_key(v) ==> self.item_index@[v] == pre.item_index@[v])
                        },
                    decreases m - j,
                {
                    let e = item_index.entries[j];
                    proof {
                        crate::index_map::lemma_entries_map_has_key(s, j as int);
                        assert(entries_map(s).contains_key(e.0));
                        assert(gep.item_index@.contains_key(e.0));
                    }
                    let b: u16 = match block_index.get(e.0) {
                        Some(b) => b,
                        None => {
                            proof {
                                assert(false);
                            }
                            0
                        },
                    };
                    self.epoch_index.insert(e.0, n as u16);
                    self.block_index.insert(e.0, b);
                    self.item_index.insert(e.0, e.1);
                    proof {
                        assert(s.take(j + 1).drop_last() =~= s.take(j as int));
                        assert(s.take(j + 1).last() == s[j as int]);
                        assert(entries_map(s.take(j + 1)) == entries_map(s.take(j as int)).insert(
                            e.0,
                            e.1,
                        ));
                    }
                    j = j + 1;
                }
                proof {
                    assert(s.take(m as int) =~= s);
                    assert forall|v: u64| #[trigger] self.epoch_index@.contains_key(v) implies
                        self.item_index@.contains_key(v) by {
                        if !entries_map(s).contains_key(v) {
                            assert(pre.epoch_index@.contains_key(v));
                        }
                    }
                    assert forall|v: u64| #[trigger] self.block_index@.contains_key(v) implies
                        self.item_index@.contains_key(v) by {
                        if !entries_map(s).contains_key(v) {
                            assert(pre.block_index@.contains_key(v));
                        }
                    }
                    assert forall|v: u64| #[trigger] self.item_index@.contains_key(v) implies {
                        &&& self.epoch_index@.contains_key(v)
                        &&& self.block_index@.contains_key(v)
                        &&& eternity_slot_ok(
                            self.inner.slots@,
                            self.epoch_index@[v],
                            self.block_index@[v],
                            self.item_index@[v],
                            v,
                        )
                    } by {
                        if entries_map(s).contains_key(v) {
                            assert(gep.item_index@.contains_key(v));
                            assert(self.inner.slots@[n as int] == Insert::Keep(gep.inner));
                            assert(epoch_slot_ok(
                                gep.inner.slots@,
                                gep.block_index@[v],
                                gep.item_index@[v],
                                v,
                            ));
                        } else {
                            assert(pre.item_index@.contains_key(v));
                            assert(eternity_slot_ok(
                                pre.inner.slots@,
                                pre.epoch_index@[v],
                                pre.block_index@[v],
                                pre.item_index@[v],
                                v,
                            ));
                            assert(self.inner.slots@[pre.epoch_index@[v] as int]
                                == pre.inner.slots@[pre.epoch_index@[v] as int]);
                        }
                    }
                    assert forall|e: int| 0 <= e < self.inner.slots@.len() implies
                        epoch_slot_bounded(#[trigger] self.inner.slots@[e]) by {
                        if e < pre.inner.slots@.len() {
                            assert(self.inner.slots@[e] == pre.inner.slots@[e]);
                        } else {
                            assert(self.inner.slots@[e] == Insert::Keep(gep.inner));
                        }
                    }
                }
                Ok(())
            },
        }
    }

    /// The total number of items and item digests represented: 2^32 for each
    /// earlier epoch, plus 2^16 for each earlier block of the open epoch,
    /// plus the open block's item count, with pruned open tiers counted as
    /// opaquely full.
    pub fn len(&self) -> (r: u64)
        requires
            self.wf(),
        ensures
            r == self.spec_len(),
    {
        let n: usize = self.inner.slots.len();
        if n == 0 {
            return 0;
        }
        proof {
            assert(epoch_slot_bounded(self.inner.slots@[n - 1]));
            assert(self.inner.slots@.last() == self.inner.slots@[n - 1]);
        }
        let tail: u64 = match &self.inner.slots[n - 1] {
            Insert::Hash(_) => 0xffffffffu64,
            Insert::Keep(et) => {
                let m: usize = et.slots.len();
                if m == 0 {
                    0u64
                } else {
                    proof {
                        assert(crate::tree::block_slot_bounded(et.slots@[m - 1]));
                        assert(et.slots@.last() == et.slots@[m - 1]);
                    }
                    let btail: u64 = match &et.slots[m - 1] {
                        Insert::Hash(_) => 0xffffu64,
                        Insert::Keep(bt) => bt.slots.len() as u64,
                    };
                    ((m - 1) as u64) * 0x10000u64 + btail
                }
            },
        };
        ((n - 1) as u64) * 0x100000000u64 + tail
    }

    /// Whether no epoch has been inserted yet.
    pub fn is_empty(&self) -> (r: bool)
        ensures
            r == (self.inner.slots@.len() == 0),
    {
        self.inner.slots.len() == 0
    }

    /// The root digest of this eternity: a pure function of the committed
    /// content, so repeated calls on the same state return the same digest.
    pub fn hash(&self) -> (r: Digest)
        ensures
            r.value == self.spec_root(),
    {
        Digest { value: self.inner.root() }
    }

    /// Produces an inclusion proof for a value: `Some` exactly when the value
    /// is indexed, carrying the value's composite address, the digests of its
    /// block, its epoch and the root, and the value itself as the leaf.
    pub fn witness(&self, value: u64) -> (r: Option<Proof>)
        requires
            self.wf(),
        ensures
            r is Some <==> self.item_index@.contains_key(value),
            match r {
                Some(p) => {
                    &&& p.index.epoch == self.epoch_index@[value]
                    &&& p.index.block == self.block_index@[value]
                    &&& p.index.item == self.item_index@[value]
                    &&& p.leaf == value
                    &&& p.auth_path@.len() == 3
                    &&& p.auth_path@[0].value == inner_block_root(
                        self.inner.slots@,
                        self.epoch_index@[value],
                        self.block_index@[value],
                    )
                    &&& p.auth_path@[1].value == epoch_slot_digest(
                        self.inner.slots@[self.epoch_index@[value] as int],
                    )
                    &&& p.auth_path@[2].value == self.spec_root()
                },
                None => true,
            },
    {
        let e_pos: u16 = match self.epoch_index.get(value) {
            None => {
                return None;
            },
            Some(e) => e,
        };
        let b_pos: u16 = match self.block_index.get(value) {
            Some(b) => b,
            None => {
                proof {
                    assert(false);
                }
                return None;
            },
        };
        let i_pos: u16 = match self.item_index.get(value) {
            Some(i) => i,
            None => {
                proof {
                    assert(false);
                }
                return None;
            },
        };
        match &self.inner.slots[e_pos as usize] {
            Insert::Keep(et) => {
                match &et.slots[b_pos as usize] {
                    Insert::Keep(bt) => {
                        let mut path: Vec<Digest> = Vec::new();
                        path.push(Digest { value: bt.root() });
                        path.push(Digest { value: et.root() });
                        path.push(self.hash());
                        Some(
                            Proof {
                                index: CompositeIndex { epoch: e_pos, block: b_pos, item: i_pos },
                                auth_path: path,
                                leaf: value,
                            },
                        )
                    },
                    Insert::Hash(_) => {
                        proof {
                            assert(false);
                        }
                        None
                    },
                }
            },
            Insert::Hash(_) => {
                proof {
                    assert(false);
                }
                None
            },
        }
    }

    /// Prunes a kept value to its digest and strikes it from all three
    /// indices, returning whether it was indexed. The root digest and the
    /// length never change, and only the single item slot at the value's
    /// composite address is touched: the position stays occupied by the
    /// value's digest and is never reused.
    pub fn forget(&mut self, value: u64) -> (r: bool)
        requires
            old(self).wf(),
        ensures
            final(self).wf(),
            r == old(self).item_index@.contains_key(value),
            final(self).epoch_index@ == old(self).epoch_index@.remove(value),
            final(self).block_index@ == old(self).block_index@.remove(value),
            final(self).item_index@ == old(self).item_index@.remove(value),
            final(self).spec_root() == old(self).spec_root(),
            final(self).spec_len() == old(self).spec_len(),
            final(self).inner.slots@.len() == old(self).inner.slots@.len(),
            !r ==> *final(self) == *old(self),
            r ==> eternity_tier_pruned_at(
                old(self).inner.slots@,
                final(self).inner.slots@,
                old(self).epoch_index@[value] as int,
                old(self).block_index@[value] as int,
                old(self).item_index@[value] as int,
                item_digest(value),
            ),
    {
        let i_pos: u16 = match self.item_index.get(value) {
            None => {
                proof {
                    assert(old(self).epoch_index@.remove(value) =~= old(self).epoch_index@);
                    assert(old(self).block_index@.remove(value) =~= old(self).block_index@);
                    assert(old(self).item_index@.remove(value) =~= old(self).item_index@);
                }
                return false;
            },
            Some(i) => i,
        };
        let b_pos: u16 = match self.block_index.get(value) {
            Some(b) => b,
            None => {
                proof {
                    assert(false);
                }
                return false;
            },
        };
        let e_pos: u16 = match self.epoch_index.get(value) {
            Some(e) => e,
            None => {
                proof {
                    assert(false);
                }
                return false;
            },
        };
        let ghost pre = *old(self);
        let eslot = &mut self.inner.slots[e_pos as usize];
        match eslot {
            Insert::Keep(et) => {
                let bslot = &mut et.slots[b_pos as usize];
                match bslot {
                    Insert::Keep(bt) => {
                        let islot = &mut bt.slots[i_pos as usize];
                        *islot = Insert::Hash(Digest { value: item_digest64(value) });
                    },
                    Insert::Hash(_) => {
                        proof {
                            assert(false);
                        }
                    },
                }
            },
            Insert::Hash(_) => {
                proof {
                    assert(false);
                }
            },
        }
        self.item_index.remove_key(value);
        self.block_index.remove_key(value);
        self.epoch_index.remove_key(value);
        proof {
            let e = e_pos as int;
            let b = b_pos as int;
            let i = i_pos as int;
            let et_old = pre.inner.slots@[e]->Keep_0;
            let bt_old = et_old.slots@[b]->Keep_0;
            assert(self.inner.slots@[e] is Keep);
            let et_new = self.inner.slots@[e]->Keep_0;
            assert(et_new.slots@[b] is Keep);
            let bt_new = et_new.slots@[b]->Keep_0;
            assert(self.inner.slots@.len() == pre.inner.slots@.len());
            assert(forall|x: int|
                0 <= x < pre.inner.slots@.len() && x != e ==> #[trigger] self.inner.slots@[x]
                    == pre.inner.slots@[x]);
            assert(et_new.slots@.len() == et_old.slots@.len());
            assert(forall|x: int|
                0 <= x < et_old.slots@.len() && x != b ==> #[trigger] et_new.slots@[x]
                    == et_old.slots@[x]);
            assert(bt_new.slots@ =~= bt_old.slots@.update(
                i,
                Insert::Hash(Digest { value: item_digest(value) }),
            ));
            assert forall|x: int| 0 <= x < bt_old.slots@.len() implies
                crate::tree::item_slot_digest(#[trigger] bt_new.slots@[x])
                    == crate::tree::item_slot_digest(bt_old.slots@[x]) by {}
            crate::tree::lemma_block_digest_pointwise(bt_new.slots@, bt_old.slots@);
            assert forall|x: int| 0 <= x < et_old.slots@.len() implies block_slot_digest(
                #[trigger] et_new.slots@[x],
            ) == block_slot_digest(et_old.slots@[x]) by {}
            crate::tree::lemma_epoch_digest_pointwise(et_new.slots@, et_old.slots@);
            assert forall|x: int| 0 <= x < pre.inner.slots@.len() implies epoch_slot_digest(
                #[trigger] self.inner.slots@[x],
            ) == epoch_slot_digest(pre.inner.slots@[x]) by {}
            crate::tree::lemma_eternity_digest_pointwise(self.inner.slots@, pre.inner.slots@);
            assert forall|v: u64| #[trigger] self.item_index@.contains_key(v) implies {
                &&& self.epoch_index@.contains_key(v)
                &&& self.block_index@.contains_key(v)
                &&& eternity_slot_ok(
                    self.inner.slots@,
                    self.epoch_index@[v],
                    self.block_index@[v],
                    self.item_index@[v],
                    v,
                )
            } by {
                assert(pre.item_index@.contains_key(v));
                assert(v != value);
                let ve = pre.epoch_index@[v] as int;
                let vb = pre.block_index@[v] as int;
                let vi = pre.item_index@[v] as int;
                assert(eternity_slot_ok(
                    pre.inner.slots@,
                    pre.epoch_index@[v],
                    pre.block_index@[v],
                    pre.item_index@[v],
                    v,
                ));
                if ve == e {
                    if vb == b {
                        assert(vi != i) by {
                            if vi == i {
                                assert(bt_old.slots@[i] == Insert::Keep(Item { value: v }));
                                assert(bt_old.slots@[i] == Insert::Keep(Item { value }));
                            }
                        }
                        assert(bt_new.slots@[vi] == bt_old.slots@[vi]);
                    } else {
                        assert(et_new.slots@[vb] == et_old.slots@[vb]);
                    }
                } else {
                    assert(self.inner.slots@[ve] == pre.inner.slots@[ve]);
                }
            }
            assert forall|v: u64| #[trigger] self.epoch_index@.contains_key(v) implies
                self.item_index@.contains_key(v) by {
                assert(pre.epoch_index@.contains_key(v));
            }
            assert forall|v: u64| #[trigger] self.block_index@.contains_key(v) implies
                self.item_index@.contains_key(v) by {
                assert(pre.block_index@.contains_key(v));
            }
            assert forall|ei: int| 0 <= ei < self.inner.slots@.len() implies
                epoch_slot_bounded(#[trigger] self.inner.slots@[ei]) by {
                if ei != e {
                    assert(self.inner.slots@[ei] == pre.inner.slots@[ei]);
                } else {
                    assert(epoch_slot_bounded(pre.inner.slots@[e]));
                }
            }
            assert(crate::tree::eternity_tier_pruned_at(
                pre.inner.slots@,
                self.inner.slots@,
                e,
                b,
                i,
                item_digest(value),
            ));
            let n = pre.inner.slots@.len() as int;
            if e == n - 1 {
                assert(self.inner.slots@.last() == self.inner.slots@[n - 1]);
                assert(pre.inner.slots@.last() == pre.inner.slots@[n - 1]);
                let m = et_old.slots@.len() as int;
                if b == m - 1 {
                    assert(et_new.slots@.last() == et_new.slots@[m - 1]);
                    assert(et_old.slots@.last() == et_old.slots@[m - 1]);
                    assert(bt_new.slots@.len() == bt_old.slots@.len());
                    assert(block_tail_weight(et_new.slots@.last()) == block_tail_weight(
                        et_old.slots@.last(),
                    ));
                } else {
                    assert(et_new.slots@[m - 1] == et_old.slots@[m - 1]);
                    assert(et_new.slots@.last() == et_old.slots@.last());
                }
                assert(epoch_tail_weight(self.inner.slots@.last()) == epoch_tail_weight(
                    pre.inner.slots@.last(),
                ));
            } else {
                assert(self.inner.slots@[n - 1] == pre.inner.slots@[n - 1]);
                assert(self.inner.slots@.last() == pre.inner.slots@.last());
            }
            assert(self.spec_len() == pre.spec_len());
        }
        true
    }
}

impl Default for Eternity {
    /// The empty eternity, as `new` builds it.
    fn default() -> (r: Eternity)
        ensures
            r.wf(),
            r.inner.slots@.len() == 0,
            r.epoch_index@ == Map::<u64, u16>::empty(),
            r.block_index@ == Map::<u64, u16>::empty(),
            r.item_index@ == Map::<u64, u16>::empty(),
    {
        Eternity::new()
    }
}

/// Every witnessable value is present in all three indices at once, and its
/// composite address holds the kept value itself.
pub proof fn lemma_index_consistency(t: &Eternity, v: u64)
    requires
        t.wf(),
        t.item_index@.contains_key(v),
    ensures
        t.epoch_index@.contains_key(v),
        t.block_index@.contains_key(v),
        eternity_slot_ok(
            t.inner.slots@,
            t.epoch_index@[v],
            t.block_index@[v],
            t.item_index@[v],
            v,
        ),
{
}

/// After a value is struck from all three indices, none of them holds it, so
/// a later witness of it must return `None`.
pub proof fn lemma_forgotten_not_indexed(pre: &Eternity, post: &Eternity, v: u64)
    requires
        post.epoch_index@ == pre.epoch_index@.remove(v),
        post.block_index@ == pre.block_index@.remove(v),
        post.item_index@ == pre.item_index@.remove(v),
    ensures
        !post.epoch_index@.contains_key(v),
        !post.block_index@.contains_key(v),
        !post.item_index@.contains_key(v),
{
}

/// For `e` earlier epochs plus an open epoch holding `b` earlier blocks and
/// an open kept block of `i` items, the length is exactly
/// e·2^32 + b·2^16 + i.
pub proof fn lemma_len_formula(t: &Eternity, et: EpochTree, bt: BlockTree)
    requires
        t.wf(),
        t.inner.slots@.len() > 0,
        t.inner.slots@.last() == Insert::Keep(et),
        et.slots@.len() > 0,
        et.slots@.last() == Insert::Keep(bt),
    ensures
        t.spec_len() == (t.inner.slots@.len() - 1) * 0x100000000 + (et.slots@.len() - 1) * 0x10000
            + bt.slots@.len(),
{
    let n = t.inner.slots@.len();
    let m = et.slots@.len();
    assert(epoch_slot_bounded(t.inner.slots@[n - 1]));
    assert(t.inner.slots@.last() == t.inner.slots@[n - 1]);
    assert(crate::tree::block_slot_bounded(et.slots@[m - 1]));
    assert(et.slots@.last() == et.slots@[m - 1]);
}

/// The length never exceeds the total capacity of 2^48 items: 2^16 epochs of
/// 2^16 blocks of 2^16 items.
pub proof fn lemma_len_bounded(t: &Eternity)
    requires
        t.wf(),
    ensures
        t.spec_len() <= 0x1000000000000,
{
    let n = t.inner.slots@.len();
    if n > 0 {
        assert(epoch_slot_bounded(t.inner.slots@[n - 1]));
        assert(t.inner.slots@.last() == t.inner.slots@[n - 1]);
        match t.inner.slots@.last() {
            Insert::Keep(et) => {
                let m = et.slots@.len();
                if m > 0 {
                    assert(crate::tree::block_slot_bounded(et.slots@[m - 1]));
                    assert(et.slots@.last() == et.slots@[m - 1]);
                }
            },
            Insert::Hash(_) => {},
        }
    }
}

/// The length weighs every epoch before the rightmost one only by count, so
/// once a further epoch follows it, a pruned epoch weighs exactly as the kept
/// epoch would: two eternities of equal epoch count and equal rightmost slot
/// have equal length.
pub proof fn lemma_closed_epochs_weigh_by_count(a: &Eternity, b: &Eternity)
    requires
        a.inner.slots@.len() == b.inner.slots@.len(),
        a.inner.slots@.len() > 0 ==> a.inner.slots@.last() == b.inner.slots@.last(),
    ensures
        a.spec_len() == b.spec_len(),
{
}

/// Inserting an epoch's bare digest contributes to the root digest exactly as
/// inserting the kept epoch itself would: pruning is invisible to the root.
pub proof fn lemma_pruned_insert_same_root(slots: Seq<Insert<EpochTree>>, et: EpochTree)
    ensures
        eternity_digest(slots.push(Insert::Hash(Digest { value: epoch_digest(et.slots@) })))
            == eternity_digest(slots.push(Insert::Keep(et))),
{
    let a = slots.push(Insert::Hash(Digest { value: epoch_digest(et.slots@) }));
    let b = slots.push(Insert::Keep(et));
    assert(a.drop_last() =~= slots);
    assert(b.drop_last() =~= slots);
    assert(epoch_slot_digest(a.last()) == epoch_slot_digest(b.last()));
}

} // verus!
