use eternity::block::Block;
use eternity::digest::{Digest, EMPTY_ETERNITY_DIGEST, ITEM_TAG, MIX_INC, MIX_MULT};
use eternity::epoch::Epoch;
use eternity::eternity::{CompositeIndex, Eternity};
use eternity::insert::{Insert, Item};

/// The mixing congruence, recomputed independently of the library.
fn mix_reference(a: u64, b: u64) -> u64 {
    ((a as u128 * MIX_MULT as u128 + b as u128 + MIX_INC as u128) % (1u128 << 64)) as u64
}

/// A block holding the given values as kept items.
fn block_of(values: &[u64]) -> Block {
    let mut block = Block::new();
    for &v in values {
        block
            .insert_item(Insert::Keep(Item { value: v }))
            .expect("block has room");
    }
    block
}

/// An epoch holding one kept block of the given values.
fn epoch_of(values: &[u64]) -> Epoch {
    let mut epoch = Epoch::new();
    epoch
        .insert(Insert::Keep(block_of(values)))
        .expect("epoch has room");
    epoch
}

#[test]
fn fresh_eternity_is_empty_with_stable_hash() {
    let eternity = Eternity::new();
    assert_eq!(eternity.len(), 0);
    assert!(eternity.is_empty());
    let first = eternity.hash();
    let second = eternity.hash();
    assert_eq!(first, second);
    assert_eq!(first, Digest { value: EMPTY_ETERNITY_DIGEST });
    assert_eq!(Eternity::new().hash(), first);
}

#[test]
fn root_matches_mixing_formula() {
    let mut eternity = Eternity::new();
    eternity
        .insert(Insert::Hash(Digest { value: 9 }))
        .expect("eternity has room");
    assert_eq!(
        eternity.hash().value,
        mix_reference(EMPTY_ETERNITY_DIGEST, 9)
    );
}

#[test]
fn leaf_digest_matches_mixing_formula() {
    let block = block_of(&[42]);
    let (_, leaf) = block.witness(42).expect("42 is witnessed");
    assert_eq!(leaf.value, mix_reference(ITEM_TAG, 42));
}

#[test]
fn witness_forget_round_trip() {
    let mut eternity = Eternity::new();
    eternity
        .insert(Insert::Keep(epoch_of(&[41, 42, 43])))
        .expect("eternity has room");
    let hash_before = eternity.hash();
    let len_before = eternity.len();
    let witness_41_before = eternity.witness(41).expect("41 is witnessed");

    let proof = eternity.witness(42).expect("42 is witnessed");
    assert_eq!(proof.leaf, 42);
    assert_eq!(proof.auth_path.len(), 3);
    assert_eq!(
        proof.index,
        CompositeIndex { epoch: 0, block: 0, item: 1 }
    );

    assert!(eternity.forget(42));
    assert!(eternity.witness(42).is_none());
    assert!(!eternity.forget(42));
    assert_eq!(eternity.hash(), hash_before);
    assert_eq!(eternity.len(), len_before);

    let other = eternity.witness(41).expect("41 is still witnessed");
    assert_eq!(other, witness_41_before);
    assert_eq!(other.leaf, 41);
    assert_eq!(
        other.index,
        CompositeIndex { epoch: 0, block: 0, item: 0 }
    );
}

#[test]
fn witness_address_spans_epochs() {
    let mut eternity = Eternity::new();
    eternity
        .insert(Insert::Hash(Digest { value: 1 }))
        .expect("eternity has room");
    let mut epoch = Epoch::new();
    epoch
        .insert(Insert::Hash(Digest { value: 2 }))
        .expect("epoch has room");
    epoch
        .insert(Insert::Keep(block_of(&[7, 8])))
        .expect("epoch has room");
    eternity
        .insert(Insert::Keep(epoch))
        .expect("eternity has room");

    let proof = eternity.witness(8).expect("8 is witnessed");
    assert_eq!(
        proof.index,
        CompositeIndex { epoch: 1, block: 1, item: 1 }
    );
    assert_eq!(proof.index.as_u64(), (1 << 32) + (1 << 16) + 1);
}

#[test]
fn capacity_insert_fails_atomically() {
    let mut eternity = Eternity::new();
    for i in 0..65536u64 {
        eternity
            .insert(Insert::Hash(Digest { value: i }))
            .expect("eternity has room");
    }
    let snapshot = eternity.clone();
    let hash_before = eternity.hash();
    let len_before = eternity.len();

    let rejected = eternity.insert(Insert::Hash(Digest { value: 99999 }));
    assert_eq!(rejected, Err(Insert::Hash(Digest { value: 99999 })));
    assert_eq!(eternity, snapshot);

    let epoch = epoch_of(&[5]);
    let rejected = eternity.insert(Insert::Keep(epoch.clone()));
    assert_eq!(rejected, Err(Insert::Keep(epoch)));
    assert_eq!(eternity, snapshot);
    assert_eq!(eternity.hash(), hash_before);
    assert_eq!(eternity.len(), len_before);
    assert!(eternity.witness(5).is_none());
}

#[test]
fn len_weighs_epochs_blocks_and_items() {
    let mut eternity = Eternity::new();
    eternity
        .insert(Insert::Hash(Digest { value: 1 }))
        .expect("eternity has room");
    eternity
        .insert(Insert::Hash(Digest { value: 2 }))
        .expect("eternity has room");
    let mut epoch = Epoch::new();
    epoch
        .insert(Insert::Hash(Digest { value: 3 }))
        .expect("epoch has room");
    epoch
        .insert(Insert::Keep(block_of(&[10, 11, 12])))
        .expect("epoch has room");
    eternity
        .insert(Insert::Keep(epoch))
        .expect("eternity has room");
    assert_eq!(eternity.len(), 2 * (1u64 << 32) + (1u64 << 16) + 3);
}

#[test]
fn len_counts_pruned_open_tiers_as_full() {
    let mut eternity = Eternity::new();
    eternity
        .insert(Insert::Hash(Digest { value: 1 }))
        .expect("eternity has room");
    assert_eq!(eternity.len(), 0xffffffff);

    let mut eternity = Eternity::new();
    let mut epoch = Epoch::new();
    epoch
        .insert(Insert::Hash(Digest { value: 2 }))
        .expect("epoch has room");
    eternity
        .insert(Insert::Keep(epoch))
        .expect("eternity has room");
    assert_eq!(eternity.len(), 0xffff);

    let mut eternity = Eternity::new();
    eternity
        .insert(Insert::Keep(Epoch::new()))
        .expect("eternity has room");
    assert_eq!(eternity.len(), 0);
}

#[test]
fn pruned_epoch_insert_matches_kept_root_but_witnesses_nothing() {
    let epoch = epoch_of(&[7]);

    let mut kept = Eternity::new();
    kept.insert(Insert::Keep(epoch.clone()))
        .expect("eternity has room");

    let mut pruned = Eternity::new();
    pruned
        .insert(Insert::Hash(epoch.hash()))
        .expect("eternity has room");

    assert_eq!(kept.hash(), pruned.hash());
    assert!(kept.witness(7).is_some());
    assert!(pruned.witness(7).is_none());
    assert!(!pruned.forget(7));
}

#[test]
fn pruned_epoch_weighs_as_kept_once_closed() {
    let epoch = epoch_of(&[7]);
    let next = epoch_of(&[8]);

    let mut kept = Eternity::new();
    kept.insert(Insert::Keep(epoch.clone()))
        .expect("eternity has room");
    kept.insert(Insert::Keep(next.clone()))
        .expect("eternity has room");

    let mut pruned = Eternity::new();
    pruned
        .insert(Insert::Hash(epoch.hash()))
        .expect("eternity has room");
    pruned
        .insert(Insert::Keep(next))
        .expect("eternity has room");

    assert_eq!(kept.len(), pruned.len());
    assert_eq!(kept.hash(), pruned.hash());
}

#[test]
fn composite_index_packs_48_bits() {
    let index = CompositeIndex { epoch: 1, block: 2, item: 3 };
    assert_eq!(index.as_u64(), (1u64 << 32) + (2u64 << 16) + 3);
    let top = CompositeIndex { epoch: 0xffff, block: 0xffff, item: 0xffff };
    assert_eq!(top.as_u64(), (1u64 << 48) - 1);
}
