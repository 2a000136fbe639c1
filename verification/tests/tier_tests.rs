use eternity::block::Block;
use eternity::digest::Digest;
use eternity::epoch::Epoch;
use eternity::index_map::IndexMap;
use eternity::insert::{Insert, Item};

#[test]
fn block_witness_and_forget_round_trip() {
    let mut block = Block::new();
    block
        .insert_item(Insert::Keep(Item { value: 5 }))
        .expect("block has room");
    block
        .insert_item(Insert::Hash(Digest { value: 77 }))
        .expect("block has room");
    let before = block.hash();
    assert_eq!(block.len(), 2);

    let (path, _leaf) = block.witness(5).expect("5 is witnessed");
    assert_eq!(path.len(), 1);
    assert_eq!(path[0], before);
    assert!(block.witness(77).is_none());

    assert!(block.forget(5));
    assert!(block.witness(5).is_none());
    assert!(!block.forget(5));
    assert_eq!(block.hash(), before);
    assert_eq!(block.len(), 2);
}

#[test]
fn full_block_rejects_items_unchanged() {
    let mut block = Block::new();
    for i in 0..65536u64 {
        block
            .insert_item(Insert::Hash(Digest { value: i }))
            .expect("block has room");
    }
    let snapshot = block.clone();
    let rejected = block.insert_item(Insert::Keep(Item { value: 1 }));
    assert_eq!(rejected, Err(Insert::Keep(Item { value: 1 })));
    assert_eq!(block, snapshot);
}

#[test]
fn epoch_witness_and_forget_round_trip() {
    let mut epoch = Epoch::new();
    let mut block = Block::new();
    block
        .insert_item(Insert::Keep(Item { value: 9 }))
        .expect("block has room");
    epoch.insert(Insert::Keep(block)).expect("epoch has room");
    let before = epoch.hash();

    let (path, _leaf) = epoch.witness(9).expect("9 is witnessed");
    assert_eq!(path.len(), 2);
    assert_eq!(path[1], before);

    assert!(epoch.forget(9));
    assert!(epoch.witness(9).is_none());
    assert!(!epoch.forget(9));
    assert_eq!(epoch.hash(), before);
}

#[test]
fn pruned_block_insert_matches_kept_root_but_witnesses_nothing() {
    let mut block = Block::new();
    block
        .insert_item(Insert::Keep(Item { value: 3 }))
        .expect("block has room");

    let mut kept = Epoch::new();
    kept.insert(Insert::Keep(block.clone()))
        .expect("epoch has room");

    let mut pruned = Epoch::new();
    pruned
        .insert(Insert::Hash(block.hash()))
        .expect("epoch has room");

    assert_eq!(kept.hash(), pruned.hash());
    assert!(kept.witness(3).is_some());
    assert!(pruned.witness(3).is_none());
}

#[test]
fn index_map_shadows_and_removes() {
    let mut map = IndexMap::new();
    assert_eq!(map.get(5), None);
    map.insert(5, 1);
    map.insert(6, 9);
    map.insert(5, 2);
    assert_eq!(map.get(5), Some(2));
    assert_eq!(map.get(6), Some(9));
    map.remove_key(5);
    assert_eq!(map.get(5), None);
    assert_eq!(map.get(6), Some(9));
}
