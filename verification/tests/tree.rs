use aoe_server::blob::MemoryBlobStore;
use aoe_server::storage::cas::tree::{extract_hash, extract_index, set_hash};
use aoe_server::storage::cas::{calculate_depth, MerkleTree, MerkleTreeMut};

#[test]
fn test_calculate_depth() {
    assert_eq!(calculate_depth(1), 1);
    assert_eq!(calculate_depth(128), 1);
    assert_eq!(calculate_depth(129), 2);
    assert_eq!(calculate_depth(16384), 2);
    assert_eq!(calculate_depth(16385), 3);
}

#[test]
fn test_extract_index() {
    assert_eq!(extract_index(0, 0, 1), 0);
    assert_eq!(extract_index(127, 0, 1), 127);

    assert_eq!(extract_index(0, 0, 2), 0);
    assert_eq!(extract_index(0, 1, 2), 0);
    assert_eq!(extract_index(128, 0, 2), 1);
    assert_eq!(extract_index(128, 1, 2), 0);
    assert_eq!(extract_index(129, 0, 2), 1);
    assert_eq!(extract_index(129, 1, 2), 1);
}

#[test]
fn test_tree_update_and_lookup() {
    let mut store = MemoryBlobStore::new();

    let mut tree = MerkleTreeMut::empty(&mut store, 256);

    let hash1 = aoe_server::blob::Hash::from_data(b"block 0");
    let hash2 = aoe_server::blob::Hash::from_data(b"block 100");

    tree.update(0, hash1).unwrap();
    tree.update(100, hash2).unwrap();

    assert_eq!(tree.lookup(0).unwrap(), hash1);
    assert_eq!(tree.lookup(100).unwrap(), hash2);

    assert!(tree.lookup(50).unwrap().is_zero());
}

#[test]
fn test_tree_persistence() {
    let mut store = MemoryBlobStore::new();

    let root_hash;
    {
        let mut tree = MerkleTreeMut::empty(&mut store, 256);
        let hash = aoe_server::blob::Hash::from_data(b"persistent data");
        tree.update(42, hash).unwrap();
        root_hash = tree.root_hash();
    }

    let tree = MerkleTree::new(&store, root_hash, 256);
    let expected = aoe_server::blob::Hash::from_data(b"persistent data");
    assert_eq!(tree.lookup(42).unwrap(), expected);
}

#[test]
fn depth_of_zero_sectors_is_one() {
    assert_eq!(calculate_depth(0), 1);
}

#[test]
fn depth_of_the_largest_devices() {
    assert_eq!(calculate_depth(1u64 << 63), 9);
    assert_eq!(calculate_depth((1u64 << 63) + 1), 10);
    assert_eq!(calculate_depth(u64::MAX), 10);
}

#[test]
fn index_reads_seven_bits_per_level() {
    let lba: u64 = (5 << 14) | (77 << 7) | 3;
    assert_eq!(extract_index(lba, 0, 3), 5);
    assert_eq!(extract_index(lba, 1, 3), 77);
    assert_eq!(extract_index(lba, 2, 3), 3);
    let other = lba ^ (1 << 20) ^ 1;
    assert_eq!(extract_index(other, 1, 3), 77);
}

#[test]
fn slots_of_a_pointer_block() {
    let mut node = vec![0u8; 4096];
    let h = aoe_server::blob::Hash::from_bytes([0x5A; 32]);
    set_hash(&mut node, 127, &h);
    assert_eq!(node.len(), 4096);
    assert_eq!(&node[4064..4096], &[0x5A; 32]);
    assert!(node[..4064].iter().all(|b| *b == 0));
    assert_eq!(extract_hash(&node, 127), h);
    assert!(extract_hash(&node, 126).is_zero());
    assert!(extract_hash(&node, 128).is_zero());
    set_hash(&mut node, 128, &h);
    assert_eq!(&node[4064..4096], &[0x5A; 32]);
}

#[test]
fn lookup_past_the_end_fails() {
    let mut store = MemoryBlobStore::new();
    let mut tree = MerkleTreeMut::empty(&mut store, 256);
    assert!(matches!(tree.lookup(256), Err(aoe_server::blob::BlobError::Backend(_))));
    let h = aoe_server::blob::Hash::from_data(b"x");
    assert!(matches!(tree.update(256, h), Err(aoe_server::blob::BlobError::Backend(_))));
    assert!(tree.root_hash().is_zero());
    assert!(tree.update(255, h).is_ok());
    assert_eq!(tree.lookup(255).unwrap(), h);
}

#[test]
fn update_stores_one_pointer_block_per_level() {
    let mut store = MemoryBlobStore::new();
    {
        let mut tree = MerkleTreeMut::empty(&mut store, 16385);
        let h = aoe_server::blob::Hash::from_data(b"deep");
        tree.update(16384, h).unwrap();
        assert_eq!(tree.lookup(16384).unwrap(), h);
        assert!(tree.lookup(0).unwrap().is_zero());
    }
    assert_eq!(store.len(), 3);
    assert!(store.entries.iter().all(|e| e.1.len() == 4096));
}

#[test]
fn old_root_stays_valid_after_update() {
    let mut store = MemoryBlobStore::new();
    let h1 = aoe_server::blob::Hash::from_data(b"one");
    let h2 = aoe_server::blob::Hash::from_data(b"two");
    let old_root;
    {
        let mut tree = MerkleTreeMut::empty(&mut store, 1000);
        tree.update(7, h1).unwrap();
        old_root = tree.root_hash();
        tree.update(7, h2).unwrap();
        tree.update(900, h2).unwrap();
        assert_eq!(tree.lookup(7).unwrap(), h2);
    }
    let old = MerkleTree::new(&store, old_root, 1000);
    assert_eq!(old.lookup(7).unwrap(), h1);
    assert!(old.lookup(900).unwrap().is_zero());
}

#[test]
fn missing_node_is_reported_as_corrupted() {
    let store = MemoryBlobStore::new();
    let root = aoe_server::blob::Hash::from_data(b"no such node");
    let tree = MerkleTree::new(&store, root, 256);
    assert!(matches!(tree.lookup(3), Err(aoe_server::blob::BlobError::Corrupted(_))));
}
