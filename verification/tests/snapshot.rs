use aoe_server::storage::cas::{SnapshotEntry, SnapshotManager};

fn manager() -> SnapshotManager {
    SnapshotManager::new("snapshots.json".to_string(), Vec::new())
}

#[test]
fn test_snapshot_create_and_list() {
    let mut manager = manager();

    let hash1 = aoe_server::blob::Hash::from_data(b"root1");
    let hash2 = aoe_server::blob::Hash::from_data(b"root2");

    manager.create(hash1, 100, Some("first"));
    manager.create(hash2, 200, None);

    let snapshots = manager.list();
    assert_eq!(snapshots.len(), 2);
    assert_eq!(snapshots[0].description, Some("first".to_string()));
    assert!(snapshots[1].description.is_none());
}

#[test]
fn test_snapshot_persistence() {
    let hash = aoe_server::blob::Hash::from_data(b"persistent");

    let saved: Vec<SnapshotEntry>;
    {
        let mut manager = manager();
        manager.create(hash, 100, Some("test"));
        saved = manager.entries().clone();
    }

    let manager = SnapshotManager::new("snapshots.json".to_string(), saved);
    let snapshots = manager.list();
    assert_eq!(snapshots.len(), 1);
    assert_eq!(snapshots[0].id, hash.to_hex());
}

#[test]
fn test_snapshot_get() {
    let mut manager = manager();
    let hash = aoe_server::blob::Hash::from_data(b"findme");
    manager.create(hash, 100, None);

    let found = manager.get(&hash.to_hex());
    assert!(found.is_some());
    assert_eq!(found.unwrap(), hash);

    let not_found = manager.get("nonexistent");
    assert!(not_found.is_none());
}

#[test]
fn test_snapshot_delete() {
    let mut manager = manager();
    let hash = aoe_server::blob::Hash::from_data(b"deleteme");
    let id = manager.create(hash, 100, None);

    assert_eq!(manager.list().len(), 1);
    assert!(manager.delete(&id));
    assert_eq!(manager.list().len(), 0);
}

#[test]
fn create_returns_the_root_in_hex_and_keeps_order() {
    let mut manager = manager();
    let h1 = aoe_server::blob::Hash::from_bytes([0x01; 32]);
    let h2 = aoe_server::blob::Hash::from_bytes([0xFE; 32]);
    assert_eq!(manager.create(h1, 5, Some("a")), "01".repeat(32));
    assert_eq!(manager.create(h2, 6, None), "fe".repeat(32));
    let list = manager.list();
    assert_eq!(list[0].id, "01".repeat(32));
    assert_eq!(list[0].timestamp, 5);
    assert_eq!(list[1].id, "fe".repeat(32));
    assert_eq!(list[1].timestamp, 6);
    assert_eq!(manager.latest(), Some(h2));
    assert_eq!(manager.path(), "snapshots.json");
}

#[test]
fn latest_of_an_empty_or_broken_index_is_none() {
    assert_eq!(manager().latest(), None);
    let broken = SnapshotManager::new(
        "s".to_string(),
        vec![SnapshotEntry { root: "not hex".to_string(), timestamp: 1, description: None }],
    );
    assert_eq!(broken.latest(), None);
    assert_eq!(broken.get("not hex"), None);
    assert_eq!(broken.list().len(), 1);
}

#[test]
fn delete_removes_every_entry_with_the_id_and_keeps_the_rest() {
    let mut manager = manager();
    let h1 = aoe_server::blob::Hash::from_bytes([1; 32]);
    let h2 = aoe_server::blob::Hash::from_bytes([2; 32]);
    manager.create(h1, 1, Some("a"));
    manager.create(h2, 2, Some("b"));
    manager.create(h1, 3, Some("c"));
    assert!(!manager.delete("unknown"));
    assert_eq!(manager.list().len(), 3);
    assert!(manager.delete(&h1.to_hex()));
    let list = manager.list();
    assert_eq!(list.len(), 1);
    assert_eq!(list[0].id, h2.to_hex());
    assert_eq!(list[0].description, Some("b".to_string()));
    assert!(!manager.delete(&h1.to_hex()));
}
