use aoe_server::blob::{BlobError, BlobStore, HashTextError, MemoryBlobStore};

#[test]
fn test_hash_from_data() {
    let data = b"hello world";
    let hash = aoe_server::blob::Hash::from_data(data);
    assert!(!hash.is_zero());

    let hash2 = aoe_server::blob::Hash::from_data(data);
    assert_eq!(hash, hash2);
}

#[test]
fn test_hash_hex_roundtrip() {
    let hash = aoe_server::blob::Hash::from_data(b"test");
    let hex = hash.to_hex();
    let hash2 = aoe_server::blob::Hash::from_hex(&hex).unwrap();
    assert_eq!(hash, hash2);
}

#[test]
fn test_hash_zero() {
    assert!(aoe_server::blob::Hash::zero().is_zero());
    assert!(!aoe_server::blob::Hash::from_data(b"x").is_zero());
}

#[test]
fn hash_is_the_blake3_digest() {
    let data = b"hello world";
    let hash = aoe_server::blob::Hash::from_data(data);
    assert_eq!(hash.as_bytes(), blake3::hash(data).as_bytes());
    let empty = aoe_server::blob::Hash::from_data(b"");
    assert_eq!(
        empty.to_hex(),
        "af1349b9f5f9a1a6a0404dea36dcc9499bcb25c9adc112b7cc9a93cae41f3262"
    );
}

#[test]
fn hex_text_is_lowercase_and_high_nibble_first() {
    let mut bytes = [0u8; 32];
    bytes[0] = 0x0F;
    bytes[1] = 0xA0;
    bytes[31] = 0xFF;
    let hash = aoe_server::blob::Hash::from_bytes(bytes);
    let text = hash.to_hex();
    assert_eq!(text.len(), 64);
    assert_eq!(&text[0..4], "0fa0");
    assert_eq!(&text[62..64], "ff");
    assert_eq!(&text[4..62], "0".repeat(58));
}

#[test]
fn from_hex_takes_both_cases_and_names_its_errors() {
    let upper = "AB".repeat(32);
    let hash = aoe_server::blob::Hash::from_hex(&upper).unwrap();
    assert_eq!(hash.as_bytes(), &[0xAB; 32]);
    let mixed = "aB".repeat(32);
    assert_eq!(aoe_server::blob::Hash::from_hex(&mixed).unwrap(), hash);
    assert_eq!(aoe_server::blob::Hash::from_hex("abc").err(), Some(HashTextError::InvalidHex));
    assert_eq!(
        aoe_server::blob::Hash::from_hex(&"zz".repeat(32)).err(),
        Some(HashTextError::InvalidHex)
    );
    assert_eq!(
        aoe_server::blob::Hash::from_hex("abcd").err(),
        Some(HashTextError::InvalidStringLength)
    );
    assert_eq!(
        aoe_server::blob::Hash::from_hex("nonexistent").err(),
        Some(HashTextError::InvalidHex)
    );
}

#[test]
fn memory_store_put_get() {
    let mut store = MemoryBlobStore::new();
    let data = b"hello world";
    let hash = aoe_server::blob::Hash::from_data(data);

    store.put(&hash, data).unwrap();
    assert!(store.contains(&hash).unwrap());

    let retrieved = store.get(&hash).unwrap();
    assert_eq!(retrieved, data);
}

#[test]
fn memory_store_dedup() {
    let mut store = MemoryBlobStore::new();
    let data = b"duplicate data";
    let hash = aoe_server::blob::Hash::from_data(data);

    store.put(&hash, data).unwrap();
    store.put(&hash, data).unwrap();

    assert_eq!(store.len(), 1);
    let retrieved = store.get(&hash).unwrap();
    assert_eq!(retrieved, data);
}

#[test]
fn memory_store_not_found() {
    let store = MemoryBlobStore::new();
    let hash = aoe_server::blob::Hash::from_data(b"nonexistent");
    let result = store.get(&hash);
    assert!(matches!(result, Err(BlobError::NotFound(_))));
    assert!(!store.contains(&hash).unwrap());
}

#[test]
fn memory_store_hash_mismatch() {
    let mut store = MemoryBlobStore::new();
    let data = b"actual data";
    let wrong_hash = aoe_server::blob::Hash::from_data(b"different data");

    let result = store.put(&wrong_hash, data);
    assert!(matches!(result, Err(BlobError::Corrupted(_))));
    assert_eq!(store.len(), 0);
}

#[test]
fn memory_store_refuses_mismatch_even_for_a_present_key() {
    let mut store = MemoryBlobStore::new();
    let data = b"actual data";
    let hash = aoe_server::blob::Hash::from_data(data);
    store.put(&hash, data).unwrap();
    assert!(matches!(store.put(&hash, b"other"), Err(BlobError::Corrupted(_))));
    assert_eq!(store.get(&hash).unwrap(), data);
}

#[test]
fn memory_store_delete() {
    let mut store = MemoryBlobStore::new();
    let data = b"to be deleted";
    let hash = aoe_server::blob::Hash::from_data(data);

    store.put(&hash, data).unwrap();
    assert!(store.contains(&hash).unwrap());

    store.delete(&hash).unwrap();
    assert!(!store.contains(&hash).unwrap());
    store.delete(&hash).unwrap();
    assert!(store.sync().is_ok());
}

#[test]
fn every_blob_returned_hashes_to_its_key() {
    let mut store = MemoryBlobStore::new();
    for text in [&b"a"[..], &b"bb"[..], &b"ccc"[..]] {
        let hash = aoe_server::blob::Hash::from_data(text);
        store.put(&hash, text).unwrap();
    }
    for entry in store.entries.iter() {
        let blob = store.get(&entry.0).unwrap();
        assert_eq!(aoe_server::blob::Hash::from_data(&blob), entry.0);
    }
}

struct ArchiveStore {
    inner: MemoryBlobStore,
}

impl BlobStore for ArchiveStore {
    fn put(&mut self, hash: &aoe_server::blob::Hash, data: &[u8]) -> Result<(), BlobError> {
        self.inner.put(hash, data)
    }

    fn get(&self, hash: &aoe_server::blob::Hash) -> Result<Vec<u8>, BlobError> {
        self.inner.get(hash)
    }

    fn contains(&self, hash: &aoe_server::blob::Hash) -> Result<bool, BlobError> {
        self.inner.contains(hash)
    }

    fn sync(&self) -> Result<(), BlobError> {
        self.inner.sync()
    }
}

#[test]
fn store_that_keeps_the_default_delete_keeps_its_blobs() {
    let mut store = ArchiveStore { inner: MemoryBlobStore::new() };
    let data = b"kept for good";
    let hash = aoe_server::blob::Hash::from_data(data);
    let absent = aoe_server::blob::Hash::from_data(b"never stored");
    store.put(&hash, data).unwrap();
    assert!(store.delete(&hash).is_ok());
    assert!(store.contains(&hash).unwrap());
    assert_eq!(store.get(&hash).unwrap(), data);
    assert!(store.delete(&absent).is_ok());
    assert!(!store.contains(&absent).unwrap());
}
