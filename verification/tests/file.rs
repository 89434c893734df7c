use aoe_server::blob::{BlobError, FileBlobStore};
use aoe_server::storage::file::{file_device_info, needs_growth, read_extent, write_extent};
use aoe_server::storage::StorageError;

#[test]
fn file_of_one_mebibyte_has_2048_sectors() {
    let info = file_device_info(1024 * 1024, "0123456789ABCDEF".to_string());
    assert_eq!(info.total_sectors, 2048);
    assert_eq!(info.sector_size, 512);
    assert_eq!(info.model, "AoE File Backend");
    assert_eq!(info.serial, "0123456789ABCDEF");
    assert!(info.lba48);
    assert_eq!(file_device_info(1023, String::new()).total_sectors, 1);
}

#[test]
fn file_grows_only_when_it_is_shorter() {
    assert!(needs_growth(0, 1024));
    assert!(!needs_growth(1024, 1024));
    assert!(!needs_growth(2048, 1024));
}

#[test]
fn extents_of_reads_and_writes() {
    let info = file_device_info(1024 * 1024, String::new());
    assert!(matches!(read_extent(&info, 0, 1), Ok((0, 512))));
    assert!(matches!(read_extent(&info, 9, 2), Ok((4608, 1024))));
    assert!(matches!(read_extent(&info, 2047, 1), Ok((1048064, 512))));
    assert!(matches!(write_extent(&info, 0, 512), Ok(0)));
    assert!(matches!(write_extent(&info, 10, 2048), Ok(5120)));
    assert!(matches!(write_extent(&info, 10, 100), Err(StorageError::Backend(_))));
}

#[test]
fn extents_past_the_end_are_out_of_range() {
    let info = file_device_info(512 * 10, String::new());
    assert!(matches!(
        read_extent(&info, 9, 2),
        Err(StorageError::OutOfRange { lba: 9, max: 10 })
    ));
    assert!(matches!(read_extent(&info, 9, 1), Ok((4608, 512))));
    assert!(matches!(
        write_extent(&info, 10, 512),
        Err(StorageError::OutOfRange { lba: 10, max: 10 })
    ));
    assert!(matches!(write_extent(&info, 9, 512), Ok(4608)));
}

#[test]
fn blob_paths_shard_by_the_first_byte() {
    let mut bytes = [0x11u8; 32];
    bytes[0] = 0xAB;
    bytes[1] = 0x3F;
    let hash = aoe_server::blob::Hash::from_bytes(bytes);
    let (prefix, rest) = FileBlobStore::shard_names(&hash);
    assert_eq!(prefix, "ab");
    assert_eq!(rest, format!("3f{}", "11".repeat(30)));
    let store = FileBlobStore::at("/data/blobs".to_string());
    assert_eq!(store.dir_for(&hash), "/data/blobs/ab");
    assert_eq!(store.path_for(&hash), format!("/data/blobs/ab/3f{}", "11".repeat(30)));
}

#[test]
fn blob_check_compares_the_hash() {
    let data = b"actual data";
    let right = aoe_server::blob::Hash::from_data(data);
    let wrong = aoe_server::blob::Hash::from_data(b"different data");
    assert!(FileBlobStore::check_blob(&right, data).is_ok());
    assert!(matches!(FileBlobStore::check_blob(&wrong, data), Err(BlobError::Corrupted(_))));
}
