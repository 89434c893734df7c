use aoe_server::blob::MemoryBlobStore;
use aoe_server::protocol::ata::{
    error_register_of, flush_response, handle_ata_command, read_response, write_response,
};
use aoe_server::protocol::{build_identify_data, copy_ata_string, AtaFlags, AtaHeader, AtaResponse};
use aoe_server::storage::cas::SnapshotManager;
use aoe_server::storage::{BlockStorage, CasBackend, DeviceInfo, StorageError};

fn backend(total_sectors: u64) -> CasBackend<MemoryBlobStore> {
    CasBackend::new(
        MemoryBlobStore::new(),
        total_sectors,
        SnapshotManager::new("snapshots.json".to_string(), Vec::new()),
        "0123456789ABCDEF".to_string(),
    )
}

fn header(cmd: u8, extended: bool, lba: u64, sector_count: u8) -> AtaHeader {
    AtaHeader {
        flags: AtaFlags { extended, device: false, async_write: false, write: false },
        err_feature: 0,
        sector_count,
        cmd_status: cmd,
        lba,
    }
}

#[test]
fn test_copy_ata_string() {
    let mut dest = [0u8; 8];
    copy_ata_string(&mut dest, "TEST");

    assert_eq!(dest[0], b'E');
    assert_eq!(dest[1], b'T');
    assert_eq!(dest[2], b'T');
    assert_eq!(dest[3], b'S');
}

#[test]
fn test_ata_response_success() {
    let resp = AtaResponse::success();
    assert_eq!(resp.status, 0x40);
    assert_eq!(resp.error, 0);
    assert!(resp.data.is_none());
}

#[test]
fn test_ata_response_error() {
    let resp = AtaResponse::error(0x04);
    assert_eq!(resp.status, 0x01 | 0x40);
    assert_eq!(resp.error, 0x04);
}

#[test]
fn ata_string_is_padded_with_spaces() {
    let mut dest = [0u8; 8];
    copy_ata_string(&mut dest, "TEST");
    assert_eq!(&dest, b"ETTS    ");
    let mut odd = [0u8; 6];
    copy_ata_string(&mut odd, "ABC");
    assert_eq!(&odd, b"BA C  ");
    let mut short = [0u8; 4];
    copy_ata_string(&mut short, "ABCDEFGH");
    assert_eq!(&short, b"BADC");
    let mut uneven = [9u8; 3];
    copy_ata_string(&mut uneven, "AB");
    assert_eq!(&uneven, &[b'B', b'A', 9]);
}

#[test]
fn success_with_data_keeps_data_and_count() {
    let resp = AtaResponse::success_with_data(vec![1, 2, 3], 9);
    assert_eq!(resp.status, 0x40);
    assert_eq!(resp.error, 0);
    assert_eq!(resp.sector_count, 9);
    assert_eq!(resp.data, Some(vec![1, 2, 3]));
}

#[test]
fn identify_payload_fields() {
    let info = DeviceInfo {
        model: "AoE CAS Backend".to_string(),
        serial: "SER123".to_string(),
        firmware: "1.0".to_string(),
        total_sectors: 0x0000_0102_0304_0506,
        sector_size: 512,
        lba48: true,
    };
    let data = build_identify_data(&info);
    assert_eq!(data.len(), 512);
    assert_eq!(&data[20..40], b"ES1R32              ");
    assert_eq!(&data[46..54], b".1 0    ");
    assert_eq!(&data[54..70], b"oA EAC SaBkcne d");
    assert!(data[70..94].iter().all(|b| *b == b' '));
    assert_eq!(data[95], 0x01);
    assert_eq!(data[99], 0x03);
    assert_eq!(data[99] & 0x02, 0x02);
    assert_eq!(data[107], 0x06);
    assert_eq!(&data[120..124], &[0xFF, 0xFF, 0xFF, 0x0F]);
    assert_eq!(data[167], 0x04);
    assert_eq!(data[173], 0x04);
    assert_eq!(&data[200..208], &[0x06, 0x05, 0x04, 0x03, 0x02, 0x01, 0x00, 0x00]);
    assert_eq!(data[213], 0);
    assert!(data[0..20].iter().all(|b| *b == 0));
}

#[test]
fn identify_lba28_capacity_is_capped() {
    let mut info = DeviceInfo::default();
    info.total_sectors = 0x0FFF_FFFE;
    let below = build_identify_data(&info);
    assert_eq!(&below[120..124], &[0xFE, 0xFF, 0xFF, 0x0F]);
    info.total_sectors = 0x0FFF_FFFF;
    let at = build_identify_data(&info);
    assert_eq!(&at[120..124], &[0xFF, 0xFF, 0xFF, 0x0F]);
    info.total_sectors = 0x1000_0000;
    let above = build_identify_data(&info);
    assert_eq!(&above[120..124], &[0xFF, 0xFF, 0xFF, 0x0F]);
    assert_eq!(&above[200..206], &[0x00, 0x00, 0x00, 0x10, 0x00, 0x00]);
}

#[test]
fn identify_marks_4k_sectors_and_skips_lba48_capacity() {
    let mut info = DeviceInfo::default();
    info.total_sectors = 1000;
    info.sector_size = 4096;
    info.lba48 = false;
    let data = build_identify_data(&info);
    assert_eq!(data[213], 0x10);
    assert!(data[200..208].iter().all(|b| *b == 0));
    assert_eq!(&data[120..124], &[0xE8, 0x03, 0x00, 0x00]);
}

#[test]
fn default_device_info() {
    let info = DeviceInfo::default();
    assert_eq!(info.model, "AoE Virtual Disk");
    assert_eq!(info.serial, "0000000000");
    assert_eq!(info.firmware, "1.0");
    assert_eq!(info.total_sectors, 0);
    assert_eq!(info.sector_size, 512);
    assert!(info.lba48);
}

#[test]
fn error_registers() {
    assert_eq!(error_register_of(&StorageError::Corrupted), 0x40);
    assert_eq!(error_register_of(&StorageError::OutOfRange { lba: 1, max: 1 }), 0x10);
    assert_eq!(error_register_of(&StorageError::Backend("x".to_string())), 0x04);
    assert_eq!(error_register_of(&StorageError::Io("x".to_string())), 0x04);
    assert_eq!(error_register_of(&StorageError::ReadOnly), 0x04);
    assert_eq!(error_register_of(&StorageError::InvalidSectorCount(0)), 0x04);
    let r = read_response(3, Err(StorageError::Corrupted));
    assert_eq!((r.status, r.error, r.sector_count), (0x41, 0x40, 0));
    let r = read_response(3, Ok(vec![5]));
    assert_eq!((r.status, r.error, r.sector_count, r.data), (0x40, 0, 3, Some(vec![5])));
    let w = write_response(Ok(()));
    assert_eq!((w.status, w.error), (0x40, 0));
    let w = write_response(Err(StorageError::ReadOnly));
    assert_eq!((w.status, w.error), (0x41, 0x04));
    let f = flush_response(Ok(()));
    assert_eq!((f.status, f.error), (0x40, 0));
    let f = flush_response(Err(StorageError::Corrupted));
    assert_eq!((f.status, f.error), (0x41, 0x04));
}

#[test]
fn unknown_command_is_aborted() {
    let mut storage = backend(1024);
    let r = handle_ata_command(&mut storage, &header(0x99, true, 0, 1), &[]);
    assert_eq!(r.status, 0x41);
    assert_eq!(r.error, 0x04);
    assert!(r.data.is_none());
}

#[test]
fn write_then_read_through_commands() {
    let mut storage = backend(1024);
    let data = vec![0xCC; 1024];
    let w = handle_ata_command(&mut storage, &header(0x34, true, 5, 2), &data);
    assert_eq!((w.status, w.error), (0x40, 0));
    let r = handle_ata_command(&mut storage, &header(0x24, true, 5, 2), &[]);
    assert_eq!(r.status, 0x40);
    assert_eq!(r.sector_count, 2);
    assert_eq!(r.data, Some(data));
    let legacy = handle_ata_command(&mut storage, &header(0x20, false, 5, 1), &[]);
    assert_eq!(legacy.data, Some(vec![0xCC; 512]));
}

#[test]
fn sector_count_zero_means_256() {
    let mut storage = backend(1024);
    let data: Vec<u8> = (0..256 * 512).map(|i| (i / 512) as u8).collect();
    let w = handle_ata_command(&mut storage, &header(0x34, true, 10, 0), &data);
    assert_eq!((w.status, w.error), (0x40, 0));
    let r = handle_ata_command(&mut storage, &header(0x24, true, 10, 0), &[]);
    assert_eq!(r.status, 0x40);
    assert_eq!(r.sector_count, 0);
    assert_eq!(r.data.as_ref().map(|d| d.len()), Some(256 * 512));
    assert_eq!(r.data, Some(data));
    let short = handle_ata_command(&mut storage, &header(0x34, true, 10, 0), &[0u8; 512]);
    assert_eq!((short.status, short.error), (0x41, 0x04));
    let past = handle_ata_command(&mut storage, &header(0x24, true, 1024 - 255, 0), &[]);
    assert_eq!((past.status, past.error), (0x41, 0x10));
}

#[test]
fn requests_past_the_end_are_idnf() {
    let mut storage = backend(10);
    let r = handle_ata_command(&mut storage, &header(0x24, true, 9, 2), &[]);
    assert_eq!((r.status, r.error), (0x41, 0x10));
    let w = handle_ata_command(&mut storage, &header(0x34, true, 10, 1), &[1u8; 512]);
    assert_eq!((w.status, w.error), (0x41, 0x10));
    let ok = handle_ata_command(&mut storage, &header(0x34, true, 9, 1), &[1u8; 512]);
    assert_eq!((ok.status, ok.error), (0x40, 0));
}

#[test]
fn write_with_wrong_length_is_aborted() {
    let mut storage = backend(10);
    let w = handle_ata_command(&mut storage, &header(0x30, false, 0, 2), &[1u8; 512]);
    assert_eq!((w.status, w.error), (0x41, 0x04));
    assert_eq!(storage.read(0, 1).unwrap(), vec![0u8; 512]);
}

#[test]
fn lba28_commands_use_28_bits() {
    let mut storage = backend(1024);
    let w = handle_ata_command(&mut storage, &header(0x30, false, 0x1000_0003, 1), &[7u8; 512]);
    assert_eq!((w.status, w.error), (0x40, 0));
    assert_eq!(storage.read(3, 1).unwrap(), vec![7u8; 512]);
    let r = handle_ata_command(&mut storage, &header(0x24, true, 0x1000_0003, 1), &[]);
    assert_eq!((r.status, r.error), (0x41, 0x10));
}

#[test]
fn identify_and_flush_commands() {
    let mut storage = backend(2048);
    let id = handle_ata_command(&mut storage, &header(0xEC, false, 0, 0), &[]);
    assert_eq!(id.status, 0x40);
    assert_eq!(id.sector_count, 1);
    let data = id.data.unwrap();
    assert_eq!(data.len(), 512);
    assert_eq!(&data[200..204], &[0x00, 0x08, 0x00, 0x00]);
    assert_eq!(data, build_identify_data(storage.info()));
    for cmd in [0xE7u8, 0xEA] {
        let f = handle_ata_command(&mut storage, &header(cmd, false, 0, 0), &[]);
        assert_eq!((f.status, f.error), (0x40, 0));
        assert!(f.data.is_none());
    }
}
