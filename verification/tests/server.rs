use aoe_server::blob::MemoryBlobStore;
use aoe_server::protocol::{
    parse_frame, AoeError, AoeFlags, AoeFrame, AoeHeader, AoeCommand, AoePayload, AtaCommand,
    AtaFlags, ConfigCommand, ParseError, ResponseData,
};
use aoe_server::server::{handle_packet, is_broadcast_mac, TargetAddr, TargetManager};
use aoe_server::storage::cas::SnapshotManager;
use aoe_server::storage::{BlockStorage, CasBackend, StorageError};

fn backend(total_sectors: u64) -> CasBackend<MemoryBlobStore> {
    CasBackend::new(
        MemoryBlobStore::new(),
        total_sectors,
        SnapshotManager::new("snapshots.json".to_string(), Vec::new()),
        "SERIAL".to_string(),
    )
}

fn ata_request(shelf: u16, slot: u8, cmd: u8, lba: u64, count: u8, data: &[u8]) -> Vec<u8> {
    let mut frame = vec![0u8; 24 + 12];
    frame[0..6].copy_from_slice(&[0x00, 0x11, 0x22, 0x33, 0x44, 0x55]);
    frame[6..12].copy_from_slice(&[0xAA, 0xBB, 0xCC, 0xDD, 0xEE, 0xFF]);
    frame[12..14].copy_from_slice(&0x88A2u16.to_be_bytes());
    frame[14] = 0x01;
    frame[16..18].copy_from_slice(&shelf.to_be_bytes());
    frame[18] = slot;
    frame[19] = 0;
    frame[20..24].copy_from_slice(&0x12345678u32.to_be_bytes());
    frame[24] = 0x40;
    frame[26] = count;
    frame[27] = cmd;
    frame[28..34].copy_from_slice(&lba.to_le_bytes()[..6]);
    frame.extend_from_slice(data);
    frame
}

fn config_request(shelf: u16, slot: u8, ccmd: u8, text: &[u8]) -> Vec<u8> {
    let mut frame = vec![0u8; 24 + 8];
    frame[0..6].copy_from_slice(&[0xFF; 6]);
    frame[6..12].copy_from_slice(&[0x02, 0, 0, 0, 0, 0x01]);
    frame[12..14].copy_from_slice(&0x88A2u16.to_be_bytes());
    frame[14] = 0x01;
    frame[16..18].copy_from_slice(&shelf.to_be_bytes());
    frame[18] = slot;
    frame[19] = 1;
    frame[20..24].copy_from_slice(&7u32.to_be_bytes());
    frame[29] = 0x10 | ccmd;
    frame[30..32].copy_from_slice(&(text.len() as u16).to_be_bytes());
    frame.extend_from_slice(text);
    frame
}

fn config_string_of(frame: &[u8]) -> Vec<u8> {
    match parse_frame(frame).unwrap().payload {
        AoePayload::Config(c) => c.config_string,
        AoePayload::Ata { .. } => panic!("expected a Config response"),
    }
}

#[test]
fn address_matching() {
    let manager: TargetManager<CasBackend<MemoryBlobStore>> = TargetManager::new();
    let target = TargetAddr::new(2, 3);
    for (shelf, slot, expected) in [
        (2u16, 3u8, true),
        (0xFFFF, 3, true),
        (2, 0xFF, true),
        (0xFFFF, 0xFF, true),
        (1, 3, false),
        (2, 4, false),
        (0xFFFF, 4, false),
        (1, 0xFF, false),
    ] {
        let frame = parse_frame(&ata_request(shelf, slot, 0xEC, 0, 0, &[])).unwrap();
        assert_eq!(manager.address_matches(&frame, &target), expected);
        assert_eq!(frame.header.addresses_target(2, 3), expected);
    }
}

#[test]
fn broadcast_mac() {
    assert!(is_broadcast_mac(&[0xFF; 6]));
    assert!(!is_broadcast_mac(&[0xFF, 0xFF, 0xFF, 0xFF, 0xFF, 0xFE]));
    assert!(!is_broadcast_mac(&[0; 6]));
}

#[test]
fn add_target_counts_and_replaces() {
    let mut manager = TargetManager::new();
    assert_eq!(manager.target_count(), 0);
    assert_eq!(manager.firmware_version, 0x4019);
    manager.add_target(1, 0, backend(10), "a".to_string());
    manager.add_target(1, 1, backend(20), "b".to_string());
    assert_eq!(manager.target_count(), 2);
    manager.add_target(1, 0, backend(30), "c".to_string());
    assert_eq!(manager.target_count(), 2);
    assert_eq!(manager.targets[0].addr, TargetAddr::new(1, 0));
    assert_eq!(manager.targets[0].config_string, "c");
    assert_eq!(manager.targets[0].storage.info().total_sectors, 30);
    assert_eq!(manager.targets[1].config_string, "b");
    let other: TargetManager<CasBackend<MemoryBlobStore>> = TargetManager::default();
    assert_eq!(other.target_count(), 0);
}

#[test]
fn ata_read_over_the_wire() {
    let mut storage = backend(1024);
    storage.write(0, &vec![0xCC; 512]).unwrap();
    let mut manager = TargetManager::new();
    manager.add_target(1, 0, storage, String::new());
    let request = ata_request(1, 0, 0x24, 0, 1, &[]);
    let frames = handle_packet(&mut manager, &request).unwrap();
    assert_eq!(frames.len(), 1);
    let frame = &frames[0];
    assert_eq!(&frame[0..6], &[0xAA, 0xBB, 0xCC, 0xDD, 0xEE, 0xFF]);
    assert_eq!(&frame[6..12], &[0x00, 0x11, 0x22, 0x33, 0x44, 0x55]);
    assert_eq!(&frame[12..14], &[0x88, 0xA2]);
    assert_eq!(frame[14], 0x81);
    assert_eq!(frame[15], 0);
    assert_eq!(&frame[20..24], &[0x12, 0x34, 0x56, 0x78]);
    assert_eq!(frame[24], 0x40);
    assert_eq!(frame[26], 1);
    assert_eq!(frame[27], 0x40);
    assert_eq!(frame.len(), 24 + 12 + 512);
    assert_eq!(&frame[36..], &vec![0xCC; 512][..]);
}

#[test]
fn config_test_prefix() {
    let mut manager = TargetManager::new();
    manager.add_target(2, 3, backend(16), "archive-prod".to_string());
    let frames = handle_packet(&mut manager, &config_request(2, 3, 2, b"arch")).unwrap();
    assert_eq!(frames.len(), 1);
    assert_eq!(config_string_of(&frames[0]), b"archive-prod".to_vec());
    let frames = handle_packet(&mut manager, &config_request(2, 3, 2, b"xyz")).unwrap();
    assert!(frames.is_empty());
    let frames = handle_packet(&mut manager, &config_request(2, 3, 2, b"")).unwrap();
    assert_eq!(frames.len(), 1);
    let frames = handle_packet(&mut manager, &config_request(2, 3, 2, b"archive-prod-x")).unwrap();
    assert!(frames.is_empty());
}

#[test]
fn config_read_exact_and_set() {
    let mut manager = TargetManager::new();
    manager.add_target(2, 3, backend(16), "archive-prod".to_string());
    let frames = handle_packet(&mut manager, &config_request(2, 3, 0, b"ignored")).unwrap();
    assert_eq!(frames.len(), 1);
    let parsed = parse_frame(&frames[0]).unwrap();
    match parsed.payload {
        AoePayload::Config(c) => {
            assert_eq!(c.buffer_count, 16);
            assert_eq!(c.firmware_version, 0x4019);
            assert_eq!(c.sector_count, 2);
            assert_eq!(c.aoe_version(), 1);
            assert_eq!(c.config_command(), Ok(ConfigCommand::Read));
            assert_eq!(c.config_string, b"archive-prod".to_vec());
        }
        AoePayload::Ata { .. } => panic!("expected a Config response"),
    }
    let exact = handle_packet(&mut manager, &config_request(2, 3, 1, b"archive-prod")).unwrap();
    assert_eq!(exact.len(), 1);
    let inexact = handle_packet(&mut manager, &config_request(2, 3, 1, b"archive")).unwrap();
    assert!(inexact.is_empty());
    for ccmd in [3u8, 4] {
        let refused = handle_packet(&mut manager, &config_request(2, 3, ccmd, b"new")).unwrap();
        assert_eq!(refused.len(), 1);
        assert_eq!(refused[0].len(), 24);
        assert_eq!(refused[0][14], 0xC1);
        assert_eq!(refused[0][15], 4);
    }
    let unknown = handle_packet(&mut manager, &config_request(2, 3, 9, b"")).unwrap();
    assert_eq!(unknown.len(), 1);
    assert_eq!(unknown[0][14], 0xC1);
    assert_eq!(unknown[0][15], 1);
}

#[test]
fn broadcast_reaches_every_target_in_order() {
    let mut manager = TargetManager::new();
    manager.add_target(1, 0, backend(16), "one".to_string());
    manager.add_target(1, 1, backend(16), "two".to_string());
    manager.add_target(2, 0, backend(16), "three".to_string());
    let frame = parse_frame(&config_request(0xFFFF, 0xFF, 0, b"")).unwrap();
    let responses = manager.handle_frame(&frame).unwrap();
    let addrs: Vec<TargetAddr> = responses.iter().map(|r| r.0).collect();
    assert_eq!(addrs, vec![TargetAddr::new(1, 0), TargetAddr::new(1, 1), TargetAddr::new(2, 0)]);
    let shelf = parse_frame(&config_request(1, 0xFF, 2, b"t")).unwrap();
    let responses = manager.handle_frame(&shelf).unwrap();
    assert_eq!(responses.len(), 1);
    assert_eq!(responses[0].0, TargetAddr::new(1, 1));
    match &responses[0].1 {
        ResponseData::Config(c) => assert_eq!(c.config_string, b"two".to_vec()),
        _ => panic!("expected a Config response"),
    }
}

#[test]
fn unknown_target_gets_no_response() {
    let mut manager = TargetManager::new();
    manager.add_target(1, 0, backend(16), String::new());
    let frames = handle_packet(&mut manager, &ata_request(1, 1, 0xEC, 0, 0, &[])).unwrap();
    assert!(frames.is_empty());
    let frames = handle_packet(&mut manager, &ata_request(3, 0, 0xEC, 0, 0, &[])).unwrap();
    assert!(frames.is_empty());
}

#[test]
fn packets_that_are_dropped_or_refused() {
    let mut manager = TargetManager::new();
    manager.add_target(1, 0, backend(16), String::new());
    assert!(handle_packet(&mut manager, &[0u8; 13]).unwrap().is_empty());
    let mut ip = ata_request(1, 0, 0xEC, 0, 0, &[]);
    ip[12] = 0x08;
    ip[13] = 0x00;
    assert!(handle_packet(&mut manager, &ip).unwrap().is_empty());
    let mut response = ata_request(1, 0, 0xEC, 0, 0, &[]);
    response[14] = 0x81;
    assert!(handle_packet(&mut manager, &response).unwrap().is_empty());
    let mut version = ata_request(1, 0, 0xEC, 0, 0, &[]);
    version[14] = 0x02;
    assert!(matches!(
        handle_packet(&mut manager, &version),
        Err(AoeError::Parse(ParseError::UnsupportedVersion(2)))
    ));
    let short = &ata_request(1, 0, 0xEC, 0, 0, &[])[..20];
    assert!(matches!(
        handle_packet(&mut manager, short),
        Err(AoeError::Parse(ParseError::TooShort { expected: 24, actual: 20 }))
    ));
}

#[test]
fn write_over_the_wire_changes_only_its_target() {
    let mut manager = TargetManager::new();
    manager.add_target(1, 0, backend(16), String::new());
    manager.add_target(1, 1, backend(16), String::new());
    let frames =
        handle_packet(&mut manager, &ata_request(1, 1, 0x34, 2, 1, &vec![0x5A; 512])).unwrap();
    assert_eq!(frames.len(), 1);
    assert_eq!(frames[0][14], 0x81);
    assert_eq!(frames[0][27], 0x40);
    assert_eq!(manager.targets[1].storage.read(2, 1).unwrap(), vec![0x5A; 512]);
    assert_eq!(manager.targets[0].storage.read(2, 1).unwrap(), vec![0u8; 512]);
    let past = handle_packet(&mut manager, &ata_request(1, 1, 0x24, 16, 1, &[])).unwrap();
    assert_eq!(past[0][25], 0x10);
    assert_eq!(past[0][27], 0x41);
    assert!(matches!(
        manager.targets[1].storage.read(16, 1),
        Err(StorageError::OutOfRange { lba: 16, max: 16 })
    ));
}

#[test]
fn frame_with_mismatched_payload_is_a_bad_argument() {
    let mut manager = TargetManager::new();
    manager.add_target(1, 0, backend(16), String::new());
    let mut frame: AoeFrame = parse_frame(&ata_request(1, 0, 0xEC, 0, 0, &[])).unwrap();
    frame.header.command = AoeCommand::Config;
    let responses = manager.handle_frame(&frame).unwrap();
    assert_eq!(responses.len(), 1);
    assert!(matches!(responses[0].1, ResponseData::Error { code: 2 }));
}

#[test]
fn error_codes() {
    assert_eq!(AoeError::UnrecognizedCommand(9).to_error_code(), 1);
    assert_eq!(AoeError::BadArgument("x".to_string()).to_error_code(), 2);
    assert_eq!(AoeError::Parse(ParseError::InvalidAtaHeader).to_error_code(), 2);
    assert_eq!(AoeError::DeviceUnavailable.to_error_code(), 3);
    assert_eq!(AoeError::Storage(StorageError::ReadOnly).to_error_code(), 3);
    assert_eq!(AoeError::ConfigStringPresent.to_error_code(), 4);
    assert_eq!(AoeError::UnsupportedVersion(2).to_error_code(), 5);
    assert_eq!(AoeError::TargetReserved.to_error_code(), 6);
}

#[test]
fn wire_codes_of_the_enums_and_flags() {
    assert_eq!(AoeCommand::try_from(0), Ok(AoeCommand::Ata));
    assert_eq!(AoeCommand::try_from(1), Ok(AoeCommand::Config));
    assert_eq!(AoeCommand::try_from(2), Err(2));
    assert_eq!(AoeCommand::Config.to_byte(), 1);
    for (code, cmd, name) in [
        (0x20u8, AtaCommand::ReadSectors, "READ SECTORS"),
        (0x24, AtaCommand::ReadSectorsExt, "READ SECTORS EXT"),
        (0x30, AtaCommand::WriteSectors, "WRITE SECTORS"),
        (0x34, AtaCommand::WriteSectorsExt, "WRITE SECTORS EXT"),
        (0xEC, AtaCommand::IdentifyDevice, "IDENTIFY DEVICE"),
        (0xE7, AtaCommand::FlushCache, "FLUSH CACHE"),
        (0xEA, AtaCommand::FlushCacheExt, "FLUSH CACHE EXT"),
    ] {
        assert_eq!(AtaCommand::try_from(code), Ok(cmd));
        assert_eq!(cmd.name(), name);
    }
    assert_eq!(AtaCommand::try_from(0x21), Err(0x21));
    assert_eq!(ConfigCommand::try_from(2), Ok(ConfigCommand::TestPrefix));
    assert_eq!(ConfigCommand::try_from(3), Ok(ConfigCommand::SetConfig));
    assert_eq!(ConfigCommand::try_from(4), Ok(ConfigCommand::ForceSet));
    assert_eq!(ConfigCommand::try_from(5), Err(5));
    let flags = AoeFlags { response: true, error: false };
    assert_eq!(flags.to_byte(1), 0x81);
    assert_eq!(AoeFlags { response: true, error: true }.to_byte(0x31), 0xC1);
    assert_eq!(AoeFlags::default().to_byte(1), 0x01);
    assert_eq!(AoeFlags::from_byte(0x0C), AoeFlags { response: true, error: true });
    assert_eq!(AoeFlags::from_byte(0x03), AoeFlags { response: false, error: false });
    let ata = AtaFlags { extended: true, device: false, async_write: true, write: true };
    assert_eq!(ata.to_byte(), 0x43);
    assert_eq!(AtaFlags::from_byte(0x43), ata);
    assert_eq!(AtaFlags::from_byte(0xFF).to_byte(), 0x63);
    assert_eq!(AtaFlags::default().to_byte(), 0);
    assert_eq!(AoeHeader::SIZE, 24);
}
