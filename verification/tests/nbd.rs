use aoe_server::blob::MemoryBlobStore;
use aoe_server::nbd::protocol::{
    handshake_greeting, handshake_oldstyle, negotiate_option, NbdRequestError, OptionStep,
};
use aoe_server::nbd::server::{fill_last_sector, read_reply, write_reply, NbdStep};
use aoe_server::nbd::{NbdCommand, NbdReply, NbdRequest, NbdServer, NbdServerConfig};
use aoe_server::storage::cas::SnapshotManager;
use aoe_server::storage::{BlockStorage, CasBackend, StorageError};

fn server(total_sectors: u64) -> NbdServer<CasBackend<MemoryBlobStore>> {
    let backend = CasBackend::new(
        MemoryBlobStore::new(),
        total_sectors,
        SnapshotManager::new("snapshots.json".to_string(), Vec::new()),
        "NBD".to_string(),
    );
    NbdServer::new(NbdServerConfig::default(), backend)
}

fn request(command: u32, handle: u64, offset: u64, length: u32) -> NbdRequest {
    NbdRequest { magic: 0x25609513, command, handle, offset, length }
}

#[test]
fn command_codes() {
    assert_eq!(NbdCommand::from_u32(0), Some(NbdCommand::Read));
    assert_eq!(NbdCommand::from_u32(1), Some(NbdCommand::Write));
    assert_eq!(NbdCommand::from_u32(2), Some(NbdCommand::Disc));
    assert_eq!(NbdCommand::from_u32(3), Some(NbdCommand::Flush));
    assert_eq!(NbdCommand::from_u32(4), Some(NbdCommand::Trim));
    assert_eq!(NbdCommand::from_u32(5), None);
    assert_eq!(NbdCommand::from_u32(6), Some(NbdCommand::WriteZeroes));
    assert_eq!(NbdCommand::from_u32(7), None);
    assert_eq!(request(0x0001_0001, 0, 0, 0).command_type(), Some(NbdCommand::Write));
    assert_eq!(request(0x0001_0005, 0, 0, 0).command_type(), None);
}

#[test]
fn request_is_read_from_28_bytes() {
    let mut bytes = Vec::new();
    bytes.extend_from_slice(&0x25609513u32.to_be_bytes());
    bytes.extend_from_slice(&1u32.to_be_bytes());
    bytes.extend_from_slice(&0x0102030405060708u64.to_be_bytes());
    bytes.extend_from_slice(&0x1112131415161718u64.to_be_bytes());
    bytes.extend_from_slice(&0x2122u32.to_be_bytes());
    let r = NbdRequest::parse(&bytes).unwrap();
    assert_eq!(r.magic, 0x25609513);
    assert_eq!(r.command, 1);
    assert_eq!(r.handle, 0x0102030405060708);
    assert_eq!(r.offset, 0x1112131415161718);
    assert_eq!(r.length, 0x2122);
    assert_eq!(NbdRequest::parse(&bytes[..27]).err(), Some(NbdRequestError::TooShort));
    bytes[3] = 0x14;
    assert_eq!(
        NbdRequest::parse(&bytes).err(),
        Some(NbdRequestError::InvalidMagic(0x25609514))
    );
}

#[test]
fn reply_is_16_bytes() {
    let reply = NbdReply::new(0x0102030405060708, 5);
    assert_eq!(reply.magic, 0x67446698);
    assert_eq!(
        reply.to_bytes(),
        vec![0x67, 0x44, 0x66, 0x98, 0, 0, 0, 5, 1, 2, 3, 4, 5, 6, 7, 8]
    );
}

#[test]
fn newstyle_greeting_bytes() {
    let mut expected = b"NBDMAGICIHAVEOPT".to_vec();
    expected.extend_from_slice(&[0x00, 0x03]);
    assert_eq!(handshake_greeting(), expected);
}

#[test]
fn oldstyle_handshake_bytes() {
    let out = handshake_oldstyle(0x1000, 5);
    assert_eq!(out.len(), 8 + 8 + 8 + 2 + 124);
    assert_eq!(&out[0..8], b"NBDMAGIC");
    assert_eq!(&out[8..16], &0x00420281861253u64.to_be_bytes());
    assert_eq!(&out[16..24], &0x1000u64.to_be_bytes());
    assert_eq!(&out[24..26], &[0, 5]);
    assert!(out[26..].iter().all(|b| *b == 0));
}

#[test]
fn option_negotiation() {
    match negotiate_option(0x49484156454F5054, 1, 0, 0x20_0000, 5) {
        OptionStep::Export(bytes) => {
            assert_eq!(bytes.len(), 8 + 2 + 124);
            assert_eq!(&bytes[0..8], &0x20_0000u64.to_be_bytes());
            assert_eq!(&bytes[8..10], &[0, 5]);
            assert!(bytes[10..].iter().all(|b| *b == 0));
        }
        _ => panic!("expected the export information"),
    }
    match negotiate_option(0x49484156454F5054, 1, 2, 0x20_0000, 5) {
        OptionStep::Export(bytes) => assert_eq!(bytes.len(), 10),
        _ => panic!("expected the export information"),
    }
    assert!(matches!(negotiate_option(0x49484156454F5054, 2, 0, 0, 0), OptionStep::Abort));
    match negotiate_option(0x49484156454F5054, 3, 0, 0, 0) {
        OptionStep::Unsupported(bytes) => {
            let mut expected = 0x3e889045565a9u64.to_be_bytes().to_vec();
            expected.extend_from_slice(&3u32.to_be_bytes());
            expected.extend_from_slice(&0x8000_0001u32.to_be_bytes());
            expected.extend_from_slice(&0u32.to_be_bytes());
            assert_eq!(bytes, expected);
        }
        _ => panic!("expected an unsupported reply"),
    }
    assert!(matches!(negotiate_option(7, 1, 0, 0, 0), OptionStep::InvalidMagic(7)));
}

#[test]
fn default_config() {
    let config = NbdServerConfig::default();
    assert_eq!(config.bind_addr, "127.0.0.1:10809");
    assert_eq!(config.export_name, "cas-disk");
    assert_eq!(server(2048).export_size(), Some(1024 * 1024));
    assert_eq!(server(u64::MAX).export_size(), None);
}

#[test]
fn write_then_read() {
    let mut server = server(2048);
    let payload = vec![0xAB; 1024];
    let w = server.handle_write(&request(1, 9, 512 * 4, 1024), &payload);
    assert_eq!((w.error, w.handle), (0, 9));
    let (r, data) = server.handle_read(&request(0, 10, 512 * 4, 1024));
    assert_eq!((r.error, r.handle), (0, 10));
    assert_eq!(data, payload);
    let (r, data) = server.handle_read(&request(0, 11, 512 * 4, 100));
    assert_eq!(r.error, 0);
    assert_eq!(data, vec![0xAB; 100]);
}

#[test]
fn unaligned_write_keeps_the_rest_of_the_last_sector() {
    let mut server = server(2048);
    server.storage.write(7, &vec![0x11; 1024]).unwrap();
    let payload = vec![0x22; 512 + 100];
    let w = server.handle_write(&request(1, 1, 512 * 7, 612), &payload);
    assert_eq!(w.error, 0);
    let stored = server.storage.read(7, 2).unwrap();
    assert_eq!(&stored[..612], &payload[..]);
    assert_eq!(&stored[612..], &vec![0x11; 412][..]);
}

#[test]
fn transfers_of_more_than_255_sectors_are_invalid() {
    let mut server = server(2048);
    let (r, data) = server.handle_read(&request(0, 3, 0, 255 * 512 + 1));
    assert_eq!(r.error, 22);
    assert!(data.is_empty());
    let (ok, data) = server.handle_read(&request(0, 3, 0, 255 * 512));
    assert_eq!(ok.error, 0);
    assert_eq!(data.len(), 255 * 512);
    let payload = vec![1u8; 256 * 512];
    let w = server.handle_write(&request(1, 4, 0, 256 * 512), &payload);
    assert_eq!(w.error, 22);
    assert_eq!(server.storage.read(0, 1).unwrap(), vec![0u8; 512]);
}

#[test]
fn device_errors_are_eio() {
    let mut server = server(16);
    let (r, data) = server.handle_read(&request(0, 3, 512 * 16, 512));
    assert_eq!(r.error, 5);
    assert!(data.is_empty());
    let w = server.handle_write(&request(1, 4, 512 * 16, 512), &vec![1u8; 512]);
    assert_eq!(w.error, 5);
    let f = server.handle_flush(&request(3, 5, 0, 0));
    assert_eq!((f.error, f.handle), (0, 5));
}

#[test]
fn dispatch_of_requests() {
    let mut server = server(64);
    assert!(matches!(server.handle_request(&request(2, 1, 0, 0), &[]), NbdStep::Disconnect));
    match server.handle_request(&request(4, 2, 0, 512), &[]) {
        NbdStep::Reply { reply, data } => {
            assert_eq!((reply.error, reply.handle), (0, 2));
            assert!(data.is_empty());
        }
        NbdStep::Disconnect => panic!("expected a reply"),
    }
    match server.handle_request(&request(6, 3, 0, 512), &[]) {
        NbdStep::Reply { reply, .. } => assert_eq!((reply.error, reply.handle), (22, 3)),
        NbdStep::Disconnect => panic!("expected a reply"),
    }
    match server.handle_request(&request(1, 4, 0, 512), &vec![0x44; 512]) {
        NbdStep::Reply { reply, data } => {
            assert_eq!(reply.error, 0);
            assert!(data.is_empty());
        }
        NbdStep::Disconnect => panic!("expected a reply"),
    }
    match server.handle_request(&request(0, 5, 0, 512), &[]) {
        NbdStep::Reply { reply, data } => {
            assert_eq!(reply.error, 0);
            assert_eq!(data, vec![0x44; 512]);
        }
        NbdStep::Disconnect => panic!("expected a reply"),
    }
    match server.handle_request(&request(3, 6, 0, 0), &[]) {
        NbdStep::Reply { reply, .. } => assert_eq!(reply.error, 0),
        NbdStep::Disconnect => panic!("expected a reply"),
    }
}

#[test]
fn reply_to_a_read_cuts_the_data_to_the_length() {
    let sectors: Vec<u8> = (0..1024u32).map(|i| (i % 251) as u8).collect();
    let (reply, data) = read_reply(&request(0, 7, 0, 600), Ok(sectors.clone()));
    assert_eq!((reply.magic, reply.error, reply.handle), (0x67446698, 0, 7));
    assert_eq!(data, sectors[..600].to_vec());
    let (reply, data) = read_reply(&request(0, 8, 0, 0), Ok(Vec::new()));
    assert_eq!((reply.error, reply.handle), (0, 8));
    assert!(data.is_empty());
    let (reply, data) = read_reply(&request(0, 9, 0, 600), Err(StorageError::Corrupted));
    assert_eq!((reply.magic, reply.error, reply.handle), (0x67446698, 5, 9));
    assert!(data.is_empty());
}

#[test]
fn reply_to_a_write_is_success_or_eio() {
    let ok = write_reply(11, Ok(()));
    assert_eq!((ok.magic, ok.error, ok.handle), (0x67446698, 0, 11));
    let failed = write_reply(12, Err(StorageError::ReadOnly));
    assert_eq!((failed.magic, failed.error, failed.handle), (0x67446698, 5, 12));
}

#[test]
fn last_sector_is_filled_from_what_was_read() {
    let payload = vec![0x22u8; 512 + 100];
    let last: Vec<u8> = (0..512u32).map(|i| (i % 256) as u8).collect();
    let filled = fill_last_sector(&payload, Ok(last.clone()));
    assert_eq!(filled.len(), 1024);
    assert_eq!(&filled[..612], &payload[..]);
    assert_eq!(&filled[612..], &last[100..]);
    let zeros = fill_last_sector(&payload, Err(StorageError::Corrupted));
    assert_eq!(zeros.len(), 1024);
    assert_eq!(&zeros[..612], &payload[..]);
    assert!(zeros[612..].iter().all(|b| *b == 0));
    let whole = vec![0x33u8; 1024];
    assert_eq!(fill_last_sector(&whole, Ok(last)), whole);
    assert_eq!(fill_last_sector(&[], Err(StorageError::ReadOnly)), Vec::<u8>::new());
}

#[test]
fn unaligned_write_past_the_device_fills_with_zeros_and_fails() {
    let mut server = server(8);
    let w = server.handle_write(&request(1, 1, 512 * 8, 100), &vec![1u8; 100]);
    assert_eq!(w.error, 5);
    assert_eq!(server.storage.read(7, 1).unwrap(), vec![0u8; 512]);
}
