use aoe_server::protocol::{
    build_ata_response, build_config_response, build_error_response, build_response, parse_frame,
    AoeCommand, AoeFrame, AoePayload, AtaResponse, ConfigResponse, ParseError, ResponseData,
};

fn make_test_request() -> AoeFrame {
    let mut frame = vec![0u8; 24 + 12];
    frame[0..6].copy_from_slice(&[0x00, 0x11, 0x22, 0x33, 0x44, 0x55]);
    frame[6..12].copy_from_slice(&[0xAA, 0xBB, 0xCC, 0xDD, 0xEE, 0xFF]);
    frame[12..14].copy_from_slice(&0x88A2u16.to_be_bytes());
    frame[14] = 0x01;
    frame[15] = 0;
    frame[16..18].copy_from_slice(&1u16.to_be_bytes());
    frame[18] = 0;
    frame[19] = 0;
    frame[20..24].copy_from_slice(&0x12345678u32.to_be_bytes());
    frame[24] = 0x40;
    frame[25] = 0;
    frame[26] = 1;
    frame[27] = 0x24;
    parse_frame(&frame).unwrap()
}

fn make_config_request(ccmd: u8, text: &[u8]) -> AoeFrame {
    let mut frame = vec![0u8; 24 + 8];
    frame[0..6].copy_from_slice(&[0xFF; 6]);
    frame[6..12].copy_from_slice(&[0x02, 0x00, 0x00, 0x00, 0x00, 0x01]);
    frame[12..14].copy_from_slice(&0x88A2u16.to_be_bytes());
    frame[14] = 0x01;
    frame[16..18].copy_from_slice(&2u16.to_be_bytes());
    frame[18] = 3;
    frame[19] = 1;
    frame[20..24].copy_from_slice(&0xCAFEBABEu32.to_be_bytes());
    frame[29] = 0x10 | ccmd;
    frame[30..32].copy_from_slice(&(text.len() as u16).to_be_bytes());
    frame.extend_from_slice(text);
    parse_frame(&frame).unwrap()
}

#[test]
fn test_build_ata_response() {
    let request = make_test_request();
    let response = AtaResponse { status: 0x40, error: 0, sector_count: 1, data: Some(vec![0xAA; 512]) };

    let frame = build_ata_response(&request, response);

    assert_eq!(&frame[0..6], &[0xAA, 0xBB, 0xCC, 0xDD, 0xEE, 0xFF]);
    assert_eq!(&frame[6..12], &[0x00, 0x11, 0x22, 0x33, 0x44, 0x55]);
    assert_eq!(frame[14] & 0x80, 0x80);
    let tag = u32::from_be_bytes([frame[20], frame[21], frame[22], frame[23]]);
    assert_eq!(tag, 0x12345678);
    assert_eq!(frame.len(), 24 + 12 + 512);
}

#[test]
fn test_build_error_response() {
    let request = make_test_request();
    let frame = build_error_response(&request, 3);

    assert_eq!(frame[14] & 0x40, 0x40);
    assert_eq!(frame[15], 3);
}

#[test]
fn ata_response_frame_has_exact_bytes() {
    let mut request = make_test_request();
    if let AoePayload::Ata { header, .. } = &mut request.payload {
        header.lba = 0x0000_0605_0403_0201;
    }
    let response = AtaResponse { status: 0x40, error: 0, sector_count: 1, data: Some(vec![0xCC; 2]) };
    let frame = build_ata_response(&request, response);
    let expected: Vec<u8> = vec![
        0xAA, 0xBB, 0xCC, 0xDD, 0xEE, 0xFF, 0x00, 0x11, 0x22, 0x33, 0x44, 0x55, 0x88, 0xA2, 0x81,
        0x00, 0x00, 0x01, 0x00, 0x00, 0x12, 0x34, 0x56, 0x78, 0x40, 0x00, 0x01, 0x40, 0x01, 0x02,
        0x03, 0x04, 0x05, 0x06, 0x00, 0x00, 0xCC, 0xCC,
    ];
    assert_eq!(frame, expected);
}

#[test]
fn error_response_to_ata_request_carries_abort_trailer() {
    let request = make_test_request();
    let frame = build_error_response(&request, 3);
    assert_eq!(frame.len(), 24 + 12);
    assert_eq!(frame[14], 0xC1);
    assert_eq!(frame[19], 0);
    assert_eq!(frame[24], 0x40);
    assert_eq!(frame[25], 0x04);
    assert_eq!(frame[26], 0);
    assert_eq!(frame[27], 0x41);
}

#[test]
fn error_response_to_config_request_has_no_trailer() {
    let request = make_config_request(3, b"x");
    let frame = build_error_response(&request, 4);
    assert_eq!(frame.len(), 24);
    assert_eq!(frame[14], 0xC1);
    assert_eq!(frame[15], 4);
    assert_eq!(frame[19], 1);
}

#[test]
fn config_response_frame_has_exact_bytes() {
    let request = make_config_request(0, b"");
    let response = ConfigResponse {
        buffer_count: 16,
        firmware_version: 0x4019,
        sector_count: 2,
        config_string: b"ab".to_vec(),
    };
    let frame = build_config_response(&request, response);
    let expected: Vec<u8> = vec![
        0x02, 0x00, 0x00, 0x00, 0x00, 0x01, 0xFF, 0xFF, 0xFF, 0xFF, 0xFF, 0xFF, 0x88, 0xA2, 0x81,
        0x00, 0x00, 0x02, 0x03, 0x01, 0xCA, 0xFE, 0xBA, 0xBE, 0x00, 0x10, 0x40, 0x19, 0x02, 0x10,
        0x00, 0x02, b'a', b'b',
    ];
    assert_eq!(frame, expected);
}

#[test]
fn built_ata_response_parses_back() {
    let mut request = make_test_request();
    if let AoePayload::Ata { header, .. } = &mut request.payload {
        header.lba = 0x0000_1234_5678_9ABC;
    }
    let response = AtaResponse { status: 0x40, error: 0, sector_count: 7, data: Some(vec![1, 2, 3]) };
    let frame = build_response(&request, ResponseData::Ata(response));
    let parsed = parse_frame(&frame).unwrap();
    assert_eq!(parsed.header.tag, 0x12345678);
    assert_eq!(parsed.header.shelf, 1);
    assert_eq!(parsed.header.slot, 0);
    assert_eq!(parsed.header.command, AoeCommand::Ata);
    assert!(parsed.header.flags.response);
    assert!(!parsed.header.flags.error);
    match parsed.payload {
        AoePayload::Ata { header, data } => {
            assert_eq!(header.lba, 0x0000_1234_5678_9ABC);
            assert_eq!(header.sector_count, 7);
            assert_eq!(header.cmd_status, 0x40);
            assert!(header.flags.extended);
            assert_eq!(data, vec![1, 2, 3]);
        }
        AoePayload::Config(_) => panic!("expected ATA payload"),
    }
}

#[test]
fn built_error_response_parses_back() {
    let request = make_test_request();
    let frame = build_response(&request, ResponseData::Error { code: 5 });
    let parsed = parse_frame(&frame).unwrap();
    assert!(parsed.header.flags.response);
    assert!(parsed.header.flags.error);
    assert_eq!(parsed.header.error, 5);
    assert_eq!(parsed.header.tag, 0x12345678);
}

#[test]
fn built_config_response_parses_back() {
    let request = make_config_request(2, b"arch");
    let response = ConfigResponse {
        buffer_count: 16,
        firmware_version: 0x4019,
        sector_count: 2,
        config_string: b"archive-prod".to_vec(),
    };
    let frame = build_response(&request, ResponseData::Config(response));
    let parsed = parse_frame(&frame).unwrap();
    assert_eq!(parsed.header.command, AoeCommand::Config);
    assert_eq!(parsed.header.shelf, 2);
    assert_eq!(parsed.header.slot, 3);
    match parsed.payload {
        AoePayload::Config(c) => {
            assert_eq!(c.buffer_count, 16);
            assert_eq!(c.firmware_version, 0x4019);
            assert_eq!(c.config_len, 12);
            assert_eq!(c.config_string, b"archive-prod".to_vec());
        }
        AoePayload::Ata { .. } => panic!("expected Config payload"),
    }
}

#[test]
fn error_response_to_config_request_is_too_short_to_parse() {
    let request = make_config_request(3, b"new");
    let frame = build_response(&request, ResponseData::Error { code: 4 });
    assert_eq!(frame.len(), 24);
    assert_eq!(&frame[16..18], &[0, 2]);
    assert_eq!(frame[18], 3);
    assert_eq!(&frame[20..24], &0xCAFEBABEu32.to_be_bytes());
    assert_eq!(
        parse_frame(&frame).err(),
        Some(ParseError::TooShort { expected: 32, actual: 24 })
    );
}
