//! Parsing of raw Ethernet frames into AoE frames.

use super::types::{
    AoeCommand, AoeFlags, AoeFrame, AoeHeader, AoePayload, AtaFlags, AtaHeader, ConfigHeader,
};
use crate::bytes::{be16, be32, read_be16, read_be32};
use vstd::prelude::*;
use vstd::slice::{slice_subrange, slice_to_vec};

verus! {

/// Why a frame could not be parsed.
#[allow(inconsistent_fields)]
#[derive(Debug, Clone, Copy, PartialEq, Eq, Structural)]
pub enum ParseError {
    /// The frame ends before the header it must hold.
    TooShort { expected: usize, actual: usize },
    /// The EtherType is not the AoE one.
    InvalidEtherType { actual: u16 },
    /// The version nibble is not 1.
    UnsupportedVersion(u8),
    /// The command class is neither ATA nor Config.
    UnknownCommand(u8),
    /// The ATA header is malformed.
    InvalidAtaHeader,
    /// The config string is cut off.
    InvalidConfigHeader,
}

/// The 48-bit address held in six bytes, least significant first.
pub open spec fn lba_of_bytes(b: Seq<u8>) -> u64
    recommends
        b.len() == 6,
{
    (b[0] as int + b[1] as int * 0x100 + b[2] as int * 0x1_0000 + b[3] as int * 0x100_0000
        + b[4] as int * 0x1_0000_0000 + b[5] as int * 0x100_0000_0000) as u64
}

/// The error that parsing an ATA payload gives, if any. `payload` is what
/// follows the common header.
pub open spec fn ata_payload_failure(payload: Seq<u8>) -> Option<ParseError> {
    if payload.len() < 12 {
        Some(ParseError::TooShort { expected: 36, actual: (24 + payload.len()) as usize })
    } else {
        None
    }
}

/// The error that parsing a Config payload gives, if any.
pub open spec fn config_payload_failure(payload: Seq<u8>) -> Option<ParseError> {
    if payload.len() < 8 {
        Some(ParseError::TooShort { expected: 32, actual: (24 + payload.len()) as usize })
    } else if payload.len() < 8 + be16(payload[6], payload[7]) {
        Some(ParseError::InvalidConfigHeader)
    } else {
        None
    }
}

/// The error that parsing a frame gives, if any. The checks come in this
/// order: length, EtherType, version, command class, payload.
pub open spec fn frame_failure(data: Seq<u8>) -> Option<ParseError> {
    if data.len() < 24 {
        Some(ParseError::TooShort { expected: 24, actual: data.len() as usize })
    } else if be16(data[12], data[13]) != 0x88A2 {
        Some(ParseError::InvalidEtherType { actual: be16(data[12], data[13]) })
    } else if data[14] % 16 != 1 {
        Some(ParseError::UnsupportedVersion(data[14] % 16))
    } else {
        match AoeCommand::of_code(data[19]) {
            None => Some(ParseError::UnknownCommand(data[19])),
            Some(AoeCommand::Ata) => ata_payload_failure(data.subrange(24, data.len() as int)),
            Some(AoeCommand::Config) => config_payload_failure(
                data.subrange(24, data.len() as int),
            ),
        }
    }
}

/// `h` holds the fields that the first 24 bytes of `data` encode.
pub open spec fn header_matches(h: AoeHeader, data: Seq<u8>) -> bool
    recommends
        data.len() >= 24,
{
    &&& h.dst_mac@ == data.subrange(0, 6)
    &&& h.src_mac@ == data.subrange(6, 12)
    &&& h.version == data[14] % 16
    &&& h.flags.response == ((data[14] / 16) & 0x08 != 0)
    &&& h.flags.error == ((data[14] / 16) & 0x04 != 0)
    &&& h.error == data[15]
    &&& h.shelf == be16(data[16], data[17])
    &&& h.slot == data[18]
    &&& AoeCommand::of_code(data[19]) == Some(h.command)
    &&& h.tag == be32(data[20], data[21], data[22], data[23])
}

/// `p` holds the ATA header and data that `payload` encodes.
pub open spec fn ata_payload_matches(p: AoePayload, payload: Seq<u8>) -> bool
    recommends
        payload.len() >= 12,
{
    match p {
        AoePayload::Ata { header, data } => {
            &&& header.flags == AtaFlags::of_byte(payload[0])
            &&& header.err_feature == payload[1]
            &&& header.sector_count == payload[2]
            &&& header.cmd_status == payload[3]
            &&& header.lba == lba_of_bytes(payload.subrange(4, 10))
            &&& data@ == payload.subrange(12, payload.len() as int)
        },
        AoePayload::Config(_) => false,
    }
}

/// `p` holds the config header and string that `payload` encodes.
pub open spec fn config_payload_matches(p: AoePayload, payload: Seq<u8>) -> bool
    recommends
        payload.len() >= 8,
{
    match p {
        AoePayload::Config(c) => {
            &&& c.buffer_count == be16(payload[0], payload[1])
            &&& c.firmware_version == be16(payload[2], payload[3])
            &&& c.sector_count == payload[4]
            &&& c.aoe_ccmd == payload[5]
            &&& c.config_len == be16(payload[6], payload[7])
            &&& c.config_string@ == payload.subrange(8, 8 + c.config_len)
        },
        AoePayload::Ata { .. } => false,
    }
}

/// `f` is the frame that `data` encodes.
pub open spec fn frame_matches(f: AoeFrame, data: Seq<u8>) -> bool
    recommends
        frame_failure(data) is None,
{
    &&& header_matches(f.header, data)
    &&& match f.header.command {
        AoeCommand::Ata => ata_payload_matches(f.payload, data.subrange(24, data.len() as int)),
        AoeCommand::Config => config_payload_matches(
            f.payload,
            data.subrange(24, data.len() as int),
        ),
    }
}

/// Copies the six bytes of a MAC address that start at `at`.
fn mac_at(data: &[u8], at: usize) -> (mac: [u8; 6])
    requires
        at + 6 <= data@.len(),
    ensures
        mac@ == data@.subrange(at as int, at + 6),
{
    let mac: [u8; 6] = [
        data[at],
        data[at + 1],
        data[at + 2],
        data[at + 3],
        data[at + 4],
        data[at + 5],
    ];
    assert(mac@ =~= data@.subrange(at as int, at + 6));
    mac
}

/// Parses a raw Ethernet frame into an AoE frame.
///
/// The result is an error exactly when `frame_failure` names one, and then it
/// is that error; otherwise it is the frame whose fields `frame_matches`
/// fixes.
pub fn parse_frame(data: &[u8]) -> (r: Result<AoeFrame, ParseError>)
    ensures
        match r {
            Ok(f) => frame_failure(data@) is None && frame_matches(f, data@),
            Err(e) => frame_failure(data@) == Some(e),
        },
{
    if data.len() < AoeHeader::SIZE {
        return Err(ParseError::TooShort { expected: AoeHeader::SIZE, actual: data.len() });
    }
    let dst_mac = mac_at(data, 0);
    let src_mac = mac_at(data, 6);
    let ethertype = read_be16(data[12], data[13]);
    if ethertype != 0x88A2 {
        return Err(ParseError::InvalidEtherType { actual: ethertype });
    }
    let ver_flags: u8 = data[14];
    assert(ver_flags & 0x0F == ver_flags % 16 && ver_flags >> 4 == ver_flags / 16)
        by (bit_vector);
    let version: u8 = ver_flags & 0x0F;
    let flags = AoeFlags::from_byte(ver_flags >> 4);
    if version != 1 {
        return Err(ParseError::UnsupportedVersion(version));
    }
    let error = data[15];
    let shelf = read_be16(data[16], data[17]);
    let slot = data[18];
    let command_byte = data[19];
    let tag = read_be32(data[20], data[21], data[22], data[23]);
    let command = match AoeCommand::try_from(command_byte) {
        Ok(c) => c,
        Err(_) => {
            return Err(ParseError::UnknownCommand(command_byte));
        },
    };
    let header = AoeHeader { dst_mac, src_mac, version, flags, error, shelf, slot, command, tag };
    let rest = slice_subrange(data, AoeHeader::SIZE, data.len());
    let payload = match command {
        AoeCommand::Ata => parse_ata_payload(rest)?,
        AoeCommand::Config => parse_config_payload(rest)?,
    };
    Ok(AoeFrame { header, payload })
}

/// Parses what follows the common header of an ATA frame.
fn parse_ata_payload(data: &[u8]) -> (r: Result<AoePayload, ParseError>)
    requires
        data@.len() + 24 <= usize::MAX,
    ensures
        match r {
            Ok(p) => ata_payload_failure(data@) is None && ata_payload_matches(p, data@),
            Err(e) => ata_payload_failure(data@) == Some(e),
        },
{
    if data.len() < AtaHeader::SIZE {
        return Err(
            ParseError::TooShort {
                expected: AoeHeader::SIZE + AtaHeader::SIZE,
                actual: AoeHeader::SIZE + data.len(),
            },
        );
    }
    let flags = AtaFlags::from_byte(data[0]);
    let err_feature = data[1];
    let sector_count = data[2];
    let cmd_status = data[3];
    let lba: u64 = (data[4] as u64) + (data[5] as u64) * 0x100 + (data[6] as u64) * 0x1_0000 + (
    data[7] as u64) * 0x100_0000 + (data[8] as u64) * 0x1_0000_0000 + (data[9] as u64)
        * 0x100_0000_0000;
    let header = AtaHeader { flags, err_feature, sector_count, cmd_status, lba };
    let payload_data = slice_to_vec(slice_subrange(data, AtaHeader::SIZE, data.len()));
    Ok(AoePayload::Ata { header, data: payload_data })
}

/// Parses what follows the common header of a Config frame.
fn parse_config_payload(data: &[u8]) -> (r: Result<AoePayload, ParseError>)
    requires
        data@.len() + 24 <= usize::MAX,
    ensures
        match r {
            Ok(p) => config_payload_failure(data@) is None && config_payload_matches(p, data@),
            Err(e) => config_payload_failure(data@) == Some(e),
        },
{
    if data.len() < ConfigHeader::MIN_SIZE {
        return Err(
            ParseError::TooShort {
                expected: AoeHeader::SIZE + ConfigHeader::MIN_SIZE,
                actual: AoeHeader::SIZE + data.len(),
            },
        );
    }
    let buffer_count = read_be16(data[0], data[1]);
    let firmware_version = read_be16(data[2], data[3]);
    let sector_count = data[4];
    let aoe_ccmd = data[5];
    let config_len = read_be16(data[6], data[7]);
    let config_string = if config_len > 0 {
        let start: usize = ConfigHeader::MIN_SIZE;
        let end: usize = start + config_len as usize;
        if data.len() < end {
            return Err(ParseError::InvalidConfigHeader);
        }
        slice_to_vec(slice_subrange(data, start, end))
    } else {
        let empty: Vec<u8> = Vec::new();
        assert(empty@ =~= data@.subrange(8, 8));
        empty
    };
    Ok(
        AoePayload::Config(
            ConfigHeader {
                buffer_count,
                firmware_version,
                sector_count,
                aoe_ccmd,
                config_len,
                config_string,
            },
        ),
    )
}

} // verus!
