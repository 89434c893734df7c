//! Building of response frames.

use super::ata::AtaResponse;
use super::types::{AoeCommand, AoeFlags, AoeFrame, AoePayload, AtaFlags};
use crate::bytes::{append, be16_bytes, be32_bytes, push_be16, push_be32};
use vstd::prelude::*;

verus! {

/// What a response frame carries.
pub enum ResponseData {
    /// Response to an ATA command.
    Ata(AtaResponse),
    /// Response to a Config command.
    Config(ConfigResponse),
    /// Error response with a protocol error code.
    Error { code: u8 },
}

/// The fields of a Config response.
pub struct ConfigResponse {
    pub buffer_count: u16,
    pub firmware_version: u16,
    pub sector_count: u8,
    pub config_string: Vec<u8>,
}

/// The low 48 bits of an address as six bytes, least significant first.
pub open spec fn lba_bytes(lba: u64) -> Seq<u8> {
    seq![
        (lba % 0x100) as u8,
        ((lba / 0x100) % 0x100) as u8,
        ((lba / 0x1_0000) % 0x100) as u8,
        ((lba / 0x100_0000) % 0x100) as u8,
        ((lba / 0x1_0000_0000) % 0x100) as u8,
        ((lba / 0x100_0000_0000) % 0x100) as u8,
    ]
}

/// The ATA flags of a request; a request without ATA payload has none set.
pub open spec fn request_ata_flags(request: AoeFrame) -> AtaFlags {
    match request.payload {
        AoePayload::Ata { header, .. } => header.flags,
        AoePayload::Config(_) => AtaFlags {
            extended: false,
            device: false,
            async_write: false,
            write: false,
        },
    }
}

/// The address of a request; a request without ATA payload has address 0.
pub open spec fn request_lba(request: AoeFrame) -> u64 {
    match request.payload {
        AoePayload::Ata { header, .. } => header.lba,
        AoePayload::Config(_) => 0,
    }
}

/// The first 24 bytes of every response: the request's MAC addresses
/// swapped, the EtherType, the flag byte with R set and E as given, the
/// error code, the request's shelf and slot, the command code and the
/// request's tag.
pub open spec fn response_head(request: AoeFrame, error: bool, code: u8, command: u8) -> Seq<
    u8,
> {
    request.header.src_mac@ + request.header.dst_mac@ + seq![0x88u8, 0xA2u8] + seq![
        (AoeFlags { response: true, error }).wire_byte(1),
        code,
    ] + be16_bytes(request.header.shelf) + seq![request.header.slot, command] + be32_bytes(
        request.header.tag,
    )
}

/// The twelve bytes of an ATA header in a response: the request's flags,
/// the three registers, the request's address and two reserved zero bytes.
pub open spec fn ata_trailer(request: AoeFrame, error: u8, sector_count: u8, status: u8) -> Seq<
    u8,
> {
    seq![request_ata_flags(request).wire_byte(), error, sector_count, status] + lba_bytes(
        request_lba(request),
    ) + seq![0u8, 0u8]
}

/// The bytes of an ATA response frame.
pub open spec fn ata_response_bytes(request: AoeFrame, response: AtaResponse) -> Seq<u8> {
    response_head(request, false, 0, 0) + ata_trailer(
        request,
        response.error,
        response.sector_count,
        response.status,
    ) + match response.data {
        Some(d) => d@,
        None => Seq::<u8>::empty(),
    }
}

/// The bytes of a Config response frame. The length field holds the length
/// of the config string modulo 65536.
pub open spec fn config_response_bytes(request: AoeFrame, response: ConfigResponse) -> Seq<u8> {
    response_head(request, false, 0, 1) + be16_bytes(response.buffer_count) + be16_bytes(
        response.firmware_version,
    ) + seq![response.sector_count, 0x10u8] + be16_bytes(
        (response.config_string@.len() % 0x1_0000) as u16,
    ) + response.config_string@
}

/// The bytes of an error response frame. A request of the ATA class gets an
/// ATA header with error `ABRT` and status `ERR|DRDY`.
pub open spec fn error_response_bytes(request: AoeFrame, code: u8) -> Seq<u8> {
    response_head(request, true, code, request.header.command.code()) + (
    if request.header.command == AoeCommand::Ata {
        ata_trailer(request, 0x04, 0, 0x41)
    } else {
        Seq::<u8>::empty()
    })
}

/// The bytes of the response frame for any kind of response.
pub open spec fn response_bytes(request: AoeFrame, response: ResponseData) -> Seq<u8> {
    match response {
        ResponseData::Ata(a) => ata_response_bytes(request, a),
        ResponseData::Config(c) => config_response_bytes(request, c),
        ResponseData::Error { code } => error_response_bytes(request, code),
    }
}

/// Appends the low 48 bits of an address, least significant byte first.
fn push_lba(frame: &mut Vec<u8>, lba: u64)
    ensures
        final(frame)@ == old(frame)@ + lba_bytes(lba),
{
    frame.push((lba % 0x100) as u8);
    frame.push(((lba / 0x100) % 0x100) as u8);
    frame.push(((lba / 0x1_0000) % 0x100) as u8);
    frame.push(((lba / 0x100_0000) % 0x100) as u8);
    frame.push(((lba / 0x1_0000_0000) % 0x100) as u8);
    frame.push(((lba / 0x100_0000_0000) % 0x100) as u8);
    assert(frame@ =~= old(frame)@ + lba_bytes(lba));
}

/// Appends the common part of a response.
fn push_head(frame: &mut Vec<u8>, request: &AoeFrame, error: bool, code: u8, command: u8)
    requires
        old(frame)@.len() == 0,
    ensures
        final(frame)@ == response_head(*request, error, code, command),
{
    append(frame, request.header.src_mac.as_slice());
    append(frame, request.header.dst_mac.as_slice());
    frame.push(0x88);
    frame.push(0xA2);
    let flags = AoeFlags { response: true, error };
    frame.push(flags.to_byte(1));
    frame.push(code);
    push_be16(frame, request.header.shelf);
    frame.push(request.header.slot);
    frame.push(command);
    push_be32(frame, request.header.tag);
    assert(frame@ =~= response_head(*request, error, code, command));
}

/// Appends the ATA header of a response.
fn push_ata_trailer(
    frame: &mut Vec<u8>,
    request: &AoeFrame,
    error: u8,
    sector_count: u8,
    status: u8,
)
    ensures
        final(frame)@ == old(frame)@ + ata_trailer(*request, error, sector_count, status),
{
    let (ata_flags, lba) = match &request.payload {
        AoePayload::Ata { header, .. } => (header.flags, header.lba),
        AoePayload::Config(_) => (AtaFlags::default(), 0u64),
    };
    frame.push(ata_flags.to_byte());
    frame.push(error);
    frame.push(sector_count);
    frame.push(status);
    push_lba(frame, lba);
    frame.push(0);
    frame.push(0);
    assert(frame@ =~= old(frame)@ + ata_trailer(*request, error, sector_count, status));
}

/// Builds the response frame for `response` to `request`.
pub fn build_response(request: &AoeFrame, response: ResponseData) -> (frame: Vec<u8>)
    ensures
        frame@ == response_bytes(*request, response),
{
    match response {
        ResponseData::Ata(ata_response) => build_ata_response(request, ata_response),
        ResponseData::Config(config) => build_config_response(request, config),
        ResponseData::Error { code } => build_error_response(request, code),
    }
}

/// Builds an ATA response frame: the common part with R set, the ATA header
/// that echoes the request's flags and address, and the data of a read.
pub fn build_ata_response(request: &AoeFrame, response: AtaResponse) -> (frame: Vec<u8>)
    ensures
        frame@ == ata_response_bytes(*request, response),
{
    let mut frame: Vec<u8> = Vec::new();
    push_head(&mut frame, request, false, 0, AoeCommand::Ata.to_byte());
    push_ata_trailer(&mut frame, request, response.error, response.sector_count, response.status);
    match &response.data {
        Some(data) => {
            append(&mut frame, data.as_slice());
        },
        None => {
            assert(frame@ + Seq::<u8>::empty() =~= frame@);
        },
    }
    frame
}

/// Builds a Config response frame.
pub fn build_config_response(request: &AoeFrame, response: ConfigResponse) -> (frame: Vec<u8>)
    ensures
        frame@ == config_response_bytes(*request, response),
{
    let config_len: usize = response.config_string.len();
    let mut frame: Vec<u8> = Vec::new();
    push_head(&mut frame, request, false, 0, AoeCommand::Config.to_byte());
    push_be16(&mut frame, response.buffer_count);
    push_be16(&mut frame, response.firmware_version);
    frame.push(response.sector_count);
    frame.push(0x10);
    push_be16(&mut frame, (config_len % 0x1_0000) as u16);
    append(&mut frame, response.config_string.as_slice());
    assert(frame@ =~= config_response_bytes(*request, response));
    frame
}

/// Builds an error response frame: R and E set and the error code in place.
pub fn build_error_response(request: &AoeFrame, error_code: u8) -> (frame: Vec<u8>)
    ensures
        frame@ == error_response_bytes(*request, error_code),
{
    let mut frame: Vec<u8> = Vec::new();
    push_head(&mut frame, request, true, error_code, request.header.command.to_byte());
    if request.header.command == AoeCommand::Ata {
        push_ata_trailer(&mut frame, request, 0x04, 0, 0x41);
    } else {
        assert(frame@ + Seq::<u8>::empty() =~= frame@);
    }
    frame
}

} // verus!
