//! What parsing gives for the frames that the builder emits.

use super::ata::AtaResponse;
use super::builder::{
    ata_response_bytes, ata_trailer, config_response_bytes, error_response_bytes, request_ata_flags,
    request_lba, response_head, ConfigResponse,
};
use super::parse::{frame_failure, frame_matches};
use super::types::{lemma_ata_flag_byte, AoeCommand, AoeFrame, AoePayload};
use crate::bytes::{be16, be16_bytes, be32};
use vstd::prelude::*;

verus! {

/// The 24 bytes of a response head parse without error up to the payload and
/// give back what the head was built from.
proof fn lemma_head_fields(request: AoeFrame, error: bool, code: u8, command: u8, rest: Seq<u8>)
    ensures
        ({
            let bytes = response_head(request, error, code, command) + rest;
            &&& response_head(request, error, code, command).len() == 24
            &&& bytes.len() == 24 + rest.len()
            &&& bytes.subrange(0, 6) == request.header.src_mac@
            &&& bytes.subrange(6, 12) == request.header.dst_mac@
            &&& be16(bytes[12], bytes[13]) == 0x88A2
            &&& bytes[14] % 16 == 1
            &&& ((bytes[14] / 16) & 0x08 != 0)
            &&& ((bytes[14] / 16) & 0x04 != 0) == error
            &&& bytes[15] == code
            &&& be16(bytes[16], bytes[17]) == request.header.shelf
            &&& bytes[18] == request.header.slot
            &&& bytes[19] == command
            &&& be32(bytes[20], bytes[21], bytes[22], bytes[23])
                == request.header.tag
            &&& bytes.subrange(24, bytes.len() as int) == rest
        }),
{
    let head = response_head(request, error, code, command);
    let bytes = head + rest;
    assert(request.header.src_mac@.len() == 6);
    assert(request.header.dst_mac@.len() == 6);
    assert(head.len() == 24);
    assert(bytes.subrange(0, 6) =~= request.header.src_mac@);
    assert(bytes.subrange(6, 12) =~= request.header.dst_mac@);
    assert(bytes.subrange(24, bytes.len() as int) =~= rest);
    assert(bytes[12] == 0x88 && bytes[13] == 0xA2);
    assert((8u8 & 0x08 != 0) && (8u8 & 0x04 == 0) && (12u8 & 0x08 != 0) && (12u8 & 0x04 != 0))
        by (bit_vector);
    assert(bytes[14] == if error { 0xC1u8 } else { 0x81u8 });
    let t = request.header.tag;
    assert(bytes[20] == (t / 0x100_0000) as u8);
    assert(bytes[23] == (t % 0x100) as u8);
}

/// Six bytes taken from an address, least significant first, add up to its
/// low 48 bits.
proof fn lemma_lba_bytes_value(l: u64)
    by (bit_vector)
    ensures
        (l % 0x100) + ((l / 0x100) % 0x100) * 0x100 + ((l / 0x1_0000) % 0x100) * 0x1_0000 + ((l
            / 0x100_0000) % 0x100) * 0x100_0000 + ((l / 0x1_0000_0000) % 0x100) * 0x1_0000_0000 + ((
        l / 0x100_0000_0000) % 0x100) * 0x100_0000_0000 == l % 0x1_0000_0000_0000,
{
}

/// The twelve bytes of an ATA header in a response give back the request's
/// flags, the registers and the low 48 bits of the request's address.
proof fn lemma_trailer_fields(
    request: AoeFrame,
    error: u8,
    sector_count: u8,
    status: u8,
    data: Seq<u8>,
    p: AoePayload,
)
    requires
        super::parse::ata_payload_matches(
            p,
            ata_trailer(request, error, sector_count, status) + data,
        ),
    ensures
        (ata_trailer(request, error, sector_count, status) + data).len() == 12 + data.len(),
        p matches AoePayload::Ata { header, data: d } && header.flags == request_ata_flags(request)
            && header.err_feature == error && header.sector_count == sector_count
            && header.cmd_status == status && header.lba == request_lba(request)
            % 0x1_0000_0000_0000 && d@ == data,
{
    let trailer = ata_trailer(request, error, sector_count, status);
    let bytes = trailer + data;
    let f = request_ata_flags(request);
    lemma_ata_flag_byte(
        if f.extended { 0x40 } else { 0 },
        if f.device { 0x20 } else { 0 },
        if f.async_write { 0x02 } else { 0 },
        if f.write { 0x01 } else { 0 },
    );
    assert(trailer.len() == 12);
    assert(bytes[0] == f.wire_byte());
    assert(super::types::AtaFlags::of_byte(f.wire_byte()) == f);
    assert(bytes.subrange(12, bytes.len() as int) =~= data);
    let l = request_lba(request);
    let b = bytes.subrange(4, 10);
    lemma_lba_bytes_value(l);
    assert(b[0] == (l % 0x100) as u8);
    assert(b[1] == ((l / 0x100) % 0x100) as u8);
    assert(b[2] == ((l / 0x1_0000) % 0x100) as u8);
    assert(b[3] == ((l / 0x100_0000) % 0x100) as u8);
    assert(b[4] == ((l / 0x1_0000_0000) % 0x100) as u8);
    assert(b[5] == ((l / 0x100_0000_0000) % 0x100) as u8);
}

/// Parsing an ATA response frame succeeds and gives back the request's
/// addresses swapped, its tag, shelf and slot, the ATA class, R set and E
/// clear, the request's ATA flags and 48-bit address, and the response's
/// registers, sector count and data.
pub proof fn lemma_ata_response_round_trip(
    request: AoeFrame,
    response: AtaResponse,
    parsed: AoeFrame,
)
    requires
        frame_matches(parsed, ata_response_bytes(request, response)),
    ensures
        frame_failure(ata_response_bytes(request, response)) is None,
        parsed.header.dst_mac@ == request.header.src_mac@,
        parsed.header.src_mac@ == request.header.dst_mac@,
        parsed.header.version == 1,
        parsed.header.flags.response,
        !parsed.header.flags.error,
        parsed.header.error == 0,
        parsed.header.shelf == request.header.shelf,
        parsed.header.slot == request.header.slot,
        parsed.header.command == AoeCommand::Ata,
        parsed.header.tag == request.header.tag,
        parsed.payload matches AoePayload::Ata { header, data } && header.flags
            == request_ata_flags(request) && header.err_feature == response.error
            && header.sector_count == response.sector_count && header.cmd_status
            == response.status && header.lba == request_lba(request) % 0x1_0000_0000_0000
            && data@ == (match response.data {
            Some(d) => d@,
            None => Seq::<u8>::empty(),
        }),
{
    let data = match response.data {
        Some(d) => d@,
        None => Seq::<u8>::empty(),
    };
    let rest = ata_trailer(request, response.error, response.sector_count, response.status) + data;
    let bytes = ata_response_bytes(request, response);
    assert(bytes =~= response_head(request, false, 0, 0) + rest);
    lemma_head_fields(request, false, 0, 0, rest);
    lemma_trailer_fields(
        request,
        response.error,
        response.sector_count,
        response.status,
        data,
        parsed.payload,
    );
}

/// Parsing the error response to a request of the ATA class succeeds and
/// gives back the request's addresses swapped, its tag, shelf and slot, the
/// ATA class, R and E set and the error code, the request's ATA flags and
/// 48-bit address, error `ABRT` and status `ERR|DRDY`.
pub proof fn lemma_error_response_round_trip(request: AoeFrame, code: u8, parsed: AoeFrame)
    requires
        request.header.command == AoeCommand::Ata,
        frame_matches(parsed, error_response_bytes(request, code)),
    ensures
        frame_failure(error_response_bytes(request, code)) is None,
        parsed.header.dst_mac@ == request.header.src_mac@,
        parsed.header.src_mac@ == request.header.dst_mac@,
        parsed.header.version == 1,
        parsed.header.flags.response,
        parsed.header.flags.error,
        parsed.header.error == code,
        parsed.header.shelf == request.header.shelf,
        parsed.header.slot == request.header.slot,
        parsed.header.command == AoeCommand::Ata,
        parsed.header.tag == request.header.tag,
        parsed.payload matches AoePayload::Ata { header, data } && header.flags
            == request_ata_flags(request) && header.err_feature == 0x04 && header.sector_count == 0
            && header.cmd_status == 0x41 && header.lba == request_lba(request)
            % 0x1_0000_0000_0000 && data@.len() == 0,
{
    let rest = ata_trailer(request, 0x04, 0, 0x41);
    lemma_head_fields(request, true, code, 0, rest);
    assert(rest =~= ata_trailer(request, 0x04, 0, 0x41) + Seq::<u8>::empty());
    lemma_trailer_fields(request, 0x04, 0, 0x41, Seq::<u8>::empty(), parsed.payload);
}

/// The error response to a request of the Config class is the 24 bytes of
/// the common part alone. It holds the error code, the request's tag,
/// shelf and slot and the Config class, but as a frame it is too short for
/// a Config header, and parsing it says so.
pub proof fn lemma_config_error_response(request: AoeFrame, code: u8)
    requires
        request.header.command == AoeCommand::Config,
    ensures
        error_response_bytes(request, code).len() == 24,
        error_response_bytes(request, code)[15] == code,
        be16(error_response_bytes(request, code)[16], error_response_bytes(request, code)[17])
            == request.header.shelf,
        error_response_bytes(request, code)[18] == request.header.slot,
        error_response_bytes(request, code)[19] == 1,
        be32(
            error_response_bytes(request, code)[20],
            error_response_bytes(request, code)[21],
            error_response_bytes(request, code)[22],
            error_response_bytes(request, code)[23],
        ) == request.header.tag,
        frame_failure(error_response_bytes(request, code)) == Some(
            super::parse::ParseError::TooShort { expected: 32, actual: 24 },
        ),
{
    let none = Seq::<u8>::empty();
    lemma_head_fields(request, true, code, 1, none);
    let bytes = error_response_bytes(request, code);
    assert(bytes =~= response_head(request, true, code, 1) + none);
    assert(bytes.subrange(24, bytes.len() as int) =~= none);
}

/// Parsing a Config response frame whose config string is shorter than
/// 65536 bytes succeeds and gives back the request's tag, shelf and slot,
/// the Config class, R set and E clear, and the response's fields.
pub proof fn lemma_config_response_round_trip(
    request: AoeFrame,
    response: ConfigResponse,
    parsed: AoeFrame,
)
    requires
        response.config_string@.len() < 0x1_0000,
        frame_matches(parsed, config_response_bytes(request, response)),
    ensures
        frame_failure(config_response_bytes(request, response)) is None,
        parsed.header.dst_mac@ == request.header.src_mac@,
        parsed.header.src_mac@ == request.header.dst_mac@,
        parsed.header.flags.response,
        !parsed.header.flags.error,
        parsed.header.shelf == request.header.shelf,
        parsed.header.slot == request.header.slot,
        parsed.header.command == AoeCommand::Config,
        parsed.header.tag == request.header.tag,
        parsed.payload matches AoePayload::Config(c) && c.buffer_count == response.buffer_count
            && c.firmware_version == response.firmware_version && c.sector_count
            == response.sector_count && c.aoe_ccmd == 0x10 && c.config_len
            == response.config_string@.len() && c.config_string@ == response.config_string@,
{
    let s = response.config_string@;
    let fixed = be16_bytes(response.buffer_count) + be16_bytes(
        response.firmware_version,
    ) + seq![response.sector_count, 0x10u8] + be16_bytes(
        (s.len() % 0x1_0000) as u16,
    );
    let rest = fixed + s;
    let bytes = config_response_bytes(request, response);
    assert(bytes =~= response_head(request, false, 0, 1) + rest);
    lemma_head_fields(request, false, 0, 1, rest);
    assert(fixed.len() == 8);
    assert(rest[0] == (response.buffer_count / 0x100) as u8);
    assert(rest[1] == (response.buffer_count % 0x100) as u8);
    assert(rest[2] == (response.firmware_version / 0x100) as u8);
    assert(rest[3] == (response.firmware_version % 0x100) as u8);
    assert(rest[4] == response.sector_count);
    assert(rest[5] == 0x10);
    assert(rest[6] == (s.len() / 0x100) as u8);
    assert(rest[7] == (s.len() % 0x100) as u8);
    assert(be16(rest[6], rest[7]) == s.len());
    assert(rest.subrange(8, 8 + s.len() as int) =~= s);
}

} // verus!
