//! Framing of data blocks: one marker byte, then the sector as it is or
//! compressed with LZ4.

use crate::bytes::append;
use vstd::prelude::*;
use vstd::slice::{slice_subrange, slice_to_vec};

verus! {

/// The error of `lz4_flex::decompress_size_prepended`,
/// `lz4_flex::block::DecompressError`. Nothing is read from it.
#[verifier::external_type_specification]
#[verifier::external_body]
pub struct ExDecompressError(lz4_flex::block::DecompressError);

/// Size of a data block before framing.
pub const SECTOR_BYTES: usize = 512;

/// Marker of a block that is stored as it is.
pub const MARKER_RAW: u8 = 0x00;

/// Marker of a block that is stored compressed.
pub const MARKER_LZ4: u8 = 0x01;

/// What `lz4_flex::compress_prepend_size` returns for `data` in this build
/// of the program: the compressor's table depends on the pointer width and
/// the byte order that it was built for.
pub uninterp spec fn lz4_block_encoded(data: Seq<u8>) -> Seq<u8>;

/// What `lz4_flex::decompress_size_prepended` returns for `input`; `None`
/// for an error.
pub uninterp spec fn lz4_block_decoded(input: Seq<u8>) -> Option<Seq<u8>>;

/// The value of four bytes, least significant first.
pub open spec fn le32(b: Seq<u8>) -> int
    recommends
        b.len() >= 4,
{
    b[0] as int + b[1] as int * 0x100 + b[2] as int * 0x1_0000 + b[3] as int * 0x100_0000
}

/// Calls `lz4_flex::compress_prepend_size` on one sector. The result starts
/// with the length of the input as four bytes, least significant first, and
/// `lz4_flex::decompress_size_prepended` gives the input back from it.
#[verifier::external_body]
fn lz4_compress(data: &[u8]) -> (out: Vec<u8>)
    requires
        data@.len() == 512,
    ensures
        out@ == lz4_block_encoded(data@),
        out@.len() >= 4,
        le32(out@) == 512,
        lz4_block_decoded(out@) == Some(data@),
{
    lz4_flex::compress_prepend_size(data)
}

/// Calls `lz4_flex::decompress_size_prepended` on an input that announces
/// one sector and is shorter than one.
#[verifier::external_body]
fn lz4_decompress(input: &[u8]) -> (r: Result<Vec<u8>, lz4_flex::block::DecompressError>)
    requires
        4 <= input@.len() < 512,
        le32(input@) == 512,
    ensures
        match r {
            Ok(d) => lz4_block_decoded(input@) == Some(d@),
            Err(_) => lz4_block_decoded(input@) is None,
        },
{
    lz4_flex::decompress_size_prepended(input)
}

/// Every byte of `data` is zero.
pub open spec fn all_zero(data: Seq<u8>) -> bool {
    forall|i: int| 0 <= i < data.len() ==> data[i] == 0
}

/// A sector of zeros.
pub open spec fn zero_sector() -> Seq<u8> {
    Seq::new(512, |i: int| 0u8)
}

/// The stored form of a sector: marker `0x01` and the compressed sector
/// where compression is on and makes it strictly shorter, otherwise marker
/// `0x00` and the sector itself.
pub open spec fn framed(data: Seq<u8>, compress: bool) -> Seq<u8> {
    if compress && lz4_block_encoded(data).len() < data.len() {
        seq![1u8] + lz4_block_encoded(data)
    } else {
        seq![0u8] + data
    }
}

/// The sector that a stored block holds. A raw block holds the 512 bytes
/// after its marker. A compressed block holds what its payload decompresses
/// to, where the payload is shorter than a sector, announces 512 bytes and
/// gives as many. Everything else holds no sector.
pub open spec fn unframed(stored: Seq<u8>) -> Option<Seq<u8>> {
    if stored.len() == 0 {
        None
    } else if stored[0] == 0 {
        if stored.len() == 513 {
            Some(stored.subrange(1, 513))
        } else {
            None
        }
    } else if stored[0] == 1 {
        let payload = stored.subrange(1, stored.len() as int);
        if 4 <= payload.len() < 512 && le32(payload) == 512 {
            match lz4_block_decoded(payload) {
                Some(d) => if d.len() == 512 {
                    Some(d)
                } else {
                    None
                },
                None => None,
            }
        } else {
            None
        }
    } else {
        None
    }
}

/// The stored form of a sector holds that sector.
pub proof fn lemma_frame_round_trip(data: Seq<u8>, compress: bool)
    requires
        data.len() == 512,
        lz4_block_encoded(data).len() >= 4,
        le32(lz4_block_encoded(data)) == 512,
        lz4_block_decoded(lz4_block_encoded(data)) == Some(data),
    ensures
        unframed(framed(data, compress)) == Some(data),
{
    let stored = framed(data, compress);
    if compress && lz4_block_encoded(data).len() < data.len() {
        assert(stored.subrange(1, stored.len() as int) =~= lz4_block_encoded(data));
    } else {
        assert(stored.subrange(1, 513) =~= data);
    }
}

/// True when every byte of `data` is zero.
pub fn is_all_zero(data: &[u8]) -> (z: bool)
    ensures
        z == all_zero(data@),
{
    let mut i: usize = 0;
    while i < data.len()
        invariant
            i <= data@.len(),
            forall|k: int| 0 <= k < i ==> data@[k] == 0,
        decreases data@.len() - i,
    {
        if data[i] != 0 {
            return false;
        }
        i += 1;
    }
    true
}

/// Frames one sector for storage. With compression on, the compressed form
/// is taken only where it is strictly shorter than the sector.
pub fn frame_block(data: &[u8], compress: bool) -> (stored: Vec<u8>)
    requires
        data@.len() == 512,
    ensures
        stored@ == framed(data@, compress),
        unframed(stored@) == Some(data@),
{
    let mut stored: Vec<u8> = Vec::new();
    if compress {
        let packed = lz4_compress(data);
        proof {
            lemma_frame_round_trip(data@, compress);
        }
        if packed.len() < data.len() {
            stored.push(MARKER_LZ4);
            append(&mut stored, packed.as_slice());
            return stored;
        }
        stored.push(MARKER_RAW);
        append(&mut stored, data);
        return stored;
    }
    stored.push(MARKER_RAW);
    append(&mut stored, data);
    proof {
        assert(stored@ =~= framed(data@, compress));
        assert(stored@.subrange(1, 513) =~= data@);
    }
    stored
}

/// Takes the sector out of a stored block, or `None` where the block holds
/// none.
pub fn unframe_block(stored: &[u8]) -> (r: Option<Vec<u8>>)
    ensures
        match r {
            Some(d) => unframed(stored@) == Some(d@) && d@.len() == 512,
            None => unframed(stored@) is None,
        },
{
    if stored.len() == 0 {
        return None;
    }
    let marker = stored[0];
    if marker == MARKER_RAW {
        if stored.len() != SECTOR_BYTES + 1 {
            return None;
        }
        return Some(slice_to_vec(slice_subrange(stored, 1, stored.len())));
    }
    if marker != MARKER_LZ4 {
        return None;
    }
    let payload = slice_subrange(stored, 1, stored.len());
    if payload.len() < 4 || payload.len() >= SECTOR_BYTES {
        return None;
    }
    let announced: u32 = (payload[0] as u32) + (payload[1] as u32) * 0x100 + (payload[2] as u32)
        * 0x1_0000 + (payload[3] as u32) * 0x100_0000;
    if announced != 512 {
        return None;
    }
    match lz4_decompress(payload) {
        Ok(d) => if d.len() == SECTOR_BYTES {
            Some(d)
        } else {
            None
        },
        Err(_) => None,
    }
}

} // verus!
