//! Content hashes and the blob store contract.

pub mod file;
pub mod memory;

pub use file::FileBlobStore;
pub use memory::MemoryBlobStore;

use crate::hextext::{hex_decode, hex_encode, hex_text, hex_value, is_hex_text};
use vstd::prelude::*;
use vstd::std_specs::cmp::PartialEqSpecImpl;

verus! {


/// The BLAKE3 digest of a byte string, 32 bytes.
pub uninterp spec fn blake3_digest(data: Seq<u8>) -> Seq<u8>;

/// A 32-byte content hash. The all-zero value marks a block that is not
/// stored.
#[derive(Clone, Copy, Debug, Hash, Eq)]
pub struct Hash(pub [u8; 32]);

impl View for Hash {
    type V = Seq<u8>;

    open spec fn view(&self) -> Seq<u8> {
        self.0@
    }
}

impl PartialEq for Hash {
    fn eq(&self, other: &Hash) -> (equal: bool) {
        let mut i: usize = 0;
        while i < 32
            invariant
                i <= 32,
                forall|j: int| 0 <= j < i ==> self.0@[j] == other.0@[j],
            decreases 32 - i,
        {
            if self.0[i] != other.0[i] {
                return false;
            }
            i += 1;
        }
        assert(self.0@ =~= other.0@);
        true
    }
}

impl PartialEqSpecImpl for Hash {
    open spec fn obeys_eq_spec() -> bool {
        true
    }

    open spec fn eq_spec(&self, other: &Hash) -> bool {
        self@ == other@
    }
}

/// The view of the zero hash: 32 zero bytes.
pub open spec fn zero_hash() -> Seq<u8> {
    Seq::new(32, |i: int| 0u8)
}

/// Why text is not the hexadecimal form of a hash.
#[derive(Debug, Clone, Copy, PartialEq, Eq, Structural)]
pub enum HashTextError {
    /// The text is not an even number of hexadecimal digits.
    InvalidHex,
    /// The text stands for a number of bytes other than 32.
    InvalidStringLength,
}

/// Calls `blake3::hash` and converts the digest to its 32 bytes. The
/// contract names the digest of the input and states nothing else of it.
#[verifier::external_body]
fn blake3_of(data: &[u8]) -> (out: [u8; 32])
    ensures
        out@ == blake3_digest(data@),
{
    blake3::hash(data).into()
}

impl Hash {
    /// Wraps 32 raw bytes.
    pub fn from_bytes(bytes: [u8; 32]) -> (h: Hash)
        ensures
            h@ == bytes@,
    {
        Hash(bytes)
    }

    /// The zero hash.
    pub fn zero() -> (h: Hash)
        ensures
            h@ == zero_hash(),
    {
        let h = Hash([0u8; 32]);
        assert(h@ =~= zero_hash());
        h
    }

    /// Hashes `data` with BLAKE3.
    pub fn from_data(data: &[u8]) -> (h: Hash)
        ensures
            h@ == blake3_digest(data@),
    {
        Hash(blake3_of(data))
    }

    /// The hash as 64 lowercase hexadecimal digits.
    pub fn to_hex(&self) -> (text: String)
        ensures
            text@ == hex_text(self@),
            text@.len() == 64,
    {
        hex_encode(self.0.as_slice())
    }

    /// Reads a hash from hexadecimal text of either case. The text must be
    /// hexadecimal and stand for exactly 32 bytes.
    pub fn from_hex(s: &str) -> (r: Result<Hash, HashTextError>)
        ensures
            match r {
                Ok(h) => is_hex_text(s@) && s@.len() == 64 && h@ == hex_value(s@),
                Err(HashTextError::InvalidHex) => !is_hex_text(s@),
                Err(HashTextError::InvalidStringLength) => is_hex_text(s@) && s@.len() != 64,
            },
    {
        let bytes = match hex_decode(s) {
            Ok(bytes) => bytes,
            Err(_) => {
                return Err(HashTextError::InvalidHex);
            },
        };
        if bytes.len() != 32 {
            return Err(HashTextError::InvalidStringLength);
        }
        let mut arr = [0u8; 32];
        let mut i: usize = 0;
        while i < 32
            invariant
                i <= 32,
                bytes@.len() == 32,
                forall|j: int| 0 <= j < i ==> arr@[j] == bytes@[j],
            decreases 32 - i,
        {
            arr[i] = bytes[i];
            i += 1;
        }
        assert(arr@ =~= bytes@);
        Ok(Hash(arr))
    }

    /// True exactly for the zero hash.
    pub fn is_zero(&self) -> (z: bool)
        ensures
            z == (self@ == zero_hash()),
    {
        let mut i: usize = 0;
        while i < 32
            invariant
                i <= 32,
                forall|j: int| 0 <= j < i ==> self.0@[j] == 0u8,
            decreases 32 - i,
        {
            if self.0[i] != 0 {
                assert(self@[i as int] != zero_hash()[i as int]);
                return false;
            }
            i += 1;
        }
        assert(self@ =~= zero_hash());
        true
    }

    /// The raw bytes.
    pub fn as_bytes(&self) -> (b: &[u8; 32])
        ensures
            b@ == self@,
    {
        &self.0
    }
}

/// Reading the hexadecimal form of a hash gives the hash back.
pub proof fn lemma_hash_hex_round_trip(h: Hash)
    ensures
        is_hex_text(hex_text(h@)),
        hex_text(h@).len() == 64,
        hex_value(hex_text(h@)) == h@,
{
    crate::hextext::lemma_hex_round_trip(h@);
}



/// Why a blob store operation failed.
#[derive(Debug)]
pub enum BlobError {
    /// No blob is stored under the hash.
    NotFound(String),
    /// The data does not hash to its key.
    Corrupted(String),
    /// The operating system reported an I/O error.
    Io(String),
    /// The backend failed; the string says why.
    Backend(String),
    /// Too few replicas took the write.
    QuorumNotMet,
}

/// Every blob hashes to the key it is stored under.
pub open spec fn hashed(blobs: Map<Seq<u8>, Seq<u8>>) -> bool {
    forall|h: Seq<u8>| #[trigger] blobs.contains_key(h) ==> blake3_digest(blobs[h]) == h
}

/// The blobs after `data` is put under `h`: a blob that is already there
/// stays, otherwise `data` is added.
pub open spec fn with_blob(blobs: Map<Seq<u8>, Seq<u8>>, h: Seq<u8>, data: Seq<u8>) -> Map<
    Seq<u8>,
    Seq<u8>,
> {
    if blobs.contains_key(h) {
        blobs
    } else {
        blobs.insert(h, data)
    }
}

/// A store of immutable blobs, each kept under the hash of its bytes.
pub trait BlobStore {
    /// What has to hold of the store between calls. A store that needs no
    /// more than the contracts of its operations keeps the default.
    open spec fn inv(&self) -> bool {
        true
    }

    /// The blobs that the store holds, by the bytes of their key.
    open spec fn blobs(&self) -> Map<Seq<u8>, Seq<u8>> {
        arbitrary()
    }

    /// Stores `data` under `hash`. Data that does not hash to `hash` is
    /// refused as corrupted. A blob that is already present stays as it is.
    /// A failed call changes nothing.
    fn put(&mut self, hash: &Hash, data: &[u8]) -> (r: Result<(), BlobError>)
        requires
            old(self).inv(),
        ensures
            final(self).inv(),
            blake3_digest(data@) != hash@ ==> r is Err && r->Err_0 is Corrupted,
            r is Ok ==> final(self).blobs() == with_blob(old(self).blobs(), hash@, data@),
            r is Err ==> final(self).blobs() == old(self).blobs(),
    ;

    /// Returns the blob stored under `hash`. An absent blob is an error, and
    /// `NotFound` is returned only for an absent blob.
    fn get(&self, hash: &Hash) -> (r: Result<Vec<u8>, BlobError>)
        requires
            self.inv(),
        ensures
            r matches Ok(d) ==> self.blobs().contains_key(hash@) && d@ == self.blobs()[hash@]
                && blake3_digest(d@) == hash@,
            r is Err && r->Err_0 is NotFound ==> !self.blobs().contains_key(hash@),
            !self.blobs().contains_key(hash@) ==> r is Err,
    ;

    /// Tells whether a blob is stored under `hash`.
    fn contains(&self, hash: &Hash) -> (r: Result<bool, BlobError>)
        requires
            self.inv(),
        ensures
            r matches Ok(b) ==> b == self.blobs().contains_key(hash@),
    ;

    /// Removes the blob under `hash`. Deleting a blob that is absent
    /// succeeds and changes nothing. After a successful call the blob is
    /// gone, or, in a store that keeps what it holds, everything is as
    /// before; a failed call changes nothing. The store that does not
    /// override this keeps what it holds and always succeeds.
    fn delete(&mut self, hash: &Hash) -> (r: Result<(), BlobError>)
        requires
            old(self).inv(),
        ensures
            final(self).inv(),
            !old(self).blobs().contains_key(hash@) ==> r is Ok && final(self).blobs() == old(self).blobs(),
            r is Ok ==> final(self).blobs() == old(self).blobs() || final(self).blobs() == old(self).blobs().remove(hash@),
            r is Err ==> final(self).blobs() == old(self).blobs(),
    {
        Ok(())
    }

    /// Makes earlier writes durable.
    fn sync(&self) -> (r: Result<(), BlobError>)
        requires
            self.inv(),
    ;
}

} // verus!
