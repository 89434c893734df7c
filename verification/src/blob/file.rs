//! Where the file-backed blob store keeps a blob, and the check that every
//! blob passes on its way in and out.

use super::{blake3_digest, BlobError};
use crate::hextext::{hex_encode, hex_text};
use vstd::prelude::*;
use vstd::slice::slice_subrange;
use vstd::string::StringExecFns;

verus! {

/// The layout of a blob store in a directory: a blob lies in the
/// subdirectory named by the first two hexadecimal digits of its hash, in a
/// file named by the other 62.
pub struct FileBlobStore {
    /// The directory of the store.
    pub root: String,
}

/// The name of the subdirectory of a hash: its first two hexadecimal
/// digits.
pub open spec fn shard_prefix(h: Seq<u8>) -> Seq<char> {
    hex_text(h).subrange(0, 2)
}

/// The name of the file of a hash: its hexadecimal digits after the first
/// two.
pub open spec fn shard_rest(h: Seq<u8>) -> Seq<char> {
    hex_text(h).subrange(2, 2 * h.len() as int)
}

/// The hexadecimal text of a byte string is that of its first byte followed
/// by that of the others.
pub proof fn lemma_hex_text_split(h: Seq<u8>)
    requires
        h.len() >= 1,
    ensures
        hex_text(h.subrange(0, 1)) == shard_prefix(h),
        hex_text(h.subrange(1, h.len() as int)) == shard_rest(h),
{
    let first = h.subrange(0, 1);
    let others = h.subrange(1, h.len() as int);
    assert(hex_text(first) =~= shard_prefix(h)) by {
        assert forall|i: int| 0 <= i < 2 implies hex_text(first)[i] == shard_prefix(h)[i] by {
            assert(i / 2 == 0);
        }
    }
    assert(hex_text(others) =~= shard_rest(h)) by {
        assert forall|i: int| 0 <= i < 2 * others.len() implies hex_text(others)[i] == shard_rest(
            h,
        )[i] by {
            assert((i + 2) / 2 == i / 2 + 1);
            assert((i + 2) % 2 == i % 2);
        }
    }
}

impl FileBlobStore {
    /// The layout of the store in directory `root`.
    pub fn at(root: String) -> (s: FileBlobStore)
        ensures
            s.root == root,
    {
        FileBlobStore { root }
    }

    /// The names of the subdirectory and of the file of a blob.
    pub fn shard_names(hash: &crate::blob::Hash) -> (names: (String, String))
        ensures
            names.0@ == shard_prefix(hash@),
            names.1@ == shard_rest(hash@),
            names.0@.len() == 2,
            names.1@.len() == 62,
    {
        let bytes = hash.as_bytes().as_slice();
        proof {
            lemma_hex_text_split(hash@);
        }
        (hex_encode(slice_subrange(bytes, 0, 1)), hex_encode(slice_subrange(bytes, 1, 32)))
    }

    /// The directory of a blob: `root/<first two digits>`.
    pub fn dir_for(&self, hash: &crate::blob::Hash) -> (dir: String)
        ensures
            dir@ == self.root@ + "/"@ + shard_prefix(hash@),
    {
        let names = FileBlobStore::shard_names(hash);
        self.root.clone().concat("/").concat(names.0.as_str())
    }

    /// The path of a blob: `root/<first two digits>/<other digits>`.
    pub fn path_for(&self, hash: &crate::blob::Hash) -> (path: String)
        ensures
            path@ == self.root@ + "/"@ + shard_prefix(hash@) + "/"@ + shard_rest(hash@),
    {
        let names = FileBlobStore::shard_names(hash);
        self.dir_for(hash).concat("/").concat(names.1.as_str())
    }

    /// Checks that `data` hashes to `hash`; data that does not is corrupted.
    pub fn check_blob(hash: &crate::blob::Hash, data: &[u8]) -> (r: Result<(), BlobError>)
        ensures
            r is Ok <==> blake3_digest(data@) == hash@,
            r is Err ==> r->Err_0 is Corrupted,
    {
        let actual = crate::blob::Hash::from_data(data);
        if actual != *hash {
            return Err(BlobError::Corrupted(hash.to_hex()));
        }
        Ok(())
    }
}

} // verus!
