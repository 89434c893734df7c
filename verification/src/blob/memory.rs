//! A blob store that lives in memory.

use super::{blake3_digest, hashed, with_blob, BlobError, BlobStore};
use vstd::prelude::*;
use vstd::slice::slice_to_vec;

verus! {

/// A blob store that keeps its blobs in memory, in the order in which they
/// were put.
pub struct MemoryBlobStore {
    /// The blobs with their keys.
    pub entries: Vec<(crate::blob::Hash, Vec<u8>)>,
}

/// The map from key to blob that a list of entries stands for.
pub open spec fn blobs_of(entries: Seq<(crate::blob::Hash, Vec<u8>)>) -> Map<Seq<u8>, Seq<u8>>
    decreases entries.len(),
{
    if entries.len() == 0 {
        Map::empty()
    } else {
        blobs_of(entries.drop_last()).insert(entries.last().0@, entries.last().1@)
    }
}

/// No two entries have the same key and every blob hashes to its key.
pub open spec fn entries_ok(entries: Seq<(crate::blob::Hash, Vec<u8>)>) -> bool {
    &&& forall|i: int, j: int|
        0 <= i < j < entries.len() ==> (#[trigger] entries[i]).0@ != (#[trigger] entries[j]).0@
    &&& forall|i: int|
        0 <= i < entries.len() ==> blake3_digest((#[trigger] entries[i]).1@) == entries[i].0@
}

/// The map of a list of entries holds exactly the keys of the entries, and
/// with distinct keys it holds under each key the blob of its entry.
pub proof fn lemma_blobs_of(entries: Seq<(crate::blob::Hash, Vec<u8>)>)
    ensures
        forall|h: Seq<u8>| #[trigger]
            blobs_of(entries).contains_key(h) <==> exists|i: int|
                0 <= i < entries.len() && (#[trigger] entries[i]).0@ == h,
        entries_ok(entries) ==> forall|i: int|
            0 <= i < entries.len() ==> blobs_of(entries)[(#[trigger] entries[i]).0@]
                == entries[i].1@,
    decreases entries.len(),
{
    if entries.len() > 0 {
        let front = entries.drop_last();
        let last = entries.last();
        lemma_blobs_of(front);
        assert(blobs_of(entries) == blobs_of(front).insert(last.0@, last.1@));
        assert forall|h: Seq<u8>| #[trigger]
            blobs_of(entries).contains_key(h) <==> exists|i: int|
                0 <= i < entries.len() && (#[trigger] entries[i]).0@ == h by {
            if blobs_of(entries).contains_key(h) {
                if h == last.0@ {
                    assert(entries[entries.len() - 1].0@ == h);
                } else {
                    assert(blobs_of(front).contains_key(h));
                    let i = choose|i: int| 0 <= i < front.len() && (#[trigger] front[i]).0@ == h;
                    assert(front[i] == entries[i]);
                    assert(entries[i].0@ == h);
                }
            }
            if exists|i: int| 0 <= i < entries.len() && (#[trigger] entries[i]).0@ == h {
                let i = choose|i: int| 0 <= i < entries.len() && (#[trigger] entries[i]).0@ == h;
                if i < front.len() {
                    assert(front[i].0@ == h);
                    assert(blobs_of(front).contains_key(h));
                }
            }
        }
        if entries_ok(entries) {
            assert(entries_ok(front)) by {
                assert forall|i: int, j: int| 0 <= i < j < front.len() implies (
                #[trigger] front[i]).0@ != (#[trigger] front[j]).0@ by {
                    assert(front[i] == entries[i] && front[j] == entries[j]);
                }
                assert forall|i: int| 0 <= i < front.len() implies blake3_digest(
                    (#[trigger] front[i]).1@,
                ) == front[i].0@ by {
                    assert(front[i] == entries[i]);
                }
            }
            assert forall|i: int| 0 <= i < entries.len() implies blobs_of(entries)[(
            #[trigger] entries[i]).0@] == entries[i].1@ by {
                if i < front.len() {
                    assert(front[i] == entries[i]);
                    assert(entries[i].0@ != entries[entries.len() - 1].0@);
                }
            }
        }
    }
}

impl MemoryBlobStore {
    /// Every blob in the store hashes to its key.
    pub proof fn lemma_hashed(&self)
        requires
            self.inv(),
        ensures
            hashed(self.blobs()),
    {
        lemma_blobs_of(self.entries@);
        assert forall|h: Seq<u8>| #[trigger] self.blobs().contains_key(h) implies blake3_digest(
            self.blobs()[h],
        ) == h by {
            let i = choose|i: int|
                0 <= i < self.entries@.len() && (#[trigger] self.entries@[i]).0@ == h;
            assert(self.blobs()[self.entries@[i].0@] == self.entries@[i].1@);
        }
    }

    /// An empty store.
    pub fn new() -> (s: MemoryBlobStore)
        ensures
            s.inv(),
            s.blobs() == Map::<Seq<u8>, Seq<u8>>::empty(),
    {
        MemoryBlobStore { entries: Vec::new() }
    }

    /// The number of blobs in the store.
    pub fn len(&self) -> (n: usize)
        ensures
            n == self.entries@.len(),
    {
        self.entries.len()
    }

    /// The position of the entry with key `hash`.
    fn position(&self, hash: &crate::blob::Hash) -> (r: Option<usize>)
        requires
            self.inv(),
        ensures
            match r {
                Some(i) => i < self.entries@.len() && self.entries@[i as int].0@ == hash@
                    && self.blobs().contains_key(hash@) && self.blobs()[hash@]
                    == self.entries@[i as int].1@,
                None => !self.blobs().contains_key(hash@),
            },
    {
        let mut i: usize = 0;
        while i < self.entries.len()
            invariant
                self.inv(),
                i <= self.entries@.len(),
                forall|k: int| 0 <= k < i ==> (#[trigger] self.entries@[k]).0@ != hash@,
            decreases self.entries@.len() - i,
        {
            if self.entries[i].0 == *hash {
                proof {
                    lemma_blobs_of(self.entries@);
                    assert(self.entries@[i as int].0@ == hash@);
                }
                return Some(i);
            }
            i += 1;
        }
        proof {
            lemma_blobs_of(self.entries@);
        }
        None
    }
}

impl BlobStore for MemoryBlobStore {
    open spec fn inv(&self) -> bool {
        entries_ok(self.entries@)
    }

    open spec fn blobs(&self) -> Map<Seq<u8>, Seq<u8>> {
        blobs_of(self.entries@)
    }

    fn put(&mut self, hash: &crate::blob::Hash, data: &[u8]) -> (r: Result<(), BlobError>)
        ensures
            blake3_digest(data@) == hash@ ==> r is Ok,
    {
        let actual = crate::blob::Hash::from_data(data);
        if actual != *hash {
            return Err(BlobError::Corrupted("hash mismatch".to_owned()));
        }
        match self.position(hash) {
            Some(_) => Ok(()),
            None => {
                proof {
                    lemma_blobs_of(self.entries@);
                }
                let ghost before = self.entries@;
                self.entries.push((*hash, slice_to_vec(data)));
                proof {
                    assert(self.entries@.drop_last() =~= before);
                    assert forall|i: int, j: int| 0 <= i < j < self.entries@.len() implies (
                    #[trigger] self.entries@[i]).0@ != (#[trigger] self.entries@[j]).0@ by {
                        if j == before.len() {
                            assert(before[i].0@ != hash@);
                        }
                    }
                }
                Ok(())
            },
        }
    }

    fn get(&self, hash: &crate::blob::Hash) -> (r: Result<Vec<u8>, BlobError>)
        ensures
            self.blobs().contains_key(hash@) ==> r is Ok,
    {
        match self.position(hash) {
            Some(i) => {
                let data = slice_to_vec(self.entries[i].1.as_slice());
                Ok(data)
            },
            None => Err(BlobError::NotFound(hash.to_hex())),
        }
    }

    fn contains(&self, hash: &crate::blob::Hash) -> (r: Result<bool, BlobError>)
        ensures
            r is Ok,
    {
        Ok(self.position(hash).is_some())
    }

    fn delete(&mut self, hash: &crate::blob::Hash) -> (r: Result<(), BlobError>)
        ensures
            r is Ok,
            final(self).blobs() == old(self).blobs().remove(hash@),
    {
        match self.position(hash) {
            Some(i) => {
                let ghost before = self.entries@;
                self.entries.remove(i);
                proof {
                    lemma_removed(before, i as int);
                }
                Ok(())
            },
            None => {
                assert(self.blobs().remove(hash@) =~= self.blobs());
                Ok(())
            },
        }
    }

    fn sync(&self) -> (r: Result<(), BlobError>)
        ensures
            r is Ok,
    {
        Ok(())
    }
}

/// Taking entry `i` out of a list of entries with distinct keys takes its
/// key out of the map and keeps the rest in order.
pub proof fn lemma_removed(entries: Seq<(crate::blob::Hash, Vec<u8>)>, i: int)
    requires
        entries_ok(entries),
        0 <= i < entries.len(),
    ensures
        entries_ok(entries.remove(i)),
        blobs_of(entries.remove(i)) == blobs_of(entries).remove(entries[i].0@),
{
    let after = entries.remove(i);
    assert forall|a: int, b: int| 0 <= a < b < after.len() implies (#[trigger] after[a]).0@ != (
    #[trigger] after[b]).0@ by {
        let a0 = if a < i { a } else { a + 1 };
        let b0 = if b < i { b } else { b + 1 };
        assert(after[a] == entries[a0] && after[b] == entries[b0]);
    }
    assert forall|a: int| 0 <= a < after.len() implies blake3_digest((#[trigger] after[a]).1@)
        == after[a].0@ by {
        let a0 = if a < i { a } else { a + 1 };
        assert(after[a] == entries[a0]);
    }
    lemma_blobs_of(entries);
    lemma_blobs_of(after);
    let left = blobs_of(after);
    let right = blobs_of(entries).remove(entries[i].0@);
    assert forall|h: Seq<u8>| left.contains_key(h) <==> right.contains_key(h) by {
        if left.contains_key(h) {
            let a = choose|a: int| 0 <= a < after.len() && (#[trigger] after[a]).0@ == h;
            let a0 = if a < i { a } else { a + 1 };
            assert(after[a] == entries[a0]);
            assert(entries[a0].0@ == h);
            if a0 < i {
                assert(entries[a0].0@ != entries[i].0@);
            } else {
                assert(entries[i].0@ != entries[a0].0@);
            }
        }
        if right.contains_key(h) {
            let a0 = choose|a: int| 0 <= a < entries.len() && (#[trigger] entries[a]).0@ == h;
            let a = if a0 < i { a0 } else { a0 - 1 };
            assert(after[a] == entries[a0]);
            assert(after[a].0@ == h);
        }
    }
    assert forall|h: Seq<u8>| left.contains_key(h) implies left[h] == right[h] by {
        let a = choose|a: int| 0 <= a < after.len() && (#[trigger] after[a]).0@ == h;
        let a0 = if a < i { a } else { a + 1 };
        assert(after[a] == entries[a0]);
        assert(left[after[a].0@] == after[a].1@);
        assert(blobs_of(entries)[entries[a0].0@] == entries[a0].1@);
    }
    assert(left =~= right);
}

} // verus!
