//! Laws of the content-addressed backend: what reads return after writes.

use super::backend::{
    block_hash, block_of, sector, sectors_from, with_block, written, CasBackend,
};
use crate::blob::BlobStore;
use crate::storage::BlockStorage;
use super::block::{all_zero, framed, unframed, zero_sector};
use super::tree::{blobs_kept, depth_of, grown, lemma_depth_exists, pow128, walk};
use crate::storage::range_ok;
use super::tree_laws::{
    collision_free, lemma_grown_keeps, lemma_lookup_after_update, lemma_lookup_elsewhere,
    lemma_paths_differ, lemma_walk_kept, lemma_whole_kept, lemma_whole_walk, lemma_zero_walk, whole,
};
use crate::blob::{blake3_digest, with_blob, zero_hash};
use vstd::prelude::*;

verus! {

/// Storing the sector collides with nothing: it is a sector of zeros, or
/// its stored form holds it and has a hash of 32 bytes that is not the zero
/// hash and under which the store holds nothing, or that very form.
pub open spec fn block_clean(blobs: Map<Seq<u8>, Seq<u8>>, data: Seq<u8>, compress: bool) -> bool {
    all_zero(data) || {
        let stored = framed(data, compress);
        let h = blake3_digest(stored);
        &&& unframed(stored) == Some(data)
        &&& h.len() == 32
        &&& h != zero_hash()
        &&& (blobs.contains_key(h) ==> blobs[h] == stored)
    }
}

/// Writing `data` from `lba` collides with nothing: neither the stored form
/// of a sector nor a new tree node meets a different blob under its hash.
pub open spec fn write_clean(
    blobs: Map<Seq<u8>, Seq<u8>>,
    root: Seq<u8>,
    depth: nat,
    lba: u64,
    data: Seq<u8>,
    compress: bool,
) -> bool
    decreases data.len(),
{
    data.len() < 512 || {
        let chunk = data.subrange(0, 512);
        let stored = with_block(blobs, chunk, compress);
        let h = block_hash(chunk, compress);
        &&& block_clean(blobs, chunk, compress)
        &&& collision_free(stored, root, lba, 0, depth, h)
        &&& match grown(stored, root, lba, 0, depth, h) {
            None => true,
            Some((after, top)) => write_clean(
                after,
                top,
                depth,
                (lba + 1) as u64,
                data.subrange(512, data.len() as int),
                compress,
            ),
        }
    }
}

/// A sector that can be read from a store reads the same from every store
/// that keeps the blobs of the first.
pub proof fn lemma_sector_kept(
    small: Map<Seq<u8>, Seq<u8>>,
    large: Map<Seq<u8>, Seq<u8>>,
    root: Seq<u8>,
    depth: nat,
    lba: u64,
)
    requires
        blobs_kept(small, large),
        sector(small, root, depth, lba) is Some,
    ensures
        sector(large, root, depth, lba) == sector(small, root, depth, lba),
{
    lemma_walk_kept(small, large, root, lba, 0, depth);
    let h = walk(small, root, lba, 0, depth)->Some_0;
    if h != zero_hash() {
        assert(small.contains_key(h));
    }
}

/// Growth of the blob store changes no read against a fixed root: sectors
/// that can be read under `root` read the same from every store that keeps
/// the blobs of the first. A snapshot is such a root, and writes only add
/// blobs.
pub proof fn lemma_sectors_kept(
    small: Map<Seq<u8>, Seq<u8>>,
    large: Map<Seq<u8>, Seq<u8>>,
    root: Seq<u8>,
    depth: nat,
    lba: u64,
    count: nat,
)
    requires
        blobs_kept(small, large),
        sectors_from(small, root, depth, lba, count) is Some,
    ensures
        sectors_from(large, root, depth, lba, count) == sectors_from(
            small,
            root,
            depth,
            lba,
            count,
        ),
    decreases count,
{
    if count > 0 {
        lemma_sectors_kept(small, large, root, depth, lba, (count - 1) as nat);
        lemma_sector_kept(small, large, root, depth, (lba + count - 1) as u64);
    }
}

/// A write keeps every blob of the store.
pub proof fn lemma_written_keeps(
    blobs: Map<Seq<u8>, Seq<u8>>,
    root: Seq<u8>,
    depth: nat,
    lba: u64,
    data: Seq<u8>,
    compress: bool,
)
    ensures
        written(blobs, root, depth, lba, data, compress) matches Some((after, _)) ==> blobs_kept(
            blobs,
            after,
        ),
    decreases data.len(),
{
    if data.len() >= 512 {
        let chunk = data.subrange(0, 512);
        let stored = with_block(blobs, chunk, compress);
        let h = block_hash(chunk, compress);
        lemma_grown_keeps(stored, root, lba, 0, depth, h);
        match grown(stored, root, lba, 0, depth, h) {
            None => {},
            Some((after, top)) => {
                let rest = data.subrange(512, data.len() as int);
                lemma_written_keeps(after, top, depth, (lba + 1) as u64, rest, compress);
                match written(after, top, depth, (lba + 1) as u64, rest, compress) {
                    None => {},
                    Some((last, _)) => {
                        assert(blobs_kept(blobs, stored));
                        assert(blobs_kept(stored, after));
                        assert forall|k: Seq<u8>| #[trigger] blobs.contains_key(k) implies
                            last.contains_key(k) && last[k] == blobs[k] by {
                            assert(stored.contains_key(k));
                            assert(after.contains_key(k));
                        }
                    },
                }
            },
        }
    }
}

/// Writes after a snapshot do not change what is read under the root of
/// the snapshot.
pub proof fn lemma_snapshot_unchanged(
    blobs: Map<Seq<u8>, Seq<u8>>,
    snapshot_root: Seq<u8>,
    live_root: Seq<u8>,
    depth: nat,
    write_lba: u64,
    data: Seq<u8>,
    compress: bool,
    lba: u64,
    count: nat,
)
    requires
        sectors_from(blobs, snapshot_root, depth, lba, count) is Some,
    ensures
        written(blobs, live_root, depth, write_lba, data, compress) matches Some((after, _))
            ==> sectors_from(after, snapshot_root, depth, lba, count) == sectors_from(
            blobs,
            snapshot_root,
            depth,
            lba,
            count,
        ),
{
    lemma_written_keeps(blobs, live_root, depth, write_lba, data, compress);
    match written(blobs, live_root, depth, write_lba, data, compress) {
        None => {},
        Some((after, _)) => {
            lemma_sectors_kept(blobs, after, snapshot_root, depth, lba, count);
        },
    }
}

/// Under the zero root every sector reads as zeros: a read of `count`
/// sectors gives `count * 512` zero bytes, whatever the store holds.
pub proof fn lemma_sparse_read(blobs: Map<Seq<u8>, Seq<u8>>, depth: nat, lba: u64, count: nat)
    ensures
        sectors_from(blobs, zero_hash(), depth, lba, count) == Some(
            Seq::new(count * 512, |i: int| 0u8),
        ),
    decreases count,
{
    if count == 0 {
        assert(Seq::<u8>::empty() =~= Seq::new(0, |i: int| 0u8));
    } else {
        lemma_sparse_read(blobs, depth, lba, (count - 1) as nat);
        lemma_zero_walk(blobs, (lba + count - 1) as u64, 0, depth);
        assert(Seq::new(((count - 1) * 512) as nat, |i: int| 0u8) + zero_sector() =~= Seq::new(
            count * 512,
            |i: int| 0u8,
        ));
    }
}

/// Storing the same sector twice is storing it once: the second time adds
/// nothing. A sector of zeros adds nothing at all, and any other sector
/// adds at most the one blob under its hash.
pub proof fn lemma_dedup(blobs: Map<Seq<u8>, Seq<u8>>, data: Seq<u8>, compress: bool)
    ensures
        with_block(with_block(blobs, data, compress), data, compress) == with_block(
            blobs,
            data,
            compress,
        ),
        all_zero(data) ==> with_block(blobs, data, compress) == blobs,
        forall|h: Seq<u8>| #[trigger]
            with_block(blobs, data, compress).contains_key(h) ==> blobs.contains_key(h) || h
                == block_hash(data, compress),
{
}

/// After one sector is written without collision into a whole tree, the
/// sector is read back at its address, every other sector of the device
/// reads as before, and the tree is whole again.
pub proof fn lemma_one_sector(
    blobs: Map<Seq<u8>, Seq<u8>>,
    root: Seq<u8>,
    depth: nat,
    lba: u64,
    chunk: Seq<u8>,
    compress: bool,
    other: u64,
)
    requires
        chunk.len() == 512,
        whole(blobs, root, 0, depth),
        block_clean(blobs, chunk, compress),
        collision_free(
            with_block(blobs, chunk, compress),
            root,
            lba,
            0,
            depth,
            block_hash(chunk, compress),
        ),
        lba < pow128(depth),
        other < pow128(depth),
    ensures
        grown(with_block(blobs, chunk, compress), root, lba, 0, depth, block_hash(chunk, compress))
            matches Some((after, top)) && {
            &&& whole(after, top, 0, depth)
            &&& blobs_kept(blobs, after)
            &&& sector(after, top, depth, lba) == Some(chunk)
            &&& other != lba && sector(blobs, root, depth, other) is Some ==> sector(
                after,
                top,
                depth,
                other,
            ) == sector(blobs, root, depth, other)
        },
{
    let stored = with_block(blobs, chunk, compress);
    let h = block_hash(chunk, compress);
    assert(blobs_kept(blobs, stored));
    lemma_whole_kept(blobs, stored, root, 0, depth);
    if all_zero(chunk) {
        assert(zero_hash().len() == 32);
        assert(chunk =~= zero_sector());
    }
    assert(block_of(stored, h) == Some(chunk));
    lemma_lookup_after_update(stored, root, lba, 0, depth, h);
    lemma_grown_keeps(stored, root, lba, 0, depth, h);
    let (after, top) = grown(stored, root, lba, 0, depth, h)->Some_0;
    if h != zero_hash() {
        assert(stored.contains_key(h));
    }
    if other != lba && sector(blobs, root, depth, other) is Some {
        lemma_paths_differ(lba, other, depth);
        lemma_lookup_elsewhere(stored, root, lba, other, 0, depth, h);
        lemma_whole_walk(blobs, root, other, 0, depth);
        lemma_walk_kept(blobs, stored, root, other, 0, depth);
        let found = walk(blobs, root, other, 0, depth)->Some_0;
        if found != zero_hash() {
            assert(blobs.contains_key(found));
        }
    }
}

/// A write without collision into a whole tree leaves the tree whole and
/// changes no sector outside the range that it writes.
pub proof fn lemma_write_elsewhere(
    blobs: Map<Seq<u8>, Seq<u8>>,
    root: Seq<u8>,
    depth: nat,
    lba: u64,
    data: Seq<u8>,
    compress: bool,
    other: u64,
)
    requires
        data.len() % 512 == 0,
        whole(blobs, root, 0, depth),
        write_clean(blobs, root, depth, lba, data, compress),
        lba + data.len() / 512 <= pow128(depth),
        lba + data.len() / 512 <= u64::MAX,
        other < pow128(depth),
        other < lba || other >= lba + data.len() / 512,
    ensures
        written(blobs, root, depth, lba, data, compress) matches Some((after, top)) && {
            &&& whole(after, top, 0, depth)
            &&& sector(blobs, root, depth, other) is Some ==> sector(after, top, depth, other)
                == sector(blobs, root, depth, other)
        },
    decreases data.len(),
{
    if data.len() >= 512 {
        let chunk = data.subrange(0, 512);
        let rest = data.subrange(512, data.len() as int);
        lemma_one_sector(blobs, root, depth, lba, chunk, compress, other);
        let (mid, mid_top) = grown(
            with_block(blobs, chunk, compress),
            root,
            lba,
            0,
            depth,
            block_hash(chunk, compress),
        )->Some_0;
        assert(rest.len() == data.len() - 512);
        lemma_write_elsewhere(mid, mid_top, depth, (lba + 1) as u64, rest, compress, other);
    }
}

/// The sectors from an address are the first of them followed by the
/// sectors from the next address.
pub proof fn lemma_sectors_split(
    blobs: Map<Seq<u8>, Seq<u8>>,
    root: Seq<u8>,
    depth: nat,
    lba: u64,
    count: nat,
)
    requires
        count >= 1,
        lba + count <= u64::MAX,
    ensures
        sectors_from(blobs, root, depth, lba, count) == match (
            sector(blobs, root, depth, lba),
            sectors_from(blobs, root, depth, (lba + 1) as u64, (count - 1) as nat),
        ) {
            (Some(first), Some(rest)) => Some(first + rest),
            _ => None,
        },
    decreases count,
{
    if count == 1 {
        assert(sectors_from(blobs, root, depth, lba, 0) == Some(Seq::<u8>::empty()));
        match sector(blobs, root, depth, lba) {
            Some(s) => {
                assert(Seq::<u8>::empty() + s =~= s + Seq::<u8>::empty());
            },
            None => {},
        }
    } else {
        lemma_sectors_split(blobs, root, depth, lba, (count - 1) as nat);
        let last = sector(blobs, root, depth, (lba + count - 1) as u64);
        let first = sector(blobs, root, depth, lba);
        let inner = sectors_from(blobs, root, depth, (lba + 1) as u64, (count - 2) as nat);
        assert(((lba + 1) as u64 + (count - 1) - 1) as u64 == (lba + count - 1) as u64);
        match (first, inner, last) {
            (Some(f), Some(m), Some(l)) => {
                assert((f + m) + l =~= f + (m + l));
            },
            _ => {},
        }
    }
}

/// Round trip: after `data`, a whole number of sectors inside the device,
/// is written from `lba` without collision into a whole tree, a read of as
/// many sectors from `lba` gives `data`.
pub proof fn lemma_read_after_write(
    blobs: Map<Seq<u8>, Seq<u8>>,
    root: Seq<u8>,
    depth: nat,
    lba: u64,
    data: Seq<u8>,
    compress: bool,
)
    requires
        data.len() % 512 == 0,
        whole(blobs, root, 0, depth),
        write_clean(blobs, root, depth, lba, data, compress),
        lba + data.len() / 512 <= pow128(depth),
        lba + data.len() / 512 <= u64::MAX,
    ensures
        written(blobs, root, depth, lba, data, compress) matches Some((after, top)) && whole(
            after,
            top,
            0,
            depth,
        ) && sectors_from(after, top, depth, lba, data.len() / 512) == Some(data),
    decreases data.len(),
{
    if data.len() < 512 {
        assert(data =~= Seq::<u8>::empty());
    } else {
        let chunk = data.subrange(0, 512);
        let rest = data.subrange(512, data.len() as int);
        let count = data.len() / 512;
        lemma_one_sector(blobs, root, depth, lba, chunk, compress, lba);
        let (mid, mid_top) = grown(
            with_block(blobs, chunk, compress),
            root,
            lba,
            0,
            depth,
            block_hash(chunk, compress),
        )->Some_0;
        assert(rest.len() == data.len() - 512);
        assert(rest.len() / 512 == count - 1);
        lemma_read_after_write(mid, mid_top, depth, (lba + 1) as u64, rest, compress);
        lemma_write_elsewhere(mid, mid_top, depth, (lba + 1) as u64, rest, compress, lba);
        let (after, top) = written(blobs, root, depth, lba, data, compress)->Some_0;
        lemma_sectors_split(after, top, depth, lba, count);
        assert(chunk + rest =~= data);
    }
}

/// A write without collision into a whole tree changes no read of sectors
/// that it does not overlap: what could be read from `lba` before reads the
/// same afterwards.
pub proof fn lemma_read_after_write_elsewhere(
    blobs: Map<Seq<u8>, Seq<u8>>,
    root: Seq<u8>,
    depth: nat,
    write_lba: u64,
    data: Seq<u8>,
    compress: bool,
    lba: u64,
    count: nat,
)
    requires
        data.len() % 512 == 0,
        whole(blobs, root, 0, depth),
        write_clean(blobs, root, depth, write_lba, data, compress),
        write_lba + data.len() / 512 <= pow128(depth),
        write_lba + data.len() / 512 <= u64::MAX,
        lba + count <= pow128(depth),
        lba + count <= u64::MAX,
        lba + count <= write_lba || write_lba + data.len() / 512 <= lba,
        sectors_from(blobs, root, depth, lba, count) is Some,
    ensures
        written(blobs, root, depth, write_lba, data, compress) matches Some((after, top))
            && sectors_from(after, top, depth, lba, count) == sectors_from(
            blobs,
            root,
            depth,
            lba,
            count,
        ),
    decreases count,
{
    lemma_read_after_write(blobs, root, depth, write_lba, data, compress);
    if count > 0 {
        lemma_read_after_write_elsewhere(
            blobs,
            root,
            depth,
            write_lba,
            data,
            compress,
            lba,
            (count - 1) as nat,
        );
        lemma_write_elsewhere(
            blobs,
            root,
            depth,
            write_lba,
            data,
            compress,
            (lba + count - 1) as u64,
        );
    }
}

/// Round trip on a device: after `data`, a whole number of sectors that
/// lie inside a device of `total` sectors, is written from `lba` without
/// collision into the whole tree of the device, a read of as many sectors
/// from `lba` gives `data`.
pub proof fn lemma_device_round_trip(
    blobs: Map<Seq<u8>, Seq<u8>>,
    root: Seq<u8>,
    total: u64,
    lba: u64,
    data: Seq<u8>,
    compress: bool,
)
    requires
        data.len() % 512 == 0,
        range_ok(lba, data.len() / 512, total),
        whole(blobs, root, 0, depth_of(total)),
        write_clean(blobs, root, depth_of(total), lba, data, compress),
    ensures
        written(blobs, root, depth_of(total), lba, data, compress) matches Some((after, top))
            && whole(after, top, 0, depth_of(total)) && sectors_from(
            after,
            top,
            depth_of(total),
            lba,
            data.len() / 512,
        ) == Some(data),
{
    lemma_depth_exists(total);
    lemma_read_after_write(blobs, root, depth_of(total), lba, data, compress);
}

/// Round trip on a backend: when a write of `data` from `lba` has made
/// `after` of `before`, without collision and with the tree of `before`
/// whole, the sectors of `after` from `lba` are `data`.
pub proof fn lemma_backend_round_trip<S: BlobStore>(
    before: CasBackend<S>,
    after: CasBackend<S>,
    lba: u64,
    data: Seq<u8>,
)
    requires
        data.len() % 512 == 0,
        range_ok(lba, data.len() / 512, before.info.total_sectors),
        whole(before.blobs(), before.root_hash@, 0, before.depth()),
        write_clean(before.blobs(), before.root_hash@, before.depth(), lba, data, before.compress),
        before.written_to(lba, data, &after),
    ensures
        after.sectors(lba, data.len() / 512) == data,
        whole(after.blobs(), after.root_hash@, 0, after.depth()),
{
    lemma_device_round_trip(
        before.blobs(),
        before.root_hash@,
        before.info.total_sectors,
        lba,
        data,
        before.compress,
    );
}

} // verus!
