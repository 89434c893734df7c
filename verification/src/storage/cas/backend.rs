//! The content-addressed backend: sectors are stored as blobs under their
//! hash and found through the Merkle tree under the live root.

use super::block::{all_zero, frame_block, framed, is_all_zero, unframe_block, unframed, zero_sector};
use super::snapshot::{latest_root, root_of, SnapshotManager};
use super::tree::{
    blobs_kept, calculate_depth, depth_of, grown, lookup_in, update_in, walk,
};
use crate::blob::{blake3_digest, with_blob, zero_hash, BlobError, BlobStore};
use crate::hextext::hex_text;
use crate::storage::{
    check_range, range_ok, ArchivalStorage, BlockStorage, DeviceInfo, SnapshotInfo, StorageError,
};
use crate::bytes::append;
use vstd::prelude::*;
use vstd::slice::slice_subrange;

verus! {

/// Firmware revision that the backend reports.
pub const CAS_FIRMWARE: &'static str = "0.1.0";

/// Block storage over a blob store.
pub struct CasBackend<S: BlobStore> {
    /// The store of the data blocks and of the tree nodes.
    pub blob_store: S,
    /// The root of the tree that reads see.
    pub root_hash: crate::blob::Hash,
    /// The device information.
    pub info: DeviceInfo,
    /// The snapshot index.
    pub snapshots: SnapshotManager,
    /// Whether blocks are compressed where that makes them shorter.
    pub compress: bool,
}

/// The hash under which a sector is found: the zero hash for a sector of
/// zeros, otherwise the hash of its stored form.
pub open spec fn block_hash(data: Seq<u8>, compress: bool) -> Seq<u8> {
    if all_zero(data) {
        zero_hash()
    } else {
        blake3_digest(framed(data, compress))
    }
}

/// The store after a sector is stored: nothing is stored for a sector of
/// zeros, otherwise the stored form is put under its hash.
pub open spec fn with_block(blobs: Map<Seq<u8>, Seq<u8>>, data: Seq<u8>, compress: bool) -> Map<
    Seq<u8>,
    Seq<u8>,
> {
    if all_zero(data) {
        blobs
    } else {
        with_blob(blobs, blake3_digest(framed(data, compress)), framed(data, compress))
    }
}

/// The sector found under the data hash `h`: zeros for the zero hash,
/// otherwise what the blob under `h` holds. `None` where the store has no
/// such blob or the blob holds no sector.
pub open spec fn block_of(blobs: Map<Seq<u8>, Seq<u8>>, h: Seq<u8>) -> Option<Seq<u8>> {
    if h == zero_hash() {
        Some(zero_sector())
    } else if !blobs.contains_key(h) {
        None
    } else {
        unframed(blobs[h])
    }
}

/// The sector at `lba` in the tree under `root`.
pub open spec fn sector(blobs: Map<Seq<u8>, Seq<u8>>, root: Seq<u8>, depth: nat, lba: u64)
    -> Option<Seq<u8>> {
    match walk(blobs, root, lba, 0, depth) {
        Some(h) => block_of(blobs, h),
        None => None,
    }
}

/// The `count` sectors from `lba` in the tree under `root`, one after the
/// other; `None` where one of them cannot be read.
pub open spec fn sectors_from(
    blobs: Map<Seq<u8>, Seq<u8>>,
    root: Seq<u8>,
    depth: nat,
    lba: u64,
    count: nat,
) -> Option<Seq<u8>>
    decreases count,
{
    if count == 0 {
        Some(Seq::empty())
    } else {
        match (
            sectors_from(blobs, root, depth, lba, (count - 1) as nat),
            sector(blobs, root, depth, (lba + count - 1) as u64),
        ) {
            (Some(front), Some(last)) => Some(front + last),
            _ => None,
        }
    }
}

/// The store and the root after `data`, a whole number of sectors, is
/// written from `lba`: sector by sector, the sector is stored and the tree
/// is updated. `None` where an update does not find a node of its path.
pub open spec fn written(
    blobs: Map<Seq<u8>, Seq<u8>>,
    root: Seq<u8>,
    depth: nat,
    lba: u64,
    data: Seq<u8>,
    compress: bool,
) -> Option<(Map<Seq<u8>, Seq<u8>>, Seq<u8>)>
    decreases data.len(),
{
    if data.len() < 512 {
        Some((blobs, root))
    } else {
        let chunk = data.subrange(0, 512);
        match grown(
            with_block(blobs, chunk, compress),
            root,
            lba,
            0,
            depth,
            block_hash(chunk, compress),
        ) {
            None => None,
            Some((after, top)) => written(
                after,
                top,
                depth,
                (lba + 1) as u64,
                data.subrange(512, data.len() as int),
                compress,
            ),
        }
    }
}

/// Turns a blob store error into a storage error: corrupt or missing blobs
/// are data corruption, everything else is a failure of the backend.
pub fn storage_error_of(e: BlobError) -> (s: StorageError)
    ensures
        s is Corrupted || s is Io || s is Backend,
        match e {
            BlobError::NotFound(_) => s is Corrupted,
            BlobError::Corrupted(_) => s is Corrupted,
            BlobError::Io(what) => s == StorageError::Io(what),
            BlobError::Backend(what) => s == StorageError::Backend(what),
            BlobError::QuorumNotMet => s matches StorageError::Backend(what) && what@
                == "write quorum not met"@,
        },
{
    match e {
        BlobError::NotFound(_) => StorageError::Corrupted,
        BlobError::Corrupted(_) => StorageError::Corrupted,
        BlobError::Io(what) => StorageError::Io(what),
        BlobError::Backend(what) => StorageError::Backend(what),
        BlobError::QuorumNotMet => StorageError::Backend("write quorum not met".to_owned()),
    }
}

/// What a flush returns for what the sync of the blob store returned:
/// success for success, and for a failure the storage error that stands for
/// it.
pub fn flush_result(synced: Result<(), BlobError>) -> (r: Result<(), StorageError>)
    ensures
        match synced {
            Ok(()) => r is Ok,
            Err(e) => r is Err && match e {
                BlobError::NotFound(_) => r->Err_0 is Corrupted,
                BlobError::Corrupted(_) => r->Err_0 is Corrupted,
                BlobError::Io(what) => r->Err_0 == StorageError::Io(what),
                BlobError::Backend(what) => r->Err_0 == StorageError::Backend(what),
                BlobError::QuorumNotMet => r->Err_0 is Backend,
            },
        },
{
    match synced {
        Ok(()) => Ok(()),
        Err(e) => Err(storage_error_of(e)),
    }
}

/// Stores one sector in `store` and returns the hash under which it is
/// found. A sector of zeros is not stored and has the zero hash. A failed
/// call leaves the store as it was.
pub fn store_block_in<S: BlobStore>(store: &mut S, data: &[u8], compress: bool) -> (r: Result<
    crate::blob::Hash,
    StorageError,
>)
    requires
        old(store).inv(),
        data@.len() == 512,
    ensures
        final(store).inv(),
        all_zero(data@) ==> r is Ok,
        r matches Ok(h) ==> h@ == block_hash(data@, compress) && final(store).blobs() == with_block(
            old(store).blobs(),
            data@,
            compress,
        ),
        r is Err ==> final(store).blobs() == old(store).blobs() && !(r->Err_0 is OutOfRange),
{
    if is_all_zero(data) {
        return Ok(crate::blob::Hash::zero());
    }
    let stored = frame_block(data, compress);
    let hash = crate::blob::Hash::from_data(stored.as_slice());
    match store.put(&hash, stored.as_slice()) {
        Ok(()) => Ok(hash),
        Err(e) => Err(storage_error_of(e)),
    }
}

/// Fetches the sector that is found under the data hash `hash`. The zero
/// hash gives a sector of zeros without a look at the store. A blob that
/// holds no sector is reported as `Corrupted`.
pub fn retrieve_block_from<S: BlobStore>(store: &S, hash: &crate::blob::Hash) -> (r: Result<
    Vec<u8>,
    StorageError,
>)
    requires
        store.inv(),
    ensures
        hash@ == zero_hash() ==> r is Ok,
        r matches Ok(d) ==> block_of(store.blobs(), hash@) == Some(d@) && d@.len() == 512,
        r is Err ==> !(r->Err_0 is OutOfRange),
{
    if hash.is_zero() {
        let zeros: Vec<u8> = vec![0u8; 512];
        assert(zeros@ =~= zero_sector());
        return Ok(zeros);
    }
    let stored = match store.get(hash) {
        Ok(stored) => stored,
        Err(e) => {
            return Err(storage_error_of(e));
        },
    };
    match unframe_block(stored.as_slice()) {
        Some(d) => Ok(d),
        None => Err(StorageError::Corrupted),
    }
}

impl<S: BlobStore> CasBackend<S> {
    /// The depth of the tree of this device.
    pub open spec fn depth(&self) -> nat {
        depth_of(self.info.total_sectors)
    }

    /// The blobs of the store.
    pub open spec fn blobs(&self) -> Map<Seq<u8>, Seq<u8>> {
        self.blob_store.blobs()
    }

    /// A backend over `blob_store` for a device of `total_sectors` sectors.
    /// The live root is that of the newest snapshot, or the zero hash where
    /// there is none or its id is not the text of a hash.
    pub fn new(blob_store: S, total_sectors: u64, snapshots: SnapshotManager, serial: String) -> (b:
        CasBackend<S>)
        requires
            blob_store.inv(),
        ensures
            b.inv(),
            b.blob_store == blob_store,
            b.snapshots == snapshots,
            b.compress,
            b.info.total_sectors == total_sectors,
            b.info.serial == serial,
            b.root_hash@ == match latest_root(snapshots.snapshots@) {
                Some(h) => h,
                None => zero_hash(),
            },
    {
        let root_hash = match snapshots.latest() {
            Some(h) => h,
            None => crate::blob::Hash::zero(),
        };
        CasBackend::with_root(blob_store, total_sectors, snapshots, serial, root_hash)
    }

    /// A backend over `blob_store` whose live root is `root_hash`.
    pub fn with_root(
        blob_store: S,
        total_sectors: u64,
        snapshots: SnapshotManager,
        serial: String,
        root_hash: crate::blob::Hash,
    ) -> (b: CasBackend<S>)
        requires
            blob_store.inv(),
        ensures
            b.inv(),
            b.blob_store == blob_store,
            b.snapshots == snapshots,
            b.compress,
            b.root_hash == root_hash,
            b.info.total_sectors == total_sectors,
            b.info.serial == serial,
            b.info.model@ == "AoE CAS Backend"@,
            b.info.firmware@ == "0.1.0"@,
            b.info.sector_size == 512,
            b.info.lba48,
    {
        let info = DeviceInfo {
            model: "AoE CAS Backend".to_owned(),
            serial,
            firmware: CAS_FIRMWARE.to_owned(),
            total_sectors,
            sector_size: 512,
            lba48: true,
        };
        CasBackend { blob_store, root_hash, info, snapshots, compress: true }
    }

    /// Stores one sector, as `store_block_in` does.
    fn store_block(&mut self, data: &[u8]) -> (r: Result<crate::blob::Hash, StorageError>)
        requires
            old(self).inv(),
            data@.len() == 512,
        ensures
            final(self).inv(),
            final(self).root_hash == old(self).root_hash,
            final(self).info == old(self).info,
            final(self).snapshots == old(self).snapshots,
            final(self).compress == old(self).compress,
            all_zero(data@) ==> r is Ok,
            r matches Ok(h) ==> h@ == block_hash(data@, old(self).compress) && final(self).blobs()
                == with_block(old(self).blobs(), data@, old(self).compress),
            r is Err ==> final(self).blobs() == old(self).blobs() && !(r->Err_0 is OutOfRange),
    {
        store_block_in(&mut self.blob_store, data, self.compress)
    }

    /// Fetches one sector, as `retrieve_block_from` does.
    fn retrieve_block(&self, hash: &crate::blob::Hash) -> (r: Result<Vec<u8>, StorageError>)
        requires
            self.inv(),
        ensures
            hash@ == zero_hash() ==> r is Ok,
            r matches Ok(d) ==> block_of(self.blobs(), hash@) == Some(d@) && d@.len() == 512,
            r is Err ==> !(r->Err_0 is OutOfRange),
    {
        retrieve_block_from(&self.blob_store, hash)
    }
}

impl<S: BlobStore> BlockStorage for CasBackend<S> {
    open spec fn inv(&self) -> bool {
        self.blob_store.inv()
    }

    open spec fn device(&self) -> DeviceInfo {
        self.info
    }

    open spec fn sectors(&self, lba: u64, count: nat) -> Seq<u8> {
        match sectors_from(self.blobs(), self.root_hash@, self.depth(), lba, count) {
            Some(d) => d,
            None => Seq::empty(),
        }
    }

    open spec fn written_to(&self, lba: u64, data: Seq<u8>, next: &Self) -> bool {
        &&& next.info == self.info
        &&& next.snapshots == self.snapshots
        &&& next.compress == self.compress
        &&& written(self.blobs(), self.root_hash@, self.depth(), lba, data, self.compress) == Some(
            (next.blobs(), next.root_hash@),
        )
    }

    /// Reads `count` sectors from `lba` through the tree under the live
    /// root. Under the zero root every read inside the device succeeds and
    /// gives zeros, and a read of no sectors inside the device succeeds
    /// under every root. A read inside the device never fails with
    /// `OutOfRange`.
    fn read(&self, lba: u64, count: u8) -> (r: Result<Vec<u8>, StorageError>)
        ensures
            r matches Ok(d) ==> sectors_from(
                self.blobs(),
                self.root_hash@,
                self.depth(),
                lba,
                count as nat,
            ) == Some(d@),
            range_ok(lba, count as nat, self.info.total_sectors) && self.root_hash@ == zero_hash()
                ==> (r matches Ok(d) && d@ == Seq::new((count * 512) as nat, |i: int| 0u8)),
            range_ok(lba, count as nat, self.info.total_sectors) && r is Err ==> !(r->Err_0
                is OutOfRange),
            count == 0 && range_ok(lba, 0, self.info.total_sectors) ==> r is Ok,
    {
        proof {
            super::laws::lemma_sparse_read(self.blobs(), self.depth(), lba, count as nat);
        }
        match self.validate_range(lba, count) {
            Ok(()) => {},
            Err(e) => {
                return Err(e);
            },
        }
        let total = self.info.total_sectors;
        let depth = calculate_depth(total);
        let mut result: Vec<u8> = Vec::new();
        let mut i: u8 = 0;
        while i < count
            invariant
                self.inv(),
                i <= count,
                total == self.info.total_sectors,
                depth == self.depth(),
                1 <= depth <= 10,
                range_ok(lba, count as nat, total),
                result@.len() == i * 512,
                sectors_from(self.blobs(), self.root_hash@, self.depth(), lba, i as nat) == Some(
                    result@,
                ),
            decreases count - i,
        {
            let data_hash = match lookup_in(
                &self.blob_store,
                self.root_hash,
                total,
                depth,
                lba + i as u64,
            ) {
                Ok(h) => h,
                Err(e) => {
                    return Err(storage_error_of(e));
                },
            };
            proof {
                if self.root_hash@ == zero_hash() {
                    assert(walk(self.blobs(), zero_hash(), (lba + i) as u64, 0, depth as nat)
                        == Some(zero_hash()));
                }
            }
            let block = match self.retrieve_block(&data_hash) {
                Ok(block) => block,
                Err(e) => {
                    return Err(e);
                },
            };
            append(&mut result, block.as_slice());
            i += 1;
        }
        Ok(result)
    }

    /// Writes `data` from `lba`: sector by sector, the sector is stored and
    /// the tree is updated; at the end the live root moves to the new tree.
    /// A write of no data inside the device succeeds and changes nothing.
    /// After a failure the live root is where it was and the store holds
    /// what it held before and perhaps more.
    fn write(&mut self, lba: u64, data: &[u8]) -> (r: Result<(), StorageError>)
        ensures
            final(self).info == old(self).info,
            final(self).snapshots == old(self).snapshots,
            final(self).compress == old(self).compress,
            blobs_kept(old(self).blobs(), final(self).blobs()),
            data@.len() % 512 != 0 ==> r is Err && r->Err_0 is Backend && *final(self) == *old(self),
            data@.len() % 512 == 0 && !range_ok(
                lba,
                data@.len() / 512,
                old(self).info.total_sectors,
            ) ==> *final(self) == *old(self),
            range_ok(lba, data@.len() / 512, old(self).info.total_sectors) && r is Err ==> !(
            r->Err_0 is OutOfRange),
            data@.len() == 0 && range_ok(lba, 0, old(self).info.total_sectors) ==> r is Ok
                && *final(self) == *old(self),
            r is Ok ==> data@.len() % 512 == 0 && range_ok(
                lba,
                data@.len() / 512,
                old(self).info.total_sectors,
            ) && written(
                old(self).blobs(),
                old(self).root_hash@,
                old(self).depth(),
                lba,
                data@,
                old(self).compress,
            ) == Some((final(self).blobs(), final(self).root_hash@)),
            r is Err ==> final(self).root_hash == old(self).root_hash,
    {
        if data.len() % 512 != 0 {
            return Err(StorageError::Backend("data is not a whole number of sectors".to_owned()));
        }
        let count: usize = data.len() / 512;
        let total = self.info.total_sectors;
        match check_range(lba, count as u64, total) {
            Ok(()) => {},
            Err(e) => {
                return Err(e);
            },
        }
        let depth = calculate_depth(total);
        let compress = self.compress;
        let mut root = self.root_hash;
        let ghost blobs0 = self.blobs();
        let ghost root0 = self.root_hash@;
        let mut i: usize = 0;
        proof {
            assert(data@.subrange(0, data@.len() as int) =~= data@);
        }
        while i < count
            invariant
                self.inv(),
                i <= count,
                data@.len() <= usize::MAX,
                count == data@.len() / 512,
                data@.len() % 512 == 0,
                total == self.info.total_sectors,
                depth == self.depth(),
                1 <= depth <= 10,
                range_ok(lba, count as nat, total),
                compress == self.compress,
                self.root_hash == old(self).root_hash,
                self.info == old(self).info,
                self.snapshots == old(self).snapshots,
                self.compress == old(self).compress,
                blobs0 == old(self).blobs(),
                root0 == old(self).root_hash@,
                i == 0 ==> self.blob_store == old(self).blob_store && root == old(self).root_hash,
                blobs_kept(blobs0, self.blobs()),
                written(blobs0, root0, depth as nat, lba, data@, compress) == written(
                    self.blobs(),
                    root@,
                    depth as nat,
                    (lba + i) as u64,
                    data@.subrange(i * 512, data@.len() as int),
                    compress,
                ),
            decreases count - i,
        {
            let ghost rest = data@.subrange(i * 512, data@.len() as int);
            let ghost before = self.blobs();
            let chunk = slice_subrange(data, i * 512, i * 512 + 512);
            proof {
                assert(chunk@ =~= rest.subrange(0, 512));
                assert(rest.subrange(512, rest.len() as int) =~= data@.subrange(
                    (i + 1) * 512,
                    data@.len() as int,
                ));
            }
            let data_hash = match self.store_block(chunk) {
                Ok(h) => h,
                Err(e) => {
                    return Err(e);
                },
            };
            proof {
                assert(blobs_kept(before, self.blobs()));
            }
            root = match update_in(&mut self.blob_store, root, total, depth, lba + i as u64, data_hash) {
                Ok(new_root) => new_root,
                Err(e) => {
                    return Err(storage_error_of(e));
                },
            };
            i += 1;
        }
        proof {
            assert(data@.subrange(i * 512, data@.len() as int).len() == 0);
        }
        self.root_hash = root;
        Ok(())
    }

    /// Asks the blob store to make its blobs durable and hands on what the
    /// store answers, as `flush_result` says: success for success; a failure
    /// of the store comes back as `Corrupted`, `Io` or `Backend`. The
    /// backend itself is as before.
    fn flush(&mut self) -> (r: Result<(), StorageError>)
        ensures
            *final(self) == *old(self),
            r is Err ==> r->Err_0 is Corrupted || r->Err_0 is Io || r->Err_0 is Backend,
    {
        flush_result(self.blob_store.sync())
    }

    fn info(&self) -> (i: &DeviceInfo) {
        &self.info
    }
}

impl<S: BlobStore> ArchivalStorage for CasBackend<S> {
    /// Appends the live root to the snapshot index and returns its id, the
    /// root in hexadecimal. The call always succeeds.
    fn snapshot(&mut self, timestamp: u64, description: Option<&str>) -> (r: Result<
        String,
        StorageError,
    >)
        ensures
            r matches Ok(id) && id@ == hex_text(old(self).root_hash@),
            final(self).blob_store == old(self).blob_store,
            final(self).root_hash == old(self).root_hash,
            final(self).info == old(self).info,
            final(self).compress == old(self).compress,
            final(self).snapshots.snapshots@.len() == old(self).snapshots.snapshots@.len() + 1,
            final(self).snapshots.snapshots@.drop_last() == old(self).snapshots.snapshots@,
            final(self).snapshots.snapshots@.last().root@ == hex_text(old(self).root_hash@),
            final(self).snapshots.snapshots@.last().timestamp == timestamp,
    {
        let root = self.root_hash;
        Ok(self.snapshots.create(root, timestamp, description))
    }

    /// Lists the snapshots, oldest first. The call always succeeds.
    fn list_snapshots(&self) -> (r: Result<Vec<SnapshotInfo>, StorageError>)
        ensures
            r matches Ok(infos) && infos@.len() == self.snapshots.snapshots@.len() && forall|
                i: int,
            |
                0 <= i < infos@.len() ==> (#[trigger] infos@[i]).id
                    == self.snapshots.snapshots@[i].root && infos@[i].timestamp
                    == self.snapshots.snapshots@[i].timestamp && infos@[i].description
                    == self.snapshots.snapshots@[i].description,
    {
        Ok(self.snapshots.list())
    }

    /// Moves the live root to the root of the snapshot with id
    /// `snapshot_id`. Where the index has no such snapshot, or the id is not
    /// the text of a hash, the call fails with `Backend` and changes
    /// nothing.
    fn restore(&mut self, snapshot_id: &str) -> (r: Result<(), StorageError>)
        ensures
            final(self).blob_store == old(self).blob_store,
            final(self).info == old(self).info,
            final(self).snapshots == old(self).snapshots,
            final(self).compress == old(self).compress,
            match root_of(old(self).snapshots.snapshots@, snapshot_id@) {
                Some(h) => r is Ok && final(self).root_hash@ == h,
                None => r is Err && r->Err_0 is Backend && final(self).root_hash == old(self).root_hash,
            },
    {
        match self.snapshots.get(snapshot_id) {
            Some(h) => {
                self.root_hash = h;
                Ok(())
            },
            None => Err(StorageError::Backend("snapshot not found".to_owned())),
        }
    }
}

} // verus!
