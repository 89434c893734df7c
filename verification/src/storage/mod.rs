//! Block storage: the contract that backends meet, and the backends.

pub mod cas;
pub mod file;

pub use cas::CasBackend;

use vstd::prelude::*;

verus! {

/// Why a storage operation failed.
#[derive(Debug)]
pub enum StorageError {
    /// The operating system reported an I/O error.
    Io(String),
    /// The request reaches past the last sector.
    OutOfRange { lba: u64, max: u64 },
    /// The sector count is not acceptable.
    InvalidSectorCount(u8),
    /// The backend failed; the string says why.
    Backend(String),
    /// The device is read-only.
    ReadOnly,
    /// Stored data did not match its hash or its framing.
    Corrupted,
}

/// What a device reports about itself.
#[derive(Debug, Clone)]
pub struct DeviceInfo {
    /// Model name, at most 40 characters are reported.
    pub model: String,
    /// Serial number, at most 20 characters are reported.
    pub serial: String,
    /// Firmware revision, at most 8 characters are reported.
    pub firmware: String,
    /// Number of sectors.
    pub total_sectors: u64,
    /// Sector size in bytes.
    pub sector_size: u32,
    /// Whether 48-bit addressing is supported.
    pub lba48: bool,
}

impl Default for DeviceInfo {
    fn default() -> (d: DeviceInfo)
        ensures
            d.model@ == "AoE Virtual Disk"@,
            d.serial@ == "0000000000"@,
            d.firmware@ == "1.0"@,
            d.total_sectors == 0,
            d.sector_size == 512,
            d.lba48,
    {
        DeviceInfo {
            model: "AoE Virtual Disk".to_owned(),
            serial: "0000000000".to_owned(),
            firmware: "1.0".to_owned(),
            total_sectors: 0,
            sector_size: 512,
            lba48: true,
        }
    }
}

/// A request for `count` sectors from `lba` stays inside a device of `total`
/// sectors.
pub open spec fn range_ok(lba: u64, count: nat, total: u64) -> bool {
    lba + count <= total
}

/// Checks that `count` sectors from `lba` lie inside a device of `total`
/// sectors, and names the request in the error when they do not.
pub fn check_range(lba: u64, count: u64, total: u64) -> (r: Result<(), StorageError>)
    ensures
        match r {
            Ok(()) => range_ok(lba, count as nat, total),
            Err(e) => !range_ok(lba, count as nat, total) && e == (StorageError::OutOfRange {
                lba,
                max: total,
            }),
        },
{
    if lba > total || count > total - lba {
        Err(StorageError::OutOfRange { lba, max: total })
    } else {
        Ok(())
    }
}

/// The contract of a block device with 512-byte sectors.
pub trait BlockStorage {
    /// What has to hold of the device between calls. A device that needs
    /// no more than the contracts of its operations keeps the default.
    open spec fn inv(&self) -> bool {
        true
    }

    /// The device information.
    open spec fn device(&self) -> DeviceInfo {
        arbitrary()
    }

    /// The bytes that a read of `count` sectors from `lba` returns when it
    /// succeeds.
    open spec fn sectors(&self, lba: u64, count: nat) -> Seq<u8> {
        arbitrary()
    }

    /// What a successful write of `data` from `lba` makes of the device:
    /// `next` is the device afterwards. A device that says nothing of its
    /// writes keeps the default.
    open spec fn written_to(&self, lba: u64, data: Seq<u8>, next: &Self) -> bool {
        true
    }

    /// Reads `count` sectors from `lba`. A request past the end fails with
    /// `OutOfRange`, and no other request does; a successful read returns
    /// `count * 512` bytes.
    fn read(&self, lba: u64, count: u8) -> (r: Result<Vec<u8>, StorageError>)
        requires
            self.inv(),
        ensures
            !range_ok(lba, count as nat, self.device().total_sectors) ==> r == Err::<
                Vec<u8>,
                StorageError,
            >(StorageError::OutOfRange { lba, max: self.device().total_sectors }),
            range_ok(lba, count as nat, self.device().total_sectors) && r is Err ==> !(r->Err_0
                is OutOfRange),
            r matches Ok(d) ==> d@.len() == count * 512 && d@ == self.sectors(lba, count as nat),
    ;

    /// Writes `data`, a whole number of sectors, from `lba`. Data that is not
    /// a whole number of sectors is refused, and so is a request past the
    /// end, with `OutOfRange`; a write of whole sectors inside the device
    /// never fails with `OutOfRange`. After a successful write the device is
    /// what `written_to` says.
    fn write(&mut self, lba: u64, data: &[u8]) -> (r: Result<(), StorageError>)
        requires
            old(self).inv(),
        ensures
            final(self).inv(),
            final(self).device() == old(self).device(),
            r is Ok ==> old(self).written_to(lba, data@, final(self)),
            data@.len() % 512 == 0 && range_ok(
                lba,
                data@.len() / 512,
                old(self).device().total_sectors,
            ) && r is Err ==> !(r->Err_0 is OutOfRange),
            data@.len() % 512 != 0 ==> r is Err,
            data@.len() % 512 == 0 && !range_ok(
                lba,
                data@.len() / 512,
                old(self).device().total_sectors,
            ) ==> r == Err::<(), StorageError>(
                StorageError::OutOfRange { lba, max: old(self).device().total_sectors },
            ),
    ;

    /// Makes earlier writes durable. What the device holds does not change.
    fn flush(&mut self) -> (r: Result<(), StorageError>)
        requires
            old(self).inv(),
        ensures
            final(self).inv(),
            final(self).device() == old(self).device(),
            forall|lba: u64, count: nat|
                #[trigger] final(self).sectors(lba, count) == old(self).sectors(lba, count),
    ;

    /// The device information.
    fn info(&self) -> (i: &DeviceInfo)
        requires
            self.inv(),
        ensures
            *i == self.device(),
    ;

    /// Checks that `count` sectors from `lba` lie inside the device.
    fn validate_range(&self, lba: u64, count: u8) -> (r: Result<(), StorageError>)
        requires
            self.inv(),
        ensures
            match r {
                Ok(()) => range_ok(lba, count as nat, self.device().total_sectors),
                Err(e) => !range_ok(lba, count as nat, self.device().total_sectors) && e == (
                StorageError::OutOfRange { lba, max: self.device().total_sectors }),
            },
    {
        let total = self.info().total_sectors;
        check_range(lba, count as u64, total)
    }
}

/// A snapshot as it is listed.
#[derive(Debug, Clone)]
pub struct SnapshotInfo {
    /// Snapshot identifier: the root hash in hex.
    pub id: String,
    /// Creation time, seconds since the Unix epoch.
    pub timestamp: u64,
    /// Optional description.
    pub description: Option<String>,
}

/// A block device that can name its states and go back to them.
pub trait ArchivalStorage: BlockStorage {
    /// Records the present state as a snapshot taken at `timestamp` and
    /// returns its id.
    fn snapshot(&mut self, timestamp: u64, description: Option<&str>) -> (r: Result<
        String,
        StorageError,
    >)
        requires
            old(self).inv(),
        ensures
            final(self).inv(),
            final(self).device() == old(self).device(),
            forall|lba: u64, count: nat|
                #[trigger] final(self).sectors(lba, count) == old(self).sectors(lba, count),
    ;

    /// The snapshots, oldest first.
    fn list_snapshots(&self) -> (r: Result<Vec<SnapshotInfo>, StorageError>)
        requires
            self.inv(),
    ;

    /// Goes back to the snapshot with id `snapshot_id`: reads see the device
    /// as it was then. An unknown id is an error and changes nothing.
    fn restore(&mut self, snapshot_id: &str) -> (r: Result<(), StorageError>)
        requires
            old(self).inv(),
        ensures
            final(self).inv(),
            final(self).device() == old(self).device(),
            r is Err ==> forall|lba: u64, count: nat|
                #[trigger] final(self).sectors(lba, count) == old(self).sectors(lba, count),
    ;
}

} // verus!
