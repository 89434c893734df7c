//! ATA command handling: dispatch to a storage backend and the IDENTIFY
//! DEVICE payload.

use super::types::{
    AtaCommand, AtaHeader, ATA_ERROR_ABRT, ATA_ERROR_IDNF, ATA_ERROR_UNC, ATA_STATUS_DRDY,
    ATA_STATUS_ERR,
};
use crate::storage::{range_ok, BlockStorage, DeviceInfo, StorageError};
use crate::bytes::append;
use vstd::prelude::*;
use vstd::string::StringSliceAdditionalSpecFns;

verus! {

/// What an ATA command answers with.
#[derive(Debug)]
pub struct AtaResponse {
    /// Status register.
    pub status: u8,
    /// Error register.
    pub error: u8,
    /// Sector count that the response echoes.
    pub sector_count: u8,
    /// Data payload of a read.
    pub data: Option<Vec<u8>>,
}

impl AtaResponse {
    /// A successful response that carries `data`.
    pub fn success_with_data(data: Vec<u8>, sector_count: u8) -> (r: AtaResponse)
        ensures
            r.status == 0x40,
            r.error == 0,
            r.sector_count == sector_count,
            r.data == Some(data),
    {
        AtaResponse { status: ATA_STATUS_DRDY, error: 0, sector_count, data: Some(data) }
    }

    /// A successful response without data.
    pub fn success() -> (r: AtaResponse)
        ensures
            r.status == 0x40,
            r.error == 0,
            r.sector_count == 0,
            r.data is None,
    {
        AtaResponse { status: ATA_STATUS_DRDY, error: 0, sector_count: 0, data: None }
    }

    /// A failed response: status `ERR|DRDY` and the given error register.
    pub fn error(error_code: u8) -> (r: AtaResponse)
        ensures
            r.status == 0x41,
            r.error == error_code,
            r.sector_count == 0,
            r.data is None,
    {
        assert(0x01u8 | 0x40u8 == 0x41u8) by (bit_vector);
        AtaResponse {
            status: ATA_STATUS_ERR | ATA_STATUS_DRDY,
            error: error_code,
            sector_count: 0,
            data: None,
        }
    }
}

impl AtaResponse {
    /// This is the failed response with the given error register.
    pub open spec fn is_error(self, error_code: u8) -> bool {
        self.status == 0x41 && self.error == error_code && self.sector_count == 0
            && self.data is None
    }

    /// This is the successful response without data.
    pub open spec fn is_success(self) -> bool {
        self.status == 0x40 && self.error == 0 && self.sector_count == 0 && self.data is None
    }

    /// This is the successful response that carries `data`.
    pub open spec fn is_data(self, data: Seq<u8>, sector_count: u8) -> bool {
        &&& self.status == 0x40
        &&& self.error == 0
        &&& self.sector_count == sector_count
        &&& self.data matches Some(d) && d@ == data
    }
}

/// The address that a command names: 48 bits of the address field for an
/// extended command, 28 bits otherwise.
pub open spec fn command_lba(header: AtaHeader) -> u64 {
    if header.flags.extended {
        (header.lba % 0x1_0000_0000_0000) as u64
    } else {
        (header.lba % 0x1000_0000) as u64
    }
}

/// The number of sectors that a command names: a count of 0 stands for 256.
pub open spec fn command_count(header: AtaHeader) -> nat {
    if header.sector_count == 0 {
        256
    } else {
        header.sector_count as nat
    }
}

/// The ATA error register for a storage error: `UNC` for corrupt data,
/// `IDNF` for an address out of range, `ABRT` for everything else.
pub open spec fn error_register(e: StorageError) -> u8 {
    match e {
        StorageError::Corrupted => 0x40,
        StorageError::OutOfRange { .. } => 0x10,
        _ => 0x04,
    }
}

/// The ATA error register for a storage error.
pub fn error_register_of(e: &StorageError) -> (code: u8)
    ensures
        code == error_register(*e),
{
    match e {
        StorageError::Corrupted => ATA_ERROR_UNC,
        StorageError::OutOfRange { .. } => ATA_ERROR_IDNF,
        _ => ATA_ERROR_ABRT,
    }
}

/// The bytes that `count` sectors from `lba` hold, for a count of up to 256.
/// The device is asked for at most 255 sectors at a time.
pub open spec fn span<S: BlockStorage>(storage: &S, lba: u64, count: nat) -> Seq<u8> {
    if count <= 255 {
        storage.sectors(lba, count)
    } else {
        storage.sectors(lba, 255) + storage.sectors((lba + 255) as u64, 1)
    }
}

/// `r` answers a read command: `IDNF` when the sectors lie past the end of
/// the device; otherwise the sectors, 512 bytes for each, with the request's
/// sector count, or the error register of a storage error other than
/// `OutOfRange`, which is `UNC` or `ABRT`.
pub open spec fn read_answer<S: BlockStorage>(storage: &S, header: AtaHeader, r: AtaResponse) -> bool {
    if !range_ok(command_lba(header), command_count(header), storage.device().total_sectors) {
        r.is_error(0x10)
    } else {
        (r.is_data(span(storage, command_lba(header), command_count(header)), header.sector_count)
            && span(storage, command_lba(header), command_count(header)).len() == command_count(
            header,
        ) * 512) || exists|e: StorageError| !(e is OutOfRange) && r.is_error(error_register(e))
    }
}

/// `r` answers a write command: `ABRT` when the data is not exactly the
/// sectors that the command names, `IDNF` when they lie past the end of the
/// device, and in both cases the device is as before; otherwise success
/// with the data written as the device says, or the error register of a
/// storage error other than `OutOfRange`, which is `UNC` or `ABRT`.
pub open spec fn write_answer<S: BlockStorage>(
    before: &S,
    after: &S,
    header: AtaHeader,
    data: Seq<u8>,
    r: AtaResponse,
) -> bool {
    if data.len() != command_count(header) * 512 {
        r.is_error(0x04) && after == before
    } else if !range_ok(command_lba(header), command_count(header), before.device().total_sectors) {
        r.is_error(0x10) && after == before
    } else {
        (r.is_success() && before.written_to(command_lba(header), data, after)) || exists|
            e: StorageError,
        |
            !(e is OutOfRange) && r.is_error(error_register(e))
    }
}

/// A flush leaves what the device holds as it is.
pub open spec fn same_sectors<S: BlockStorage>(before: &S, after: &S) -> bool {
    forall|lba: u64, count: nat| #[trigger] after.sectors(lba, count) == before.sectors(lba, count)
}

/// The answer to a read, given what the device returned.
pub fn read_response(sector_count: u8, result: Result<Vec<u8>, StorageError>) -> (r: AtaResponse)
    ensures
        match result {
            Ok(d) => r.is_data(d@, sector_count),
            Err(e) => r.is_error(error_register(e)),
        },
{
    match result {
        Ok(data) => AtaResponse::success_with_data(data, sector_count),
        Err(e) => AtaResponse::error(error_register_of(&e)),
    }
}

/// The answer to a write, given what the device returned.
pub fn write_response(result: Result<(), StorageError>) -> (r: AtaResponse)
    ensures
        match result {
            Ok(()) => r.is_success(),
            Err(e) => r.is_error(error_register(e)),
        },
{
    match result {
        Ok(()) => AtaResponse::success(),
        Err(e) => AtaResponse::error(error_register_of(&e)),
    }
}

/// The answer to a flush, given what the device returned: success for
/// success, `ABRT` for every failure.
pub fn flush_response(result: Result<(), StorageError>) -> (r: AtaResponse)
    ensures
        match result {
            Ok(()) => r.is_success(),
            Err(_) => r.is_error(0x04),
        },
{
    match result {
        Ok(()) => AtaResponse::success(),
        Err(_) => AtaResponse::error(ATA_ERROR_ABRT),
    }
}

/// Reads up to 256 sectors, asking the device for at most 255 at a time.
/// Success gives the `count * 512` bytes of the sectors. A failure is that
/// of the device, and since the sectors lie inside the device it is never
/// `OutOfRange`.
fn read_span<S: BlockStorage>(storage: &S, lba: u64, count: u16) -> (r: Result<
    Vec<u8>,
    StorageError,
>)
    requires
        storage.inv(),
        1 <= count <= 256,
        range_ok(lba, count as nat, storage.device().total_sectors),
    ensures
        r matches Ok(d) ==> d@ == span(storage, lba, count as nat) && d@.len() == count * 512,
        r is Err ==> !(r->Err_0 is OutOfRange),
{
    if count <= 255 {
        storage.read(lba, count as u8)
    } else {
        let mut first = storage.read(lba, 255)?;
        let last = storage.read(lba + 255, 1)?;
        append(&mut first, last.as_slice());
        Ok(first)
    }
}

/// Handles READ SECTORS and READ SECTORS EXT.
fn handle_read<S: BlockStorage>(storage: &S, header: &AtaHeader) -> (r: AtaResponse)
    requires
        storage.inv(),
    ensures
        read_answer(storage, *header, r),
{
    let lba: u64 = if header.flags.extended {
        header.lba48()
    } else {
        header.lba28() as u64
    };
    let count: u16 = if header.sector_count == 0 {
        256
    } else {
        header.sector_count as u16
    };
    let total = storage.info().total_sectors;
    if count as u64 > total || lba > total - count as u64 {
        return AtaResponse::error(ATA_ERROR_IDNF);
    }
    let result = read_span(storage, lba, count);
    let ghost outcome = result;
    let r = read_response(header.sector_count, result);
    proof {
        if let Err(e) = outcome {
            assert(r.is_error(error_register(e)));
        }
    }
    r
}

/// Handles WRITE SECTORS and WRITE SECTORS EXT.
fn handle_write<S: BlockStorage>(storage: &mut S, header: &AtaHeader, data: &[u8]) -> (r:
    AtaResponse)
    requires
        old(storage).inv(),
    ensures
        final(storage).inv(),
        final(storage).device() == old(storage).device(),
        write_answer(old(storage), final(storage), *header, data@, r),
{
    let lba: u64 = if header.flags.extended {
        header.lba48()
    } else {
        header.lba28() as u64
    };
    let count: u16 = if header.sector_count == 0 {
        256
    } else {
        header.sector_count as u16
    };
    let expected_len: usize = count as usize * 512;
    if data.len() != expected_len {
        return AtaResponse::error(ATA_ERROR_ABRT);
    }
    let total = storage.info().total_sectors;
    if count as u64 > total || lba > total - count as u64 {
        return AtaResponse::error(ATA_ERROR_IDNF);
    }
    let result = storage.write(lba, data);
    let ghost outcome = result;
    let r = write_response(result);
    proof {
        if let Err(e) = outcome {
            assert(r.is_error(error_register(e)));
        }
    }
    r
}

/// Handles IDENTIFY DEVICE.
fn handle_identify<S: BlockStorage>(storage: &S) -> (r: AtaResponse)
    requires
        storage.inv(),
    ensures
        r.is_data(identify_bytes(storage.device()), 1),
{
    let info = storage.info();
    let data = build_identify_data(info);
    AtaResponse::success_with_data(data, 1)
}

/// Handles FLUSH CACHE and FLUSH CACHE EXT.
fn handle_flush<S: BlockStorage>(storage: &mut S) -> (r: AtaResponse)
    requires
        old(storage).inv(),
    ensures
        final(storage).inv(),
        final(storage).device() == old(storage).device(),
        same_sectors(old(storage), final(storage)),
        r.is_success() || r.is_error(0x04),
{
    flush_response(storage.flush())
}

/// `r` answers the command in `header`: reads and writes as `read_answer`
/// and `write_answer` say, IDENTIFY DEVICE with the identify payload and a
/// sector count of 1, a flush with success or `ABRT` and the sectors as
/// before, and any other command code with `ABRT`.
pub open spec fn command_answer<S: BlockStorage>(
    before: &S,
    after: &S,
    header: AtaHeader,
    data: Seq<u8>,
    r: AtaResponse,
) -> bool {
    match AtaCommand::of_code(header.cmd_status) {
        None => r.is_error(0x04) && after == before,
        Some(AtaCommand::ReadSectors) | Some(AtaCommand::ReadSectorsExt) => read_answer(
            before,
            header,
            r,
        ) && after == before,
        Some(AtaCommand::WriteSectors) | Some(AtaCommand::WriteSectorsExt) => write_answer(
            before,
            after,
            header,
            data,
            r,
        ),
        Some(AtaCommand::IdentifyDevice) => r.is_data(identify_bytes(before.device()), 1) && after
            == before,
        Some(AtaCommand::FlushCache) | Some(AtaCommand::FlushCacheExt) => (r.is_success()
            || r.is_error(0x04)) && same_sectors(before, after),
    }
}

/// Handles one ATA command against a device.
pub fn handle_ata_command<S: BlockStorage>(storage: &mut S, header: &AtaHeader, data: &[u8]) -> (r:
    AtaResponse)
    requires
        old(storage).inv(),
    ensures
        final(storage).inv(),
        final(storage).device() == old(storage).device(),
        command_answer(old(storage), final(storage), *header, data@, r),
{
    let cmd = match AtaCommand::try_from(header.cmd_status) {
        Ok(cmd) => cmd,
        Err(_) => {
            return AtaResponse::error(ATA_ERROR_ABRT);
        },
    };
    match cmd {
        AtaCommand::ReadSectors | AtaCommand::ReadSectorsExt => handle_read(storage, header),
        AtaCommand::WriteSectors | AtaCommand::WriteSectorsExt => handle_write(
            storage,
            header,
            data,
        ),
        AtaCommand::IdentifyDevice => handle_identify(storage),
        AtaCommand::FlushCache | AtaCommand::FlushCacheExt => handle_flush(storage),
    }
}

/// Byte `j` of a string padded with spaces.
pub open spec fn padded(src: Seq<u8>, j: int) -> u8 {
    if 0 <= j < src.len() {
        src[j]
    } else {
        0x20
    }
}

/// An ATA string field: `src` padded with spaces to the length of `dest`
/// with the two bytes of every 16-bit word swapped. A last byte without a
/// partner keeps what `dest` held.
pub open spec fn ata_string(dest: Seq<u8>, src: Seq<u8>) -> Seq<u8> {
    Seq::new(
        dest.len(),
        |k: int|
            if k % 2 == 1 {
                padded(src, k - 1)
            } else if k + 1 < dest.len() {
                padded(src, k + 1)
            } else {
                dest[k]
            },
    )
}

/// Copies a string into an ATA string field: padded with spaces, bytes
/// swapped within each word.
pub fn copy_ata_string(dest: &mut [u8], src: &str)
    ensures
        final(dest)@ == ata_string(old(dest)@, src.spec_bytes()),
{
    let bytes = src.as_bytes();
    let n: usize = dest.len();
    let mut i: usize = 0;
    while i < n && n - i >= 2
        invariant
            n == dest@.len(),
            n == old(dest)@.len(),
            i <= n,
            i % 2 == 0,
            bytes@ == src.spec_bytes(),
            forall|k: int| 0 <= k < i ==> dest@[k] == ata_string(old(dest)@, bytes@)[k],
            forall|k: int| i <= k < n ==> dest@[k] == old(dest)@[k],
        decreases n - i,
    {
        if i + 1 < bytes.len() {
            dest[i] = bytes[i + 1];
            dest[i + 1] = bytes[i];
        } else if i < bytes.len() {
            dest[i] = 0x20;
            dest[i + 1] = bytes[i];
        } else {
            dest[i] = 0x20;
            dest[i + 1] = 0x20;
        }
        i += 2;
    }
    assert(dest@ =~= ata_string(old(dest)@, src.spec_bytes()));
}

/// The little-endian byte `k` of `v`.
pub open spec fn le_byte(v: u64, k: nat) -> u8 {
    if k == 0 {
        (v % 0x100) as u8
    } else if k == 1 {
        ((v / 0x100) % 0x100) as u8
    } else if k == 2 {
        ((v / 0x1_0000) % 0x100) as u8
    } else if k == 3 {
        ((v / 0x100_0000) % 0x100) as u8
    } else if k == 4 {
        ((v / 0x1_0000_0000) % 0x100) as u8
    } else if k == 5 {
        ((v / 0x100_0000_0000) % 0x100) as u8
    } else {
        0
    }
}

/// The sector count that the 28-bit capacity words report: the device size
/// capped at `0x0FFF_FFFF`.
pub open spec fn lba28_capacity(total_sectors: u64) -> u64 {
    if total_sectors < 0x0FFF_FFFF {
        total_sectors
    } else {
        0x0FFF_FFFF
    }
}

/// Byte `i` of the IDENTIFY DEVICE payload. Words 10 to 19 hold the serial
/// number, 23 to 26 the firmware revision, 27 to 46 the model, all as ATA
/// strings; word 47 the sectors per interrupt; word 49 the LBA and DMA
/// capabilities; word 53 the field validity; words 60 and 61 the 28-bit
/// capacity; words 83 and 86 the LBA48 feature bits; words 100 to 103 the
/// 48-bit capacity; word 106 the mark of 4096-byte sectors.
pub open spec fn identify_byte(info: DeviceInfo, i: int) -> u8 {
    let blank = Seq::new(40, |k: int| 0u8);
    if 20 <= i < 40 {
        ata_string(blank.subrange(0, 20), vstd::utf8::encode_utf8(info.serial@))[i - 20]
    } else if 46 <= i < 54 {
        ata_string(blank.subrange(0, 8), vstd::utf8::encode_utf8(info.firmware@))[i - 46]
    } else if 54 <= i < 94 {
        ata_string(blank, vstd::utf8::encode_utf8(info.model@))[i - 54]
    } else if i == 95 {
        0x01
    } else if i == 99 {
        0x03
    } else if i == 107 {
        0x06
    } else if 120 <= i < 124 {
        le_byte(lba28_capacity(info.total_sectors), (i - 120) as nat)
    } else if i == 167 || i == 173 {
        0x04
    } else if 200 <= i < 206 && info.lba48 {
        le_byte(info.total_sectors, (i - 200) as nat)
    } else if i == 213 && info.sector_size == 4096 {
        0x10
    } else {
        0
    }
}

/// The 512 bytes of the IDENTIFY DEVICE payload.
pub open spec fn identify_bytes(info: DeviceInfo) -> Seq<u8> {
    Seq::new(512, |i: int| identify_byte(info, i))
}

/// Writes `field` into `data` from index `at`.
fn write_at(data: &mut Vec<u8>, at: usize, field: &Vec<u8>)
    requires
        at + field@.len() <= old(data)@.len(),
    ensures
        final(data)@.len() == old(data)@.len(),
        forall|k: int|
            0 <= k < old(data)@.len() ==> final(data)@[k] == if at <= k < at + field@.len() {
                field@[k - at]
            } else {
                old(data)@[k]
            },
{
    let n: usize = data.len();
    let mut j: usize = 0;
    while j < field.len()
        invariant
            j <= field@.len(),
            n == data@.len(),
            at + field@.len() <= data@.len(),
            data@.len() == old(data)@.len(),
            forall|k: int|
                0 <= k < data@.len() ==> data@[k] == if at <= k < at + j {
                    field@[k - at]
                } else {
                    old(data)@[k]
                },
        decreases field@.len() - j,
    {
        data[at + j] = field[j];
        j += 1;
    }
}

/// An ATA string field of `width` bytes for `text`.
fn ata_field(text: &String, width: usize) -> (field: Vec<u8>)
    ensures
        field@ == ata_string(Seq::new(width as nat, |k: int| 0u8), vstd::utf8::encode_utf8(text@)),
{
    let mut field: Vec<u8> = vec![0u8; width];
    assert(field@ =~= Seq::new(width as nat, |k: int| 0u8));
    copy_ata_string(field.as_mut_slice(), text.as_str());
    field
}

/// The payload with only its three string fields filled in.
fn identify_strings(info: &DeviceInfo) -> (data: Vec<u8>)
    ensures
        data@.len() == 512,
        forall|i: int|
            0 <= i < 512 ==> #[trigger] data@[i] == if 20 <= i < 40 || 46 <= i < 94 {
                identify_byte(*info, i)
            } else {
                0u8
            },
{
    let mut data: Vec<u8> = vec![0u8; 512];
    let serial = ata_field(&info.serial, 20);
    write_at(&mut data, 20, &serial);
    let firmware = ata_field(&info.firmware, 8);
    write_at(&mut data, 46, &firmware);
    let model = ata_field(&info.model, 40);
    write_at(&mut data, 54, &model);
    proof {
        let blank = Seq::new(40, |k: int| 0u8);
        assert(blank.subrange(0, 20) =~= Seq::new(20, |k: int| 0u8));
        assert(blank.subrange(0, 8) =~= Seq::new(8, |k: int| 0u8));
    }
    data
}

/// Builds the 512-byte IDENTIFY DEVICE payload.
pub fn build_identify_data(info: &DeviceInfo) -> (data: Vec<u8>)
    ensures
        data@ == identify_bytes(*info),
{
    let mut data = identify_strings(info);
    let ghost strings = data@;
    data[95] = 0x01;
    data[99] = 0x03;
    data[107] = 0x06;
    let lba28_sectors: u64 = if info.total_sectors < 0x0FFF_FFFF {
        info.total_sectors
    } else {
        0x0FFF_FFFF
    };
    data[120] = (lba28_sectors % 0x100) as u8;
    data[121] = ((lba28_sectors / 0x100) % 0x100) as u8;
    data[122] = ((lba28_sectors / 0x1_0000) % 0x100) as u8;
    data[123] = ((lba28_sectors / 0x100_0000) % 0x100) as u8;
    data[167] = 0x04;
    data[173] = 0x04;
    if info.lba48 {
        let sectors: u64 = info.total_sectors;
        data[200] = (sectors % 0x100) as u8;
        data[201] = ((sectors / 0x100) % 0x100) as u8;
        data[202] = ((sectors / 0x1_0000) % 0x100) as u8;
        data[203] = ((sectors / 0x100_0000) % 0x100) as u8;
        data[204] = ((sectors / 0x1_0000_0000) % 0x100) as u8;
        data[205] = ((sectors / 0x100_0000_0000) % 0x100) as u8;
    }
    if info.sector_size == 4096 {
        data[213] = 0x10;
    }
    proof {
        assert forall|i: int| 0 <= i < 512 implies data@[i] == identify_byte(*info, i) by {
            if 20 <= i < 40 || 46 <= i < 94 {
                assert(data@[i] == strings[i]);
            }
        }
        assert(data@ =~= identify_bytes(*info));
    }
    data
}

} // verus!
