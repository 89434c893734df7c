//! The arithmetic of the file backend: which bytes of the file a request
//! touches.

use super::{range_ok, DeviceInfo, StorageError};
use vstd::prelude::*;

verus! {

/// Firmware revision that the file backend reports.
pub const FILE_FIRMWARE: &'static str = "0.1.0";

/// The device information of a file of `size_bytes` bytes: as many whole
/// sectors of 512 bytes as the file holds.
pub fn file_device_info(size_bytes: u64, serial: String) -> (info: DeviceInfo)
    ensures
        info.model@ == "AoE File Backend"@,
        info.serial == serial,
        info.firmware@ == "0.1.0"@,
        info.total_sectors == size_bytes / 512,
        info.sector_size == 512,
        info.lba48,
{
    DeviceInfo {
        model: "AoE File Backend".to_owned(),
        serial,
        firmware: FILE_FIRMWARE.to_owned(),
        total_sectors: size_bytes / 512,
        sector_size: 512,
        lba48: true,
    }
}

/// True when a file of `current_size` bytes has to be extended to hold
/// `size_bytes` bytes.
pub fn needs_growth(current_size: u64, size_bytes: u64) -> (grow: bool)
    ensures
        grow == (current_size < size_bytes),
{
    current_size < size_bytes
}

/// The part of the file that a read of `count` sectors from `lba` covers:
/// the offset `lba * sector_size` and the length `count * sector_size`. A
/// request past the end of the device is refused with `OutOfRange`; an
/// offset that does not fit in 64 bits is refused with `Backend`.
pub fn read_extent(info: &DeviceInfo, lba: u64, count: u8) -> (r: Result<(u64, usize), StorageError>)
    ensures
        match r {
            Ok((offset, length)) => range_ok(lba, count as nat, info.total_sectors) && offset == lba
                * info.sector_size && length == count * info.sector_size,
            Err(StorageError::OutOfRange { lba: l, max }) => !range_ok(
                lba,
                count as nat,
                info.total_sectors,
            ) && l == lba && max == info.total_sectors,
            Err(StorageError::Backend(_)) => range_ok(lba, count as nat, info.total_sectors) && (lba
                * info.sector_size > u64::MAX || count * info.sector_size > usize::MAX),
            Err(_) => false,
        },
{
    if lba > info.total_sectors || count as u64 > info.total_sectors - lba {
        return Err(StorageError::OutOfRange { lba, max: info.total_sectors });
    }
    let offset = match lba.checked_mul(info.sector_size as u64) {
        Some(offset) => offset,
        None => {
            return Err(StorageError::Backend("offset does not fit".to_owned()));
        },
    };
    assert(count as u64 * info.sector_size as u64 <= 255 * 0xFFFF_FFFF) by (nonlinear_arith)
        requires
            count <= 255,
            info.sector_size <= 0xFFFF_FFFF,
    ;
    let length: u64 = count as u64 * info.sector_size as u64;
    if length > usize::MAX as u64 {
        return Err(StorageError::Backend("length does not fit".to_owned()));
    }
    Ok((offset, length as usize))
}

/// The offset in the file at which a write of `data_len` bytes from `lba`
/// starts. Data that is not a whole number of sectors is refused with
/// `Backend`, a request past the end of the device with `OutOfRange`.
pub fn write_extent(info: &DeviceInfo, lba: u64, data_len: usize) -> (r: Result<u64, StorageError>)
    requires
        info.sector_size == 512,
        info.total_sectors * 512 <= u64::MAX,
    ensures
        match r {
            Ok(offset) => data_len % 512 == 0 && range_ok(
                lba,
                (data_len / 512) as nat,
                info.total_sectors,
            ) && offset == lba * 512,
            Err(StorageError::OutOfRange { lba: l, max }) => data_len % 512 == 0 && !range_ok(
                lba,
                (data_len / 512) as nat,
                info.total_sectors,
            ) && l == lba && max == info.total_sectors,
            Err(StorageError::Backend(_)) => data_len % 512 != 0,
            Err(_) => false,
        },
{
    if data_len % 512 != 0 {
        return Err(StorageError::Backend("data is not a whole number of sectors".to_owned()));
    }
    let count: u64 = (data_len / 512) as u64;
    if lba > info.total_sectors || count > info.total_sectors - lba {
        return Err(StorageError::OutOfRange { lba, max: info.total_sectors });
    }
    Ok(lba * 512)
}

} // verus!
