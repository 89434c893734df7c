//! Handling of NBD requests against a block device.

use super::protocol::{NbdCommand, NbdReply, NbdRequest, NBD_EINVAL, NBD_EIO};
use crate::storage::{BlockStorage, StorageError};
use vstd::prelude::*;
use vstd::slice::{slice_subrange, slice_to_vec};

verus! {

/// Where the server listens and what it exports.
pub struct NbdServerConfig {
    pub bind_addr: String,
    pub export_name: String,
}

impl Default for NbdServerConfig {
    fn default() -> (c: NbdServerConfig)
        ensures
            c.bind_addr@ == "127.0.0.1:10809"@,
            c.export_name@ == "cas-disk"@,
    {
        NbdServerConfig {
            bind_addr: "127.0.0.1:10809".to_owned(),
            export_name: "cas-disk".to_owned(),
        }
    }
}

/// An NBD server over one block device.
pub struct NbdServer<S: BlockStorage> {
    pub config: NbdServerConfig,
    pub storage: S,
}

/// What the server does after a request.
pub enum NbdStep {
    /// The reply is sent, followed by the data of a read.
    Reply { reply: NbdReply, data: Vec<u8> },
    /// The client asked to disconnect: nothing is sent.
    Disconnect,
}

/// The first sector that a request touches.
pub open spec fn first_lba(request: NbdRequest) -> u64 {
    request.offset / 512
}

/// The number of sectors that a request of `length` bytes covers.
pub open spec fn sectors_covered(length: u32) -> int {
    (length + 511) / 512
}

/// The bytes that a write hands to the device: the payload, and behind a
/// payload that ends inside a sector the rest of that sector, taken from
/// `last_sector` where the device could be read and zeros otherwise.
pub open spec fn write_image(payload: Seq<u8>, last_sector: Option<Seq<u8>>) -> Seq<u8> {
    let total = sectors_covered(payload.len() as u32) * 512;
    Seq::new(
        total as nat,
        |i: int|
            if i < payload.len() {
                payload[i]
            } else {
                match last_sector {
                    Some(s) => s[i - (total - 512)],
                    None => 0u8,
                }
            },
    )
}

/// `image` is what a write of `payload` from sector `lba` hands to the
/// device: the payload itself where it ends with a sector; otherwise the
/// payload followed by the rest of its last sector as the device holds it,
/// or by zeros where that sector could not be read.
pub open spec fn is_write_image<S: BlockStorage>(
    storage: &S,
    lba: u64,
    payload: Seq<u8>,
    image: Seq<u8>,
) -> bool {
    if payload.len() % 512 == 0 {
        image == payload
    } else {
        let last_lba = lba + sectors_covered(payload.len() as u32) - 1;
        image == write_image(payload, None) || (last_lba <= u64::MAX && image == write_image(
            payload,
            Some(storage.sectors(last_lba as u64, 1)),
        ))
    }
}

/// `reply` and `data` answer a read: `EINVAL` for more than 255 sectors;
/// otherwise success with the first `length` bytes of the sectors that the
/// request covers, or `EIO`. Data is sent with success only.
pub open spec fn read_outcome<S: BlockStorage>(
    storage: &S,
    request: NbdRequest,
    reply: NbdReply,
    data: Seq<u8>,
) -> bool {
    &&& reply.magic == 0x67446698
    &&& reply.handle == request.handle
    &&& if sectors_covered(request.length) > 255 {
        reply.error == 22 && data.len() == 0
    } else {
        (reply.error == 0 && data == storage.sectors(
            first_lba(request),
            sectors_covered(request.length) as nat,
        ).subrange(0, request.length as int)) || (reply.error == 5 && data.len() == 0)
    }
}

/// `reply` answers a write of `payload`: `EINVAL` for more than 255
/// sectors, with the device as before; otherwise success with the image of
/// the payload written as the device says, or `EIO`.
pub open spec fn write_outcome<S: BlockStorage>(
    before: &S,
    after: &S,
    request: NbdRequest,
    payload: Seq<u8>,
    reply: NbdReply,
) -> bool {
    &&& reply.magic == 0x67446698
    &&& reply.handle == request.handle
    &&& after.device() == before.device()
    &&& if sectors_covered(request.length) > 255 {
        reply.error == 22 && after == before
    } else {
        reply.error == 5 || (reply.error == 0 && exists|image: Seq<u8>|
            is_write_image(before, first_lba(request), payload, image) && #[trigger] before.written_to(
                first_lba(request),
                image,
                after,
            ))
    }
}

/// `reply` answers a flush: success or `EIO`, and the device holds what it
/// held.
pub open spec fn flush_outcome<S: BlockStorage>(
    before: &S,
    after: &S,
    request: NbdRequest,
    reply: NbdReply,
) -> bool {
    &&& reply.magic == 0x67446698
    &&& reply.handle == request.handle
    &&& after.device() == before.device()
    &&& (reply.error == 0 || reply.error == 5)
    &&& forall|lba: u64, count: nat| #[trigger] after.sectors(lba, count) == before.sectors(lba, count)
}

/// The reply to a read, given what the device returned: success with the
/// first `length` bytes of what was read, or `EIO` without data.
pub fn read_reply(request: &NbdRequest, result: Result<Vec<u8>, StorageError>) -> (r: (
    NbdReply,
    Vec<u8>,
))
    requires
        result matches Ok(d) ==> d@.len() >= request.length,
    ensures
        r.0.magic == 0x67446698,
        r.0.handle == request.handle,
        match result {
            Ok(d) => r.0.error == 0 && r.1@ == d@.subrange(0, request.length as int),
            Err(_) => r.0.error == 5 && r.1@.len() == 0,
        },
{
    match result {
        Ok(data) => {
            let wanted = slice_to_vec(slice_subrange(data.as_slice(), 0, request.length as usize));
            (NbdReply::new(request.handle, 0), wanted)
        },
        Err(_) => (NbdReply::new(request.handle, NBD_EIO), Vec::new()),
    }
}

/// The reply to a write or a flush, given what the device returned: success
/// for success, `EIO` for a failure.
pub fn write_reply(handle: u64, result: Result<(), StorageError>) -> (r: NbdReply)
    ensures
        r.magic == 0x67446698,
        r.handle == handle,
        r.error == (if result is Ok {
            0u32
        } else {
            5u32
        }),
{
    match result {
        Ok(()) => NbdReply::new(handle, 0),
        Err(_) => NbdReply::new(handle, NBD_EIO),
    }
}

/// Fills a payload up to whole sectors, given what the read of its last
/// sector returned: behind the payload comes the rest of that sector as it
/// was read, or zeros where the read failed. A payload that ends with a
/// sector comes back as it is.
pub fn fill_last_sector(payload: &[u8], last: Result<Vec<u8>, StorageError>) -> (data: Vec<u8>)
    requires
        payload@.len() <= 255 * 512,
        last matches Ok(s) ==> s@.len() == 512,
    ensures
        data@ == write_image(
            payload@,
            match last {
                Ok(s) => Some(s@),
                Err(_) => None,
            },
        ),
        data@.len() == sectors_covered(payload@.len() as u32) * 512,
{
    let length: usize = payload.len();
    let sector_count: usize = (length + 511) / 512;
    let total: usize = sector_count * 512;
    let mut data: Vec<u8> = vec![0u8; total];
    let mut i: usize = 0;
    while i < length
        invariant
            i <= length,
            length == payload@.len(),
            length <= total,
            data@.len() == total,
            forall|k: int| 0 <= k < i ==> data@[k] == payload@[k],
            forall|k: int| i <= k < total ==> data@[k] == 0u8,
        decreases length - i,
    {
        data[i] = payload[i];
        i += 1;
    }
    match last {
        Ok(last_sector) => {
            if length % 512 != 0 {
                let partial: usize = length % 512;
                let base: usize = (sector_count - 1) * 512;
                let mut j: usize = partial;
                while j < 512
                    invariant
                        partial <= j <= 512,
                        partial == length % 512,
                        partial != 0,
                        base == total - 512,
                        base + partial == length,
                        length == payload@.len(),
                        data@.len() == total,
                        last_sector@.len() == 512,
                        forall|k: int| 0 <= k < length ==> data@[k] == payload@[k],
                        forall|k: int| length <= k < base + j ==> data@[k] == last_sector@[k - base],
                    decreases 512 - j,
                {
                    data[base + j] = last_sector[j];
                    j += 1;
                }
            }
            assert(data@ =~= write_image(payload@, Some(last_sector@)));
        },
        Err(_) => {
            assert(data@ =~= write_image(payload@, None));
        },
    }
    data
}

impl<S: BlockStorage> NbdServer<S> {
    /// A server with the given configuration over `storage`.
    pub fn new(config: NbdServerConfig, storage: S) -> (s: NbdServer<S>)
        ensures
            s.config == config,
            s.storage == storage,
    {
        NbdServer { config, storage }
    }

    /// The size of the export in bytes, if it fits in 64 bits.
    pub fn export_size(&self) -> (size: Option<u64>)
        requires
            self.storage.inv(),
        ensures
            match size {
                Some(s) => s == self.storage.device().total_sectors * 512,
                None => self.storage.device().total_sectors * 512 > u64::MAX,
            },
    {
        self.storage.info().total_sectors.checked_mul(512)
    }

    /// Answers a read, as `read_outcome` says. The offset is rounded down to
    /// a sector.
    pub fn handle_read(&self, request: &NbdRequest) -> (r: (NbdReply, Vec<u8>))
        requires
            self.storage.inv(),
        ensures
            read_outcome(&self.storage, *request, r.0, r.1@),
    {
        let lba: u64 = request.offset / 512;
        let sector_count: u64 = (request.length as u64 + 511) / 512;
        if sector_count > 255 {
            return (NbdReply::new(request.handle, NBD_EINVAL), Vec::new());
        }
        read_reply(request, self.storage.read(lba, sector_count as u8))
    }

    /// Answers a write of `payload`, which is as long as the request says,
    /// as `write_outcome` says. A payload that ends inside a sector is
    /// filled up from what the device holds there.
    pub fn handle_write(&mut self, request: &NbdRequest, payload: &[u8]) -> (r: NbdReply)
        requires
            old(self).storage.inv(),
            payload@.len() == request.length,
        ensures
            final(self).storage.inv(),
            final(self).config == old(self).config,
            write_outcome(&old(self).storage, &final(self).storage, *request, payload@, r),
    {
        let lba: u64 = request.offset / 512;
        let sector_count: u64 = (request.length as u64 + 511) / 512;
        if sector_count > 255 {
            return NbdReply::new(request.handle, NBD_EINVAL);
        }
        let data = self.padded(lba, payload);
        let written = self.storage.write(lba, data.as_slice());
        let reply = write_reply(request.handle, written);
        proof {
            assert(lba == first_lba(*request));
            assert(is_write_image(&old(self).storage, lba, payload@, data@));
            if reply.error == 0 {
                assert(old(self).storage.written_to(lba, data@, &final(self).storage));
            }
        }
        reply
    }

    /// Fills a payload up to whole sectors. For a payload that ends inside
    /// a sector, that sector is read from the device and `fill_last_sector`
    /// puts the payload and what was read together.
    fn padded(&self, lba: u64, payload: &[u8]) -> (data: Vec<u8>)
        requires
            self.storage.inv(),
            payload@.len() <= 255 * 512,
            lba <= u64::MAX / 512,
        ensures
            data@.len() == sectors_covered(payload@.len() as u32) * 512,
            is_write_image(&self.storage, lba, payload@, data@),
    {
        let length: usize = payload.len();
        if length % 512 == 0 {
            return slice_to_vec(payload);
        }
        let sector_count: usize = (length + 511) / 512;
        let last_sector_lba: u64 = lba + (sector_count - 1) as u64;
        fill_last_sector(payload, self.storage.read(last_sector_lba, 1))
    }

    /// Answers a flush, as `flush_outcome` says.
    pub fn handle_flush(&mut self, request: &NbdRequest) -> (r: NbdReply)
        requires
            old(self).storage.inv(),
        ensures
            final(self).storage.inv(),
            final(self).config == old(self).config,
            flush_outcome(&old(self).storage, &final(self).storage, *request, r),
    {
        write_reply(request.handle, self.storage.flush())
    }

    /// Handles one request of the transmission phase. `payload` is the data
    /// that follows a write request and is empty for every other request.
    ///
    /// A read, a write and a flush are answered as `read_outcome`,
    /// `write_outcome` and `flush_outcome` say. A trim is answered with
    /// success and changes nothing. A disconnect ends the connection
    /// without a reply. Every other command is answered with `EINVAL`.
    pub fn handle_request(&mut self, request: &NbdRequest, payload: &[u8]) -> (step: NbdStep)
        requires
            old(self).storage.inv(),
            NbdCommand::of_code((request.command % 0x1_0000) as u32) == Some(NbdCommand::Write)
                ==> payload@.len() == request.length,
        ensures
            final(self).storage.inv(),
            final(self).storage.device() == old(self).storage.device(),
            final(self).config == old(self).config,
            match NbdCommand::of_code((request.command % 0x1_0000) as u32) {
                Some(NbdCommand::Disc) => step is Disconnect && *final(self) == *old(self),
                Some(NbdCommand::Trim) => *final(self) == *old(self) && (step matches NbdStep::Reply {
                    reply,
                    data,
                } && reply.magic == 0x67446698 && reply.error == 0 && reply.handle == request.handle
                    && data@.len() == 0),
                Some(NbdCommand::Read) => *final(self) == *old(self) && (step matches NbdStep::Reply {
                    reply,
                    data,
                } && read_outcome(&old(self).storage, *request, reply, data@)),
                Some(NbdCommand::Write) => step matches NbdStep::Reply { reply, data }
                    && data@.len() == 0 && write_outcome(
                    &old(self).storage,
                    &final(self).storage,
                    *request,
                    payload@,
                    reply,
                ),
                Some(NbdCommand::Flush) => step matches NbdStep::Reply { reply, data }
                    && data@.len() == 0 && flush_outcome(
                    &old(self).storage,
                    &final(self).storage,
                    *request,
                    reply,
                ),
                _ => *final(self) == *old(self) && (step matches NbdStep::Reply { reply, data }
                    && reply.magic == 0x67446698 && reply.error == 22 && reply.handle
                    == request.handle && data@.len() == 0),
            },
    {
        match request.command_type() {
            Some(NbdCommand::Read) => {
                let (reply, data) = self.handle_read(request);
                NbdStep::Reply { reply, data }
            },
            Some(NbdCommand::Write) => {
                let reply = self.handle_write(request, payload);
                NbdStep::Reply { reply, data: Vec::new() }
            },
            Some(NbdCommand::Flush) => {
                let reply = self.handle_flush(request);
                NbdStep::Reply { reply, data: Vec::new() }
            },
            Some(NbdCommand::Disc) => NbdStep::Disconnect,
            Some(NbdCommand::Trim) => NbdStep::Reply {
                reply: NbdReply::new(request.handle, 0),
                data: Vec::new(),
            },
            _ => NbdStep::Reply {
                reply: NbdReply::new(request.handle, NBD_EINVAL),
                data: Vec::new(),
            },
        }
    }
}

} // verus!
