//! NBD wire format: handshake, option negotiation, requests and replies.
//! All integers on the wire are big-endian.

use crate::bytes::{
    be16_bytes, be32, be32_at, be32_bytes, be64, be64_at, be64_bytes, push_be16, push_be32,
    push_be64, push_zeros,
};
use vstd::prelude::*;

verus! {

/// `"NBDMAGIC"`.
pub const NBD_MAGIC: u64 = 0x4e42444d41474943;

/// `"IHAVEOPT"`.
pub const NBD_OPTS_MAGIC: u64 = 0x49484156454F5054;

/// Magic of an option reply.
pub const NBD_REPLY_MAGIC: u64 = 0x3e889045565a9;

/// Magic of a request.
pub const NBD_REQUEST_MAGIC: u32 = 0x25609513;

/// Magic of a simple reply.
pub const NBD_SIMPLE_REPLY_MAGIC: u32 = 0x67446698;

/// Magic of an option reply.
pub const NBD_OPT_REPLY_MAGIC: u64 = 0x3e889045565a9;

/// Magic of the oldstyle handshake.
pub const NBD_OLDSTYLE_MAGIC: u64 = 0x00420281861253;

/// Handshake flag: fixed newstyle.
pub const NBD_FLAG_FIXED_NEWSTYLE: u16 = 1;

/// Handshake flag: no padding after the export information.
pub const NBD_FLAG_NO_ZEROES: u16 = 2;

/// Client flag: fixed newstyle.
pub const NBD_FLAG_C_FIXED_NEWSTYLE: u32 = 1;

/// Client flag: no padding after the export information.
pub const NBD_FLAG_C_NO_ZEROES: u32 = 2;

/// Option: choose the export and end the negotiation.
pub const NBD_OPT_EXPORT_NAME: u32 = 1;

/// Option: give up.
pub const NBD_OPT_ABORT: u32 = 2;

/// Option: list the exports.
pub const NBD_OPT_LIST: u32 = 3;

/// Option reply: acknowledged.
pub const NBD_REP_ACK: u32 = 1;

/// Option reply: description of an export.
pub const NBD_REP_SERVER: u32 = 2;

/// Option reply: the option is not supported.
pub const NBD_REP_ERR_UNSUP: u32 = 0x8000_0001;

/// Transmission flag: the flags field is in use.
pub const NBD_FLAG_HAS_FLAGS: u16 = 1;

/// Transmission flag: the export is read-only.
pub const NBD_FLAG_READ_ONLY: u16 = 2;

/// Transmission flag: flush is supported.
pub const NBD_FLAG_SEND_FLUSH: u16 = 4;

/// Transmission flag: trim is supported.
pub const NBD_FLAG_SEND_TRIM: u16 = 32;

/// Transmission flag: write-zeroes is supported.
pub const NBD_FLAG_SEND_WRITE_ZEROES: u16 = 64;

/// Error number of a reply: input/output error.
pub const NBD_EIO: u32 = 5;

/// Error number of a reply: invalid argument.
pub const NBD_EINVAL: u32 = 22;

/// Size of a request on the wire.
pub const NBD_REQUEST_SIZE: usize = 28;

/// The commands of the transmission phase.
#[derive(Debug, Clone, Copy, PartialEq, Eq, Structural)]
pub enum NbdCommand {
    Read,
    Write,
    /// Disconnect.
    Disc,
    Flush,
    Trim,
    WriteZeroes,
}

impl NbdCommand {
    /// The command whose code is `val`, if there is one: 0 read, 1 write,
    /// 2 disconnect, 3 flush, 4 trim, 6 write-zeroes.
    pub open spec fn of_code(val: u32) -> Option<NbdCommand> {
        if val == 0 {
            Some(NbdCommand::Read)
        } else if val == 1 {
            Some(NbdCommand::Write)
        } else if val == 2 {
            Some(NbdCommand::Disc)
        } else if val == 3 {
            Some(NbdCommand::Flush)
        } else if val == 4 {
            Some(NbdCommand::Trim)
        } else if val == 6 {
            Some(NbdCommand::WriteZeroes)
        } else {
            None
        }
    }

    /// Decodes a command code.
    pub fn from_u32(val: u32) -> (r: Option<NbdCommand>)
        ensures
            r == NbdCommand::of_code(val),
    {
        match val {
            0 => Some(NbdCommand::Read),
            1 => Some(NbdCommand::Write),
            2 => Some(NbdCommand::Disc),
            3 => Some(NbdCommand::Flush),
            4 => Some(NbdCommand::Trim),
            6 => Some(NbdCommand::WriteZeroes),
            _ => None,
        }
    }
}

/// A request of the transmission phase.
#[derive(Debug)]
pub struct NbdRequest {
    pub magic: u32,
    pub command: u32,
    pub handle: u64,
    pub offset: u64,
    pub length: u32,
}

/// Why the bytes of a request could not be read.
#[derive(Debug, Clone, Copy, PartialEq, Eq, Structural)]
pub enum NbdRequestError {
    /// Fewer than 28 bytes.
    TooShort,
    /// The magic is not the request magic.
    InvalidMagic(u32),
}

impl NbdRequest {
    /// The request that 28 bytes encode: magic, command, handle, offset and
    /// length, in this order.
    pub open spec fn matches_bytes(self, bytes: Seq<u8>) -> bool
        recommends
            bytes.len() >= 28,
    {
        &&& self.magic == be32(bytes[0], bytes[1], bytes[2], bytes[3])
        &&& self.command == be32(bytes[4], bytes[5], bytes[6], bytes[7])
        &&& self.handle == be64(bytes.subrange(8, 16))
        &&& self.offset == be64(bytes.subrange(16, 24))
        &&& self.length == be32(bytes[24], bytes[25], bytes[26], bytes[27])
    }

    /// Reads a request from its 28 bytes. The magic is checked first.
    pub fn parse(bytes: &[u8]) -> (r: Result<NbdRequest, NbdRequestError>)
        ensures
            match r {
                Ok(request) => bytes@.len() >= 28 && request.magic == 0x25609513
                    && request.matches_bytes(bytes@),
                Err(NbdRequestError::TooShort) => bytes@.len() < 28,
                Err(NbdRequestError::InvalidMagic(m)) => bytes@.len() >= 28 && m != 0x25609513
                    && m == be32(bytes@[0], bytes@[1], bytes@[2], bytes@[3]),
            },
    {
        if bytes.len() < NBD_REQUEST_SIZE {
            return Err(NbdRequestError::TooShort);
        }
        let magic = be32_at(bytes, 0);
        if magic != NBD_REQUEST_MAGIC {
            return Err(NbdRequestError::InvalidMagic(magic));
        }
        let command = be32_at(bytes, 4);
        let handle = be64_at(bytes, 8);
        let offset = be64_at(bytes, 16);
        let length = be32_at(bytes, 24);
        Ok(NbdRequest { magic, command, handle, offset, length })
    }

    /// The command of the request: the low 16 bits of the command field
    /// name it, the high bits are flags.
    pub fn command_type(&self) -> (r: Option<NbdCommand>)
        ensures
            r == NbdCommand::of_code((self.command % 0x1_0000) as u32),
    {
        let c: u32 = self.command;
        assert(c & 0xffff == c % 0x1_0000) by (bit_vector);
        NbdCommand::from_u32(c & 0xffff)
    }
}

/// A simple reply.
#[derive(Debug)]
pub struct NbdReply {
    pub magic: u32,
    pub error: u32,
    pub handle: u64,
}

impl NbdReply {
    /// The reply to the request with handle `handle`.
    pub fn new(handle: u64, error: u32) -> (r: NbdReply)
        ensures
            r.magic == 0x67446698,
            r.error == error,
            r.handle == handle,
    {
        NbdReply { magic: NBD_SIMPLE_REPLY_MAGIC, error, handle }
    }

    /// The 16 bytes of the reply: magic, error and handle.
    pub open spec fn wire(self) -> Seq<u8> {
        be32_bytes(self.magic) + be32_bytes(self.error) + be64_bytes(self.handle)
    }

    /// Encodes the reply.
    pub fn to_bytes(&self) -> (out: Vec<u8>)
        ensures
            out@ == self.wire(),
            out@.len() == 16,
    {
        let mut out: Vec<u8> = Vec::new();
        push_be32(&mut out, self.magic);
        push_be32(&mut out, self.error);
        push_be64(&mut out, self.handle);
        out
    }
}

/// The oldstyle handshake: two magics, the export size, the flags and 124
/// bytes of padding.
pub open spec fn oldstyle_handshake(size: u64, flags: u16) -> Seq<u8> {
    be64_bytes(0x4e42444d41474943) + be64_bytes(0x00420281861253) + be64_bytes(size) + be16_bytes(
        flags,
    ) + Seq::new(124, |i: int| 0u8)
}

/// Encodes the oldstyle handshake.
pub fn handshake_oldstyle(size: u64, flags: u16) -> (out: Vec<u8>)
    ensures
        out@ == oldstyle_handshake(size, flags),
{
    let mut out: Vec<u8> = Vec::new();
    push_be64(&mut out, NBD_MAGIC);
    push_be64(&mut out, NBD_OLDSTYLE_MAGIC);
    push_be64(&mut out, size);
    push_be16(&mut out, flags);
    push_zeros(&mut out, 124);
    out
}

/// The greeting of the newstyle handshake: `"NBDMAGIC"`, `"IHAVEOPT"` and
/// the handshake flags fixed-newstyle and no-zeroes.
pub open spec fn newstyle_greeting() -> Seq<u8> {
    be64_bytes(0x4e42444d41474943) + be64_bytes(0x49484156454F5054) + be16_bytes(3)
}

/// Encodes the greeting of the newstyle handshake.
pub fn handshake_greeting() -> (out: Vec<u8>)
    ensures
        out@ == newstyle_greeting(),
{
    let mut out: Vec<u8> = Vec::new();
    push_be64(&mut out, NBD_MAGIC);
    push_be64(&mut out, NBD_OPTS_MAGIC);
    push_be16(&mut out, 3);
    out
}

/// What the server does with one option of the negotiation.
#[derive(Debug)]
pub enum OptionStep {
    /// The option magic is wrong: the connection fails.
    InvalidMagic(u64),
    /// The client gave up: the connection is closed.
    Abort,
    /// The export was chosen: the bytes are sent and the transmission phase
    /// begins.
    Export(Vec<u8>),
    /// The option is not supported: the bytes are sent and the negotiation
    /// goes on.
    Unsupported(Vec<u8>),
}

/// The export information: the size, the transmission flags and, unless
/// the client asked for no zeroes, 124 bytes of padding.
pub open spec fn export_info(size: u64, trans_flags: u16, client_flags: u32) -> Seq<u8> {
    be64_bytes(size) + be16_bytes(trans_flags) + (if client_flags & 2 == 0 {
        Seq::new(124, |i: int| 0u8)
    } else {
        Seq::<u8>::empty()
    })
}

/// The reply to an option that is not supported: the reply magic, the
/// option, the error and a length of zero.
pub open spec fn unsupported_reply(option: u32) -> Seq<u8> {
    be64_bytes(0x3e889045565a9) + be32_bytes(option) + be32_bytes(0x8000_0001) + be32_bytes(0)
}

/// Decides one step of the option negotiation from the header of the
/// option. The data of the option is read and dropped by the caller.
pub fn negotiate_option(
    opts_magic: u64,
    option: u32,
    client_flags: u32,
    size: u64,
    trans_flags: u16,
) -> (step: OptionStep)
    ensures
        opts_magic != 0x49484156454F5054 ==> step == OptionStep::InvalidMagic(opts_magic),
        opts_magic == 0x49484156454F5054 ==> match step {
            OptionStep::InvalidMagic(_) => false,
            OptionStep::Abort => option == 2,
            OptionStep::Export(bytes) => option == 1 && bytes@ == export_info(
                size,
                trans_flags,
                client_flags,
            ),
            OptionStep::Unsupported(bytes) => option != 1 && option != 2 && bytes@
                == unsupported_reply(option),
        },
{
    if opts_magic != NBD_OPTS_MAGIC {
        return OptionStep::InvalidMagic(opts_magic);
    }
    if option == NBD_OPT_EXPORT_NAME {
        let mut out: Vec<u8> = Vec::new();
        push_be64(&mut out, size);
        push_be16(&mut out, trans_flags);
        if (client_flags & NBD_FLAG_C_NO_ZEROES) == 0 {
            push_zeros(&mut out, 124);
        } else {
            assert(out@ + Seq::<u8>::empty() =~= out@);
        }
        OptionStep::Export(out)
    } else if option == NBD_OPT_ABORT {
        OptionStep::Abort
    } else {
        let mut out: Vec<u8> = Vec::new();
        push_be64(&mut out, NBD_OPT_REPLY_MAGIC);
        push_be32(&mut out, option);
        push_be32(&mut out, NBD_REP_ERR_UNSUP);
        push_be32(&mut out, 0);
        OptionStep::Unsupported(out)
    }
}

} // verus!
