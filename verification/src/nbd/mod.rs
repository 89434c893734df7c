//! The byte-level side of the NBD front-end: requests, replies, the
//! newstyle handshake and the handling of requests against a block device.

pub mod protocol;
pub mod server;

pub use protocol::{NbdCommand, NbdReply, NbdRequest};
pub use server::{NbdServer, NbdServerConfig};
