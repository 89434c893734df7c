//! ATA-over-Ethernet block server core with a content-addressed storage backend.
//!
//! The crate holds the protocol codec, the target manager, the Merkle-indexed
//! block backend and the byte-level parts of the NBD front-end. Every function
//! carries a contract that Verus proves.

pub mod blob;
pub mod bytes;
pub mod config;
pub mod hextext;
pub mod protocol;
pub mod storage;
pub mod server;
pub mod nbd;
