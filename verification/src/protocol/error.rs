//! Protocol-level errors and their response codes.

use super::parse::ParseError;
use crate::storage::StorageError;
use vstd::prelude::*;

verus! {

/// Why a request could not be served.
#[derive(Debug)]
pub enum AoeError {
    /// The frame could not be parsed.
    Parse(ParseError),
    /// The command code is not known.
    UnrecognizedCommand(u8),
    /// An argument is unacceptable; the string says which.
    BadArgument(String),
    /// The target does not answer this request.
    DeviceUnavailable,
    /// The config string is set and cannot be changed.
    ConfigStringPresent,
    /// The protocol version is not supported.
    UnsupportedVersion(u8),
    /// The target is reserved.
    TargetReserved,
    /// The storage backend failed.
    Storage(StorageError),
}

impl AoeError {
    /// The error code that a response frame carries for this error: 1 for an
    /// unrecognized command, 2 for a bad argument or a parse error, 3 for an
    /// unavailable device or a storage error, 4 for a config string that is
    /// present, 5 for an unsupported version, 6 for a reserved target.
    pub open spec fn code(self) -> u8 {
        match self {
            AoeError::Parse(_) => 2,
            AoeError::UnrecognizedCommand(_) => 1,
            AoeError::BadArgument(_) => 2,
            AoeError::DeviceUnavailable => 3,
            AoeError::ConfigStringPresent => 4,
            AoeError::UnsupportedVersion(_) => 5,
            AoeError::TargetReserved => 6,
            AoeError::Storage(_) => 3,
        }
    }

    /// The error code that a response frame carries for this error.
    pub fn to_error_code(&self) -> (c: u8)
        ensures
            c == self.code(),
            1 <= c <= 6,
    {
        match self {
            AoeError::Parse(_) => 2,
            AoeError::UnrecognizedCommand(_) => 1,
            AoeError::BadArgument(_) => 2,
            AoeError::DeviceUnavailable => 3,
            AoeError::ConfigStringPresent => 4,
            AoeError::UnsupportedVersion(_) => 5,
            AoeError::TargetReserved => 6,
            AoeError::Storage(_) => 3,
        }
    }
}

} // verus!
