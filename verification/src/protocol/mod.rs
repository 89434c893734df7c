//! The AoE wire protocol: frame types, parsing, response building and ATA
//! command handling.

pub mod ata;
pub mod builder;
pub mod error;
pub mod laws;
pub mod parse;
pub mod types;

pub use ata::{build_identify_data, copy_ata_string, handle_ata_command, AtaResponse};
pub use builder::{
    build_ata_response, build_config_response, build_error_response, build_response,
    ConfigResponse, ResponseData,
};
pub use error::AoeError;
pub use parse::{parse_frame, ParseError};
pub use types::{
    AoeCommand, AoeFlags, AoeFrame, AoeHeader, AoePayload, AtaCommand, AtaFlags, AtaHeader,
    ConfigCommand, ConfigHeader, AOE_ETHERTYPE, AOE_VERSION, BROADCAST_MAC, BROADCAST_SHELF,
    BROADCAST_SLOT, MAX_SECTORS_JUMBO, MAX_SECTORS_STANDARD, SECTOR_SIZE,
};
