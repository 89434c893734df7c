//! Wire-format types and constants of the AoE protocol.

use vstd::prelude::*;

verus! {

/// EtherType of AoE frames.
pub const AOE_ETHERTYPE: u16 = 0x88A2;

/// Protocol version carried in the low nibble of the first header byte.
pub const AOE_VERSION: u8 = 1;

/// Broadcast MAC address.
pub const BROADCAST_MAC: [u8; 6] = [0xFF, 0xFF, 0xFF, 0xFF, 0xFF, 0xFF];

/// Shelf value that addresses every shelf.
pub const BROADCAST_SHELF: u16 = 0xFFFF;

/// Slot value that addresses every slot.
pub const BROADCAST_SLOT: u8 = 0xFF;

/// Sectors per command that fit a standard Ethernet frame.
pub const MAX_SECTORS_STANDARD: u8 = 2;

/// Sectors per command that fit a jumbo frame.
pub const MAX_SECTORS_JUMBO: u8 = 16;

/// Sector size in bytes.
pub const SECTOR_SIZE: usize = 512;

/// ATA status register: error.
pub const ATA_STATUS_ERR: u8 = 0x01;

/// ATA status register: data request.
pub const ATA_STATUS_DRQ: u8 = 0x08;

/// ATA status register: device fault.
pub const ATA_STATUS_DF: u8 = 0x20;

/// ATA status register: device ready.
pub const ATA_STATUS_DRDY: u8 = 0x40;

/// ATA status register: busy.
pub const ATA_STATUS_BSY: u8 = 0x80;

/// ATA error register: address mark not found.
pub const ATA_ERROR_AMNF: u8 = 0x01;

/// ATA error register: track 0 not found.
pub const ATA_ERROR_TK0NF: u8 = 0x02;

/// ATA error register: command aborted.
pub const ATA_ERROR_ABRT: u8 = 0x04;

/// ATA error register: media change request.
pub const ATA_ERROR_MCR: u8 = 0x08;

/// ATA error register: sector id not found.
pub const ATA_ERROR_IDNF: u8 = 0x10;

/// ATA error register: media changed.
pub const ATA_ERROR_MC: u8 = 0x20;

/// ATA error register: uncorrectable data error.
pub const ATA_ERROR_UNC: u8 = 0x40;

/// ATA error register: bad block.
pub const ATA_ERROR_BBK: u8 = 0x80;

/// Size of the Ethernet header plus the common AoE header.
pub const AOE_HEADER_SIZE: usize = 24;

/// Size of the ATA header that follows the common header.
pub const ATA_HEADER_SIZE: usize = 12;

/// Size of the fixed part of the config header.
pub const CONFIG_HEADER_MIN_SIZE: usize = 8;

/// Command class of an AoE frame.
#[derive(Debug, Clone, Copy, PartialEq, Eq, Structural)]
pub enum AoeCommand {
    Ata,
    Config,
}

impl AoeCommand {
    /// The command whose wire code is `value`, if there is one.
    pub open spec fn of_code(value: u8) -> Option<AoeCommand> {
        if value == 0 {
            Some(AoeCommand::Ata)
        } else if value == 1 {
            Some(AoeCommand::Config)
        } else {
            None
        }
    }

    /// The wire code: 0 for ATA, 1 for Config.
    pub open spec fn code(self) -> u8 {
        match self {
            AoeCommand::Ata => 0,
            AoeCommand::Config => 1,
        }
    }

    /// Decodes a wire code; an unknown code comes back as the error.
    pub fn try_from(value: u8) -> (r: Result<AoeCommand, u8>)
        ensures
            match r {
                Ok(c) => AoeCommand::of_code(value) == Some(c),
                Err(v) => AoeCommand::of_code(value) is None && v == value,
            },
    {
        match value {
            0 => Ok(AoeCommand::Ata),
            1 => Ok(AoeCommand::Config),
            other => Err(other),
        }
    }

    /// Encodes the command as its wire code.
    pub fn to_byte(self) -> (b: u8)
        ensures
            b == self.code(),
            AoeCommand::of_code(b) == Some(self),
    {
        match self {
            AoeCommand::Ata => 0,
            AoeCommand::Config => 1,
        }
    }
}

/// Flags in the high nibble of the first header byte.
#[derive(Debug, Clone, Copy, PartialEq, Eq, Structural)]
pub struct AoeFlags {
    /// Response flag (bit 3 of the nibble).
    pub response: bool,
    /// Error flag (bit 2 of the nibble).
    pub error: bool,
}

impl Default for AoeFlags {
    fn default() -> (f: AoeFlags)
        ensures
            !f.response,
            !f.error,
    {
        AoeFlags { response: false, error: false }
    }
}

impl AoeFlags {
    /// The first header byte for these flags and a version: R is worth 0x80,
    /// E is worth 0x40 and the version fills the low nibble.
    pub open spec fn wire_byte(self, version: u8) -> u8 {
        ((if self.response { 0x80int } else { 0 }) + (if self.error { 0x40int } else { 0 })
            + (version as int) % 16) as u8
    }

    /// Reads the flags from a nibble that was already shifted down.
    pub fn from_byte(flags_nibble: u8) -> (f: AoeFlags)
        ensures
            f.response == (flags_nibble & 0x08 != 0),
            f.error == (flags_nibble & 0x04 != 0),
    {
        AoeFlags { response: (flags_nibble & 0x08) != 0, error: (flags_nibble & 0x04) != 0 }
    }

    /// Packs the flags into the high nibble and `version` into the low one.
    pub fn to_byte(&self, version: u8) -> (b: u8)
        ensures
            b == self.wire_byte(version),
    {
        let flags_nibble: u8 = if self.response {
            if self.error {
                0x0C
            } else {
                0x08
            }
        } else if self.error {
            0x04
        } else {
            0
        };
        proof {
            lemma_flag_byte(flags_nibble, version);
        }
        (flags_nibble << 4) | (version & 0x0F)
    }
}

/// A flag nibble packed above a version reads as `16 * nibble + version % 16`,
/// and both parts can be taken out of the byte again.
pub proof fn lemma_flag_byte(n: u8, version: u8)
    by (bit_vector)
    requires
        n == 0 || n == 0x04 || n == 0x08 || n == 0x0C,
    ensures
        ((n << 4) | (version & 0x0F)) == 16 * n + version % 16,
        ((n << 4) | (version & 0x0F)) & 0x0F == version % 16,
        ((n << 4) | (version & 0x0F)) >> 4 == n,
        (n & 0x08 != 0) == (n == 0x08 || n == 0x0C),
        (n & 0x04 != 0) == (n == 0x04 || n == 0x0C),
{
}

/// Common AoE header together with the Ethernet addresses of the frame.
#[derive(Debug, Clone)]
pub struct AoeHeader {
    /// Destination MAC address.
    pub dst_mac: [u8; 6],
    /// Source MAC address.
    pub src_mac: [u8; 6],
    /// Protocol version.
    pub version: u8,
    /// Flags.
    pub flags: AoeFlags,
    /// Error code, meaningful when the error flag is set.
    pub error: u8,
    /// Shelf (major) address.
    pub shelf: u16,
    /// Slot (minor) address.
    pub slot: u8,
    /// Command class.
    pub command: AoeCommand,
    /// Tag that pairs a response with its request.
    pub tag: u32,
}

/// A frame sent to `(frame_shelf, frame_slot)` reaches the target at
/// `(shelf, slot)` when each part is equal or is the broadcast value.
pub open spec fn address_match(frame_shelf: u16, frame_slot: u8, shelf: u16, slot: u8) -> bool {
    (frame_shelf == shelf || frame_shelf == 0xFFFF) && (frame_slot == slot || frame_slot == 0xFF)
}

impl AoeHeader {
    /// Total size of the Ethernet header and the common AoE header.
    pub const SIZE: usize = 24;

    /// True when this header addresses the target at `(shelf, slot)`.
    pub fn addresses_target(&self, shelf: u16, slot: u8) -> (m: bool)
        ensures
            m == address_match(self.shelf, self.slot, shelf, slot),
    {
        let shelf_match = self.shelf == shelf || self.shelf == BROADCAST_SHELF;
        let slot_match = self.slot == slot || self.slot == BROADCAST_SLOT;
        shelf_match && slot_match
    }
}

/// Flags in the first byte of the ATA header.
#[derive(Debug, Clone, Copy, PartialEq, Eq, Structural)]
pub struct AtaFlags {
    /// Extended (LBA48) command, bit 6.
    pub extended: bool,
    /// Device/head register flag, bit 5.
    pub device: bool,
    /// Asynchronous write, bit 1.
    pub async_write: bool,
    /// Write direction: data follows the header, bit 0.
    pub write: bool,
}

impl Default for AtaFlags {
    fn default() -> (f: AtaFlags)
        ensures
            f == (AtaFlags { extended: false, device: false, async_write: false, write: false }),
    {
        AtaFlags { extended: false, device: false, async_write: false, write: false }
    }
}

impl AtaFlags {
    /// The flag byte: the sum of the bits that are set.
    pub open spec fn wire_byte(self) -> u8 {
        ((if self.extended { 0x40int } else { 0 }) + (if self.device { 0x20int } else { 0 }) + (
        if self.async_write { 0x02int } else { 0 }) + (if self.write { 0x01int } else { 0 })) as u8
    }

    /// The flags that a byte holds; the other bits are ignored.
    pub open spec fn of_byte(byte: u8) -> AtaFlags {
        AtaFlags {
            extended: byte & 0x40 != 0,
            device: byte & 0x20 != 0,
            async_write: byte & 0x02 != 0,
            write: byte & 0x01 != 0,
        }
    }

    /// Reads the flags from the first ATA header byte.
    pub fn from_byte(byte: u8) -> (f: AtaFlags)
        ensures
            f == AtaFlags::of_byte(byte),
    {
        AtaFlags {
            extended: (byte & 0x40) != 0,
            device: (byte & 0x20) != 0,
            async_write: (byte & 0x02) != 0,
            write: (byte & 0x01) != 0,
        }
    }

    /// Packs the flags into one byte.
    pub fn to_byte(&self) -> (b: u8)
        ensures
            b == self.wire_byte(),
            AtaFlags::of_byte(b) == *self,
    {
        let e: u8 = if self.extended { 0x40 } else { 0 };
        let d: u8 = if self.device { 0x20 } else { 0 };
        let a: u8 = if self.async_write { 0x02 } else { 0 };
        let w: u8 = if self.write { 0x01 } else { 0 };
        proof {
            lemma_ata_flag_byte(e, d, a, w);
        }
        e | d | a | w
    }
}

/// Four distinct flag bits joined with `|` add up, and each can be tested
/// with `&` afterwards.
pub proof fn lemma_ata_flag_byte(e: u8, d: u8, a: u8, w: u8)
    by (bit_vector)
    requires
        e == 0 || e == 0x40,
        d == 0 || d == 0x20,
        a == 0 || a == 0x02,
        w == 0 || w == 0x01,
    ensures
        (e | d | a | w) == e + d + a + w,
        ((e | d | a | w) & 0x40 != 0) == (e == 0x40),
        ((e | d | a | w) & 0x20 != 0) == (d == 0x20),
        ((e | d | a | w) & 0x02 != 0) == (a == 0x02),
        ((e | d | a | w) & 0x01 != 0) == (w == 0x01),
{
}

/// ATA commands that the server understands.
#[derive(Debug, Clone, Copy, PartialEq, Eq, Structural)]
pub enum AtaCommand {
    ReadSectors,
    ReadSectorsExt,
    WriteSectors,
    WriteSectorsExt,
    IdentifyDevice,
    FlushCache,
    FlushCacheExt,
}

impl AtaCommand {
    /// The command whose code is `value`, if there is one.
    pub open spec fn of_code(value: u8) -> Option<AtaCommand> {
        if value == 0x20 {
            Some(AtaCommand::ReadSectors)
        } else if value == 0x24 {
            Some(AtaCommand::ReadSectorsExt)
        } else if value == 0x30 {
            Some(AtaCommand::WriteSectors)
        } else if value == 0x34 {
            Some(AtaCommand::WriteSectorsExt)
        } else if value == 0xEC {
            Some(AtaCommand::IdentifyDevice)
        } else if value == 0xE7 {
            Some(AtaCommand::FlushCache)
        } else if value == 0xEA {
            Some(AtaCommand::FlushCacheExt)
        } else {
            None
        }
    }

    /// Decodes a command code; an unknown code comes back as the error.
    pub fn try_from(value: u8) -> (r: Result<AtaCommand, u8>)
        ensures
            match r {
                Ok(c) => AtaCommand::of_code(value) == Some(c),
                Err(v) => AtaCommand::of_code(value) is None && v == value,
            },
    {
        match value {
            0x20 => Ok(AtaCommand::ReadSectors),
            0x24 => Ok(AtaCommand::ReadSectorsExt),
            0x30 => Ok(AtaCommand::WriteSectors),
            0x34 => Ok(AtaCommand::WriteSectorsExt),
            0xEC => Ok(AtaCommand::IdentifyDevice),
            0xE7 => Ok(AtaCommand::FlushCache),
            0xEA => Ok(AtaCommand::FlushCacheExt),
            other => Err(other),
        }
    }

    /// The name of the command as the ATA standard writes it.
    pub fn name(&self) -> (s: &'static str)
        ensures
            s@ == match self {
                AtaCommand::ReadSectors => "READ SECTORS"@,
                AtaCommand::ReadSectorsExt => "READ SECTORS EXT"@,
                AtaCommand::WriteSectors => "WRITE SECTORS"@,
                AtaCommand::WriteSectorsExt => "WRITE SECTORS EXT"@,
                AtaCommand::IdentifyDevice => "IDENTIFY DEVICE"@,
                AtaCommand::FlushCache => "FLUSH CACHE"@,
                AtaCommand::FlushCacheExt => "FLUSH CACHE EXT"@,
            },
    {
        match self {
            AtaCommand::ReadSectors => "READ SECTORS",
            AtaCommand::ReadSectorsExt => "READ SECTORS EXT",
            AtaCommand::WriteSectors => "WRITE SECTORS",
            AtaCommand::WriteSectorsExt => "WRITE SECTORS EXT",
            AtaCommand::IdentifyDevice => "IDENTIFY DEVICE",
            AtaCommand::FlushCache => "FLUSH CACHE",
            AtaCommand::FlushCacheExt => "FLUSH CACHE EXT",
        }
    }
}

/// ATA header: the twelve bytes after the common header.
#[derive(Debug, Clone)]
pub struct AtaHeader {
    /// ATA flags.
    pub flags: AtaFlags,
    /// Error register in a response, feature register in a request.
    pub err_feature: u8,
    /// Sector count.
    pub sector_count: u8,
    /// Command register in a request, status register in a response.
    pub cmd_status: u8,
    /// Logical block address, 48 bits.
    pub lba: u64,
}

impl AtaHeader {
    /// Size of the ATA header.
    pub const SIZE: usize = 12;

    /// The address as a 48-bit value.
    pub fn lba48(&self) -> (l: u64)
        ensures
            l == self.lba % 0x1_0000_0000_0000,
    {
        let lba: u64 = self.lba;
        assert(lba & 0x0000_FFFF_FFFF_FFFF == lba % 0x1_0000_0000_0000) by (bit_vector);
        lba & 0x0000_FFFF_FFFF_FFFF
    }

    /// The address as a 28-bit value.
    pub fn lba28(&self) -> (l: u32)
        ensures
            l == self.lba % 0x1000_0000,
    {
        let lba: u64 = self.lba;
        assert(lba & 0x0FFF_FFFF == lba % 0x1000_0000) by (bit_vector);
        (lba & 0x0FFF_FFFF) as u32
    }
}

/// Sub-commands of the Config command.
#[derive(Debug, Clone, Copy, PartialEq, Eq, Structural)]
pub enum ConfigCommand {
    Read,
    TestExact,
    TestPrefix,
    SetConfig,
    ForceSet,
}

impl ConfigCommand {
    /// The sub-command whose code is `value`, if there is one.
    pub open spec fn of_code(value: u8) -> Option<ConfigCommand> {
        if value == 0 {
            Some(ConfigCommand::Read)
        } else if value == 1 {
            Some(ConfigCommand::TestExact)
        } else if value == 2 {
            Some(ConfigCommand::TestPrefix)
        } else if value == 3 {
            Some(ConfigCommand::SetConfig)
        } else if value == 4 {
            Some(ConfigCommand::ForceSet)
        } else {
            None
        }
    }

    /// Decodes a sub-command code; an unknown code comes back as the error.
    pub fn try_from(value: u8) -> (r: Result<ConfigCommand, u8>)
        ensures
            match r {
                Ok(c) => ConfigCommand::of_code(value) == Some(c),
                Err(v) => ConfigCommand::of_code(value) is None && v == value,
            },
    {
        match value {
            0 => Ok(ConfigCommand::Read),
            1 => Ok(ConfigCommand::TestExact),
            2 => Ok(ConfigCommand::TestPrefix),
            3 => Ok(ConfigCommand::SetConfig),
            4 => Ok(ConfigCommand::ForceSet),
            other => Err(other),
        }
    }
}

/// Config header: eight fixed bytes and the config string.
#[derive(Debug, Clone)]
pub struct ConfigHeader {
    /// Number of outstanding requests the server can take.
    pub buffer_count: u16,
    /// Firmware version.
    pub firmware_version: u16,
    /// Largest sector count per ATA command.
    pub sector_count: u8,
    /// AoE version in the high nibble, sub-command in the low nibble.
    pub aoe_ccmd: u8,
    /// Length of the config string.
    pub config_len: u16,
    /// The config string.
    pub config_string: Vec<u8>,
}

impl ConfigHeader {
    /// Size of the fixed part of the config header.
    pub const MIN_SIZE: usize = 8;

    /// The sub-command in the low nibble; an unknown code is the error.
    pub fn config_command(&self) -> (r: Result<ConfigCommand, u8>)
        ensures
            match r {
                Ok(c) => ConfigCommand::of_code(self.aoe_ccmd % 16) == Some(c),
                Err(v) => ConfigCommand::of_code(self.aoe_ccmd % 16) is None && v == self.aoe_ccmd
                    % 16,
            },
    {
        let b: u8 = self.aoe_ccmd;
        assert(b & 0x0F == b % 16) by (bit_vector);
        ConfigCommand::try_from(b & 0x0F)
    }

    /// The AoE version in the high nibble.
    pub fn aoe_version(&self) -> (v: u8)
        ensures
            v == self.aoe_ccmd / 16,
    {
        let b: u8 = self.aoe_ccmd;
        assert(b >> 4 == b / 16) by (bit_vector);
        b >> 4
    }
}

/// Payload of a frame, by command class.
#[derive(Debug, Clone)]
pub enum AoePayload {
    /// ATA header with the data that follows it.
    Ata { header: AtaHeader, data: Vec<u8> },
    /// Config header.
    Config(ConfigHeader),
}

/// A parsed AoE frame.
#[derive(Debug, Clone)]
pub struct AoeFrame {
    /// Common header.
    pub header: AoeHeader,
    /// Payload that belongs to the command class.
    pub payload: AoePayload,
}

} // verus!
