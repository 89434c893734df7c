//! The server configuration and the rules that it has to meet.

use vstd::prelude::*;

verus! {

/// Why a configuration is refused.
#[derive(Debug)]
pub enum ConfigError {
    /// The file could not be read.
    Io(String),
    /// The text is not a configuration.
    Parse(String),
    /// The configuration breaks a rule; the string says which.
    Invalid(String),
}

/// The configuration of a server.
#[derive(Debug, Clone)]
pub struct Config {
    /// Server settings.
    pub server: ServerConfig,
    /// The targets.
    pub target: Vec<TargetConfig>,
}

/// Server settings.
#[derive(Debug, Clone)]
pub struct ServerConfig {
    /// Network interface to listen on.
    pub interface: String,
    /// Log level: trace, debug, info, warn, error or off.
    pub log_level: String,
}

/// One target.
#[derive(Debug, Clone)]
pub struct TargetConfig {
    /// Shelf address.
    pub shelf: u16,
    /// Slot address.
    pub slot: u8,
    /// Which backend serves the target.
    pub backend: BackendType,
    /// Settings of the file backend.
    pub file: Option<FileBackendConfig>,
    /// Settings of the content-addressed backend.
    pub cas: Option<CasBackendConfig>,
    /// Config string that discovery reports.
    pub config_string: String,
}

/// The kinds of backend.
#[derive(Debug, Clone, Copy, PartialEq, Eq, Structural)]
pub enum BackendType {
    File,
    Cas,
}

/// Settings of the file backend.
#[derive(Debug, Clone)]
pub struct FileBackendConfig {
    /// Path of the file.
    pub path: String,
    /// Size in bytes to create the file with or to grow it to.
    pub size: Option<u64>,
}

/// Settings of the content-addressed backend.
#[derive(Debug, Clone)]
pub struct CasBackendConfig {
    /// Block size in bytes.
    pub block_size: u32,
    /// Number of sectors.
    pub total_sectors: u64,
    /// The blob store.
    pub blob_store: BlobStoreConfig,
}

/// Settings of a blob store.
#[derive(Debug, Clone)]
pub enum BlobStoreConfig {
    /// Blobs are files under a directory.
    File { path: String },
}

/// The log level of a configuration that names none.
pub fn default_log_level() -> (level: String)
    ensures
        level@ == "info"@,
{
    "info".to_owned()
}

/// The block size of a configuration that names none.
pub fn default_block_size() -> (size: u32)
    ensures
        size == 4096,
{
    4096
}

/// The target has the settings of the backend that serves it.
pub open spec fn has_backend_section(target: TargetConfig) -> bool {
    match target.backend {
        BackendType::File => target.file is Some,
        BackendType::Cas => target.cas is Some,
    }
}

/// Targets `i` and `j` have the same address.
pub open spec fn same_address(targets: Seq<TargetConfig>, i: int, j: int) -> bool {
    targets[i].shelf == targets[j].shelf && targets[i].slot == targets[j].slot
}

/// No two targets share an address and every target has the settings of its
/// backend.
pub open spec fn targets_valid(targets: Seq<TargetConfig>) -> bool {
    &&& forall|i: int, j: int|
        0 <= i < j < targets.len() ==> !#[trigger] same_address(targets, i, j)
    &&& forall|i: int| 0 <= i < targets.len() ==> has_backend_section(#[trigger] targets[i])
}

impl Config {
    /// Checks the rules: an address that two targets share is refused, and
    /// so is a target without the settings of its backend.
    pub fn validate(&self) -> (r: Result<(), ConfigError>)
        ensures
            r is Ok <==> targets_valid(self.target@),
            r is Err ==> r->Err_0 is Invalid,
    {
        let n: usize = self.target.len();
        let mut j: usize = 0;
        while j < n
            invariant
                j <= n,
                n == self.target@.len(),
                forall|a: int, b: int| 0 <= a < b < j ==> !#[trigger] same_address(
                    self.target@,
                    a,
                    b,
                ),
                forall|a: int| 0 <= a < j ==> has_backend_section(#[trigger] self.target@[a]),
            decreases n - j,
        {
            let target = &self.target[j];
            let mut i: usize = 0;
            while i < j
                invariant
                    i <= j < n,
                    n == self.target@.len(),
                    forall|a: int| 0 <= a < i ==> !#[trigger] same_address(
                        self.target@,
                        a,
                        j as int,
                    ),
                decreases j - i,
            {
                if self.target[i].shelf == self.target[j].shelf && self.target[i].slot
                    == self.target[j].slot {
                    assert(same_address(self.target@, i as int, j as int));
                    return Err(ConfigError::Invalid("duplicate target".to_owned()));
                }
                i += 1;
            }
            let present = match target.backend {
                BackendType::File => target.file.is_some(),
                BackendType::Cas => target.cas.is_some(),
            };
            if !present {
                assert(!has_backend_section(self.target@[j as int]));
                return Err(
                    ConfigError::Invalid("backend requires its configuration section".to_owned()),
                );
            }
            j += 1;
        }
        Ok(())
    }
}

} // verus!
