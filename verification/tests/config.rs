use aoe_server::config::{
    default_block_size, default_log_level, BackendType, BlobStoreConfig, CasBackendConfig, Config,
    ConfigError, FileBackendConfig, ServerConfig, TargetConfig,
};

fn file_target(shelf: u16, slot: u8, path: &str) -> TargetConfig {
    TargetConfig {
        shelf,
        slot,
        backend: BackendType::File,
        file: Some(FileBackendConfig { path: path.to_string(), size: None }),
        cas: None,
        config_string: String::new(),
    }
}

fn config(target: Vec<TargetConfig>) -> Config {
    Config {
        server: ServerConfig { interface: "eth0".to_string(), log_level: default_log_level() },
        target,
    }
}

#[test]
fn test_parse_minimal_config() {
    let config = config(vec![file_target(1, 0, "/data/disk.img")]);
    assert!(config.validate().is_ok());
    assert_eq!(config.server.interface, "eth0");
    assert_eq!(config.target.len(), 1);
    assert_eq!(config.target[0].shelf, 1);
    assert_eq!(config.target[0].slot, 0);
}

#[test]
fn test_parse_cas_config() {
    let mut config = config(vec![TargetConfig {
        shelf: 1,
        slot: 0,
        backend: BackendType::Cas,
        file: None,
        cas: Some(CasBackendConfig {
            block_size: 4096,
            total_sectors: 2097152,
            blob_store: BlobStoreConfig::File { path: "/data/blobs".to_string() },
        }),
        config_string: "archive-1".to_string(),
    }]);
    config.server.log_level = "debug".to_string();
    assert!(config.validate().is_ok());
    assert_eq!(config.server.log_level, "debug");
    assert_eq!(config.target[0].backend, BackendType::Cas);
    let cas = config.target[0].cas.as_ref().unwrap();
    assert_eq!(cas.total_sectors, 2097152);
}

#[test]
fn test_duplicate_target_error() {
    let config =
        config(vec![file_target(1, 0, "/data/disk1.img"), file_target(1, 0, "/data/disk2.img")]);
    let result = config.validate();
    assert!(matches!(result, Err(ConfigError::Invalid(_))));
}

#[test]
fn test_missing_backend_config_error() {
    let mut target = file_target(1, 0, "/data/disk.img");
    target.file = None;
    let result = config(vec![target]).validate();
    assert!(matches!(result, Err(ConfigError::Invalid(_))));
}

#[test]
fn defaults() {
    assert_eq!(default_log_level(), "info");
    assert_eq!(default_block_size(), 4096);
}

#[test]
fn targets_may_share_a_shelf_or_a_slot() {
    let config = config(vec![
        file_target(1, 0, "a"),
        file_target(1, 1, "b"),
        file_target(2, 0, "c"),
    ]);
    assert!(config.validate().is_ok());
    assert!(self::config(Vec::new()).validate().is_ok());
}

#[test]
fn section_of_the_other_backend_does_not_count() {
    let mut target = file_target(1, 0, "a");
    target.backend = BackendType::Cas;
    assert!(matches!(config(vec![target]).validate(), Err(ConfigError::Invalid(_))));
    let late = config(vec![file_target(1, 0, "a"), file_target(2, 0, "b"), file_target(1, 0, "c")]);
    assert!(matches!(late.validate(), Err(ConfigError::Invalid(_))));
}
