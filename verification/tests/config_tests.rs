use gsd::config::{Config, ConfigError, TargetConfig};

fn target(path: &str, interval: u64, enabled: bool) -> TargetConfig {
    TargetConfig {
        path: path.to_string(),
        interval_seconds: interval,
        ignore_patterns: vec![],
        enabled,
    }
}

#[test]
fn test_validate_duplicate_paths() {
    let config = Config {
        targets: vec![
            TargetConfig {
                path: "/tmp/same".to_string(),
                interval_seconds: 60,
                ignore_patterns: vec![],
                enabled: true,
            },
            TargetConfig {
                path: "/tmp/same".to_string(),
                interval_seconds: 60,
                ignore_patterns: vec![],
                enabled: true,
            },
        ],
        ..Default::default()
    };
    assert!(config.validate().is_err());
}

#[test]
fn test_validate_relative_path() {
    let config = Config {
        targets: vec![TargetConfig {
            path: "relative/path".to_string(),
            interval_seconds: 60,
            ignore_patterns: vec![],
            enabled: true,
        }],
        ..Default::default()
    };
    assert!(config.validate().is_err());
}

#[test]
fn test_validate_accepts_good_config() {
    let config = Config {
        targets: vec![target("/tmp/a", 60, true), target("/tmp/b", 120, false)],
        ..Default::default()
    };
    assert!(config.validate().is_ok());
    assert!(config.validate_for_daemon(true).is_ok());
}

#[test]
fn test_validate_rejects_zero_interval() {
    let config = Config {
        targets: vec![target("/tmp/a", 0, true)],
        ..Default::default()
    };
    let err = config.validate().unwrap_err();
    assert!(matches!(err, ConfigError::Invalid(_)));
}

#[test]
fn test_validate_rejects_wrong_schema_version() {
    let config = Config {
        schema_version: "2".to_string(),
        ..Default::default()
    };
    assert!(config.validate().is_err());
}

#[test]
fn test_validate_for_daemon_requires_targets() {
    let config = Config::default();
    assert!(config.validate().is_ok());
    assert!(config.validate_for_daemon(true).is_err());
}

#[test]
fn test_add_and_remove_target() {
    let mut config = Config::default();
    config.add_target(target("/tmp/a", 60, true)).unwrap();
    assert!(config.add_target(target("/tmp/a", 90, true)).is_err());
    assert_eq!(config.targets.len(), 1);

    let key = "/tmp/a".to_string();
    assert!(config.find_target(&key).is_some());
    let removed = config.remove_target(&key).unwrap();
    assert_eq!(removed.interval_seconds, 60);
    assert!(config.find_target(&key).is_none());
    assert!(config.remove_target(&key).is_err());
}

#[test]
fn test_find_target_mut_updates_in_place() {
    let mut config = Config {
        targets: vec![target("/tmp/a", 60, true)],
        ..Default::default()
    };
    let key = "/tmp/a".to_string();
    let t = config.find_target_mut(&key).unwrap();
    t.enabled = false;
    assert!(!config.targets[0].enabled);

    let missing = "/tmp/missing".to_string();
    assert!(config.find_target_mut(&missing).is_none());
}

#[test]
fn test_target_name_is_last_component() {
    assert_eq!(target("/home/user/notes", 60, true).name(), "notes");
    assert_eq!(target("/home/user/notes/", 60, true).name(), "notes");
    assert_eq!(target("/", 60, true).name(), "/");
    // A trailing `.` component is skipped; a path ending in `..` has no
    // filename component, so the whole path stands in.
    assert_eq!(target("/a/.", 60, true).name(), "a");
    assert_eq!(target("/a/..", 60, true).name(), "/a/..");
    assert_eq!(target(".", 60, true).name(), ".");
}

#[test]
fn test_default_config_toml_template() {
    let toml = Config::default_config_toml();
    assert!(toml.contains("schema_version = \"1\""));
    assert!(toml.contains("author_name = \"gsd\""));
    assert!(toml.contains("default_ignore_patterns"));
}

#[test]
fn test_defaults() {
    let config = Config::default();
    assert_eq!(config.schema_version, "1");
    assert_eq!(config.logging.level, "info");
    assert!(config.logging.console);
    assert_eq!(config.git.author_name, "gsd");
    assert_eq!(config.git.author_email, "gsd@local");
    assert_eq!(
        config.git.default_ignore_patterns,
        vec!["*.db-wal".to_string(), "*.db-shm".to_string(), "*.db-journal".to_string()]
    );
    assert!(config.targets.is_empty());
    assert_eq!(gsd::config::default_interval_seconds(), 60);
    assert!(gsd::config::default_enabled());
}
