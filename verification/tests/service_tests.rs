use gsd::clock::{auto_snapshot_message, snapshot_message};
use gsd::config::{LoggingConfig, TargetConfig};
use gsd::logging::{parse_level, LogLevel, LoggingError, LoggingSettings};
use gsd::reconcile::reconcile_plan;
use gsd::registry::Registry;

fn target(path: &str, interval: u64, enabled: bool) -> TargetConfig {
    TargetConfig {
        path: path.to_string(),
        interval_seconds: interval,
        ignore_patterns: vec![],
        enabled,
    }
}

#[test]
fn test_single_flight_per_target() {
    let mut reg = Registry::new();
    let key = "/tmp/a".to_string();
    reg.insert(key.clone(), target("/tmp/a", 60, true), None);

    // Only the first of overlapping attempts is granted; the second tick
    // is skipped, not queued.
    assert!(reg.try_begin(&key));
    assert!(!reg.try_begin(&key));
    assert!(!reg.try_begin(&key));

    // After the cycle ends, the next tick is granted again.
    reg.end(&key);
    assert!(reg.try_begin(&key));

    // An unregistered key is never granted.
    let missing = "/tmp/missing".to_string();
    assert!(!reg.try_begin(&missing));
}

#[test]
fn test_single_flight_keys_independent() {
    let mut reg = Registry::new();
    let a = "/tmp/a".to_string();
    let b = "/tmp/b".to_string();
    reg.insert(a.clone(), target("/tmp/a", 60, true), None);
    reg.insert(b.clone(), target("/tmp/b", 60, true), None);
    assert!(reg.try_begin(&a));
    assert!(reg.try_begin(&b));
    assert!(!reg.try_begin(&a));
    reg.end(&a);
    assert!(reg.try_begin(&a));
}

#[test]
fn test_reconciliation_convergence() {
    let mut reg = Registry::new();
    let a = "/tmp/a".to_string();
    let b = "/tmp/b".to_string();
    reg.insert(a.clone(), target("/tmp/a", 60, true), Some(1));
    reg.insert(b.clone(), target("/tmp/b", 60, true), Some(2));

    let new_targets = vec![
        target("/tmp/a", 60, true),
        target("/tmp/b", 120, true),
        target("/tmp/c", 60, true),
    ];
    let plan = reconcile_plan(&reg, &new_targets);
    assert!(plan.remove.is_empty());
    assert_eq!(plan.restart.len(), 1);
    assert_eq!(plan.restart[0].path, "/tmp/b");
    assert_eq!(plan.add.len(), 1);
    assert_eq!(plan.add[0].path, "/tmp/c");

    for key in &plan.remove {
        reg.remove(key);
    }
    for t in &plan.restart {
        let cancelled = reg.remove(&t.path);
        assert_eq!(cancelled, Some(2));
        reg.insert(t.path.clone(), t.clone(), Some(20));
    }
    for t in &plan.add {
        reg.insert(t.path.clone(), t.clone(), Some(30));
    }

    let mut keys = reg.keys();
    keys.sort();
    assert_eq!(keys, vec!["/tmp/a".to_string(), "/tmp/b".to_string(), "/tmp/c".to_string()]);
    // The untouched target keeps its task; the restarted one has a new
    // handle and interval; the added one was freshly initialized.
    assert_eq!(reg.task_handle_of(&a), Some(Some(1)));
    assert_eq!(reg.task_handle_of(&b), Some(Some(20)));
    assert_eq!(reg.interval_of(&b), Some(120));
    let c = "/tmp/c".to_string();
    assert_eq!(reg.task_handle_of(&c), Some(Some(30)));
    assert_eq!(reg.in_flight_of(&b), Some(false));
    assert_eq!(reg.in_flight_of(&c), Some(false));
}

#[test]
fn test_disable_then_reenable() {
    let mut reg = Registry::new();
    let a = "/tmp/a".to_string();
    reg.insert(a.clone(), target("/tmp/a", 60, true), Some(7));
    assert!(reg.try_begin(&a));

    // Disabling removes the target and hands back its task to cancel.
    let disabled = vec![target("/tmp/a", 60, false)];
    let plan = reconcile_plan(&reg, &disabled);
    assert_eq!(plan.remove, vec!["/tmp/a".to_string()]);
    assert!(plan.restart.is_empty() && plan.add.is_empty());
    let cancelled = reg.remove(&a);
    assert_eq!(cancelled, Some(7));
    assert!(reg.keys().is_empty());

    // Re-enabling with the same interval re-initializes it with a fresh
    // idle state: not in flight, new task handle.
    let enabled = vec![target("/tmp/a", 60, true)];
    let plan = reconcile_plan(&reg, &enabled);
    assert_eq!(plan.add.len(), 1);
    reg.insert(a.clone(), plan.add[0].clone(), Some(8));
    assert_eq!(reg.in_flight_of(&a), Some(false));
    assert_eq!(reg.task_handle_of(&a), Some(Some(8)));
    assert!(reg.try_begin(&a));
}

#[test]
fn test_shutdown_takes_every_handle() {
    let mut reg = Registry::new();
    reg.insert("/tmp/a".to_string(), target("/tmp/a", 60, true), Some(1));
    reg.insert("/tmp/b".to_string(), target("/tmp/b", 60, true), Some(2));
    reg.insert("/tmp/c".to_string(), target("/tmp/c", 60, true), None);

    let mut handles = reg.take_all_handles();
    handles.sort();
    assert_eq!(handles, vec![1, 2]);
    // Afterwards no entry holds a handle, but the targets stay registered.
    assert_eq!(reg.task_handle_of(&"/tmp/a".to_string()), Some(None));
    assert_eq!(reg.task_handle_of(&"/tmp/b".to_string()), Some(None));
    assert_eq!(reg.task_handle_of(&"/tmp/c".to_string()), Some(None));
    assert_eq!(reg.keys().len(), 3);
}

#[test]
fn test_logging_settings_rejects_zero_max_bytes() {
    let cfg = LoggingConfig {
        level: "info".to_string(),
        directory: Some("/tmp/gsd-logs".to_string()),
        max_bytes: 0,
        max_files: 1,
        console: true,
    };
    assert!(matches!(
        LoggingSettings::from_config(&cfg),
        Err(LoggingError::InvalidConfig { field: "max_bytes", .. })
    ));
}

#[test]
fn test_logging_settings_rejects_zero_max_files() {
    let cfg = LoggingConfig {
        level: "info".to_string(),
        directory: Some("/tmp/gsd-logs".to_string()),
        max_bytes: 10,
        max_files: 0,
        console: true,
    };
    assert!(matches!(
        LoggingSettings::from_config(&cfg),
        Err(LoggingError::InvalidConfig { field: "max_files", .. })
    ));
}

#[test]
fn test_logging_settings_accepts_good_config() {
    let cfg = LoggingConfig {
        level: "warn".to_string(),
        directory: None,
        max_bytes: 0,
        max_files: 0,
        console: true,
    };
    let settings = LoggingSettings::from_config(&cfg).unwrap();
    assert_eq!(settings.level, LogLevel::Warn);
    assert!(settings.directory.is_none());
    assert!(settings.console);
}

#[test]
fn test_parse_level_accepts_known_levels() {
    assert_eq!(parse_level("trace").unwrap(), LogLevel::Trace);
    assert_eq!(parse_level("debug").unwrap(), LogLevel::Debug);
    assert_eq!(parse_level("info").unwrap(), LogLevel::Info);
    assert_eq!(parse_level("warn").unwrap(), LogLevel::Warn);
    assert_eq!(parse_level("warning").unwrap(), LogLevel::Warn);
    assert_eq!(parse_level("error").unwrap(), LogLevel::Error);
    // Case and surrounding whitespace are forgiven.
    assert_eq!(parse_level(" INFO ").unwrap(), LogLevel::Info);
    assert_eq!(parse_level("Warning").unwrap(), LogLevel::Warn);
}

#[test]
fn test_parse_level_rejects_unknown() {
    match parse_level(" Bogus ") {
        Err(LoggingError::InvalidLevel { field, value }) => {
            assert_eq!(field, "level");
            assert_eq!(value, "bogus");
        }
        _ => panic!("expected an invalid level"),
    }
}

#[test]
fn test_snapshot_message_for_few_and_many_files() {
    let few = vec!["a.txt".to_string(), "b.txt".to_string()];
    assert_eq!(snapshot_message("2024-01-02 03:04:05", &few), "Snapshot 2024-01-02 03:04:05: a.txt, b.txt");

    let many: Vec<String> = (0..5).map(|i| format!("f{}", i)).collect();
    assert_eq!(
        snapshot_message("2024-01-02 03:04:05", &many),
        "Snapshot 2024-01-02 03:04:05: f0, f1 and 3 more"
    );
}

#[test]
fn test_auto_snapshot_message_uses_clock() {
    let files = vec!["a.txt".to_string()];
    let msg = auto_snapshot_message(&files);
    assert!(msg.starts_with("Snapshot "));
    assert!(msg.ends_with(": a.txt"));
}
