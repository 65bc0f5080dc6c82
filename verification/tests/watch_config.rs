use memory_orchestrator::watch_config::{
    generate_watch_id, resolve_base_dir, watch_config_path, WatchConfig, WatchTarget,
    DEFAULT_WATCH_INTERVAL_HOURS,
};

fn sample_target(id: &str) -> WatchTarget {
    WatchTarget {
        id: id.to_string(),
        label: Some("repo watch".to_string()),
        path: "D:/somewhere/project".to_string(),
        memory_dir: "D:/somewhere/state/memory".to_string(),
        project_state_dir: "D:/somewhere/state".to_string(),
        interval_hours: 48,
        focus: Some("架构演进".to_string()),
        enabled: true,
        last_run_ms: Some(1_700_000_000_000),
        last_status: Some("ok: 2 themes".to_string()),
    }
}

#[test]
fn load_missing_file_returns_default() {
    let config = WatchConfig::default();
    assert_eq!(config.version, 1);
    assert!(config.targets.is_empty());
    assert_eq!(DEFAULT_WATCH_INTERVAL_HOURS, 48);
}

#[test]
fn is_due_honors_enabled_interval_and_never_ran() {
    let mut target = sample_target("dd44");
    let hour_ms = 3_600_000_u64;

    target.last_run_ms = None;
    assert!(target.is_due(1));
    target.last_run_ms = Some(0);
    assert!(target.is_due(1));

    target.interval_hours = 48;
    target.last_run_ms = Some(1_700_000_000_000);
    assert!(!target.is_due(1_700_000_000_000 + 47 * hour_ms));
    assert!(target.is_due(1_700_000_000_000 + 48 * hour_ms));

    target.enabled = false;
    assert!(!target.is_due(u64::MAX));

    target.enabled = true;
    target.interval_hours = 0;
    target.last_run_ms = Some(1_700_000_000_000);
    assert!(!target.is_due(1_700_000_000_000 + hour_ms - 1));
    assert!(target.is_due(1_700_000_000_000 + hour_ms));
}

#[test]
fn huge_intervals_are_capped() {
    let mut target = sample_target("ee55");
    target.interval_hours = u64::MAX;
    target.last_run_ms = Some(1);
    assert!(!target.is_due(u64::MAX));
    target.last_run_ms = Some(10);
    assert!(!target.is_due(5));
}

#[test]
fn generate_watch_id_is_hex_and_unique_across_calls() {
    let a = generate_watch_id(1_700_000_000_000_000_000, 42, 0, "D:/w");
    let b = generate_watch_id(1_700_000_000_000_000_000, 42, 1, "D:/w");
    assert_eq!(a.len(), 16);
    assert!(a.chars().all(|c| c.is_ascii_hexdigit()));
    assert_ne!(a, b, "per-process counter must differentiate calls");
}

#[test]
fn resolve_base_dir_priority_config_dir_then_home_then_os_home() {
    let some = |s: &str| Some(s.to_string());
    assert_eq!(
        resolve_base_dir(some("D:/isolated/config-root"), some("D:/isolated/home-base"), None),
        "D:/isolated/config-root"
    );
    assert_eq!(
        resolve_base_dir(None, some("D:/isolated/home-base"), some("/home/u")),
        "D:/isolated/home-base/.crabcode"
    );
    assert_eq!(resolve_base_dir(None, None, some("/home/u")), "/home/u/.crabcode");
    assert_eq!(resolve_base_dir(None, None, None), ".crabcode");
    assert_eq!(resolve_base_dir(None, None, some("")), ".crabcode");
    assert_eq!(
        resolve_base_dir(some("   "), some("D:/isolated/home-base"), None),
        "D:/isolated/home-base/.crabcode"
    );
}

#[test]
fn config_file_stands_in_the_base_dir() {
    assert_eq!(watch_config_path("/base"), "/base/dream-watch.json");
}
