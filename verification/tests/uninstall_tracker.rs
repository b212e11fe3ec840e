use appguard::uninstall_tracker::{CleanupLevel, FlagType, UninstallEvent, UninstallSource, UninstallTracker};

fn now_ms() -> i64 {
    std::time::SystemTime::now().duration_since(std::time::UNIX_EPOCH).unwrap().as_millis() as i64
}

fn event(app: &str) -> UninstallEvent {
    UninstallEvent {
        app_id: app.into(),
        app_name: format!("App {}", app),
        version: "1.0".into(),
        uninstalled_at: now_ms(),
        uninstalled_by: UninstallSource::PackageManager,
        user_initiated: true,
        cleanup_level: CleanupLevel::Standard,
    }
}

#[test]
fn test_basic_record() {
    let mut t = UninstallTracker::new();
    t.record(event("firefox"));
    assert_eq!(t.total_uninstalls(), 1);
}

#[test]
fn test_protected_app_flagged() {
    let mut t = UninstallTracker::new();
    t.protect("sentinel");
    let flags = t.record(event("sentinel"));
    assert!(flags.iter().any(|f| f.flag_type == FlagType::CriticalAppRemoved));
}

#[test]
fn test_non_user_initiated_flagged() {
    let mut t = UninstallTracker::new();
    let mut e = event("firefox");
    e.user_initiated = false;
    let flags = t.record(e);
    assert!(flags.iter().any(|f| f.flag_type == FlagType::NonUserInitiated));
}

#[test]
fn test_rapid_batch_detected() {
    let mut t = UninstallTracker::new();
    t.record(event("a"));
    t.record(event("b"));
    t.record(event("c"));
    let flags = t.record(event("d"));
    assert!(flags.iter().any(|f| f.flag_type == FlagType::RapidBatchUninstall));
}

#[test]
fn test_incomplete_cleanup_flagged() {
    let mut t = UninstallTracker::new();
    let mut e = event("firefox");
    e.cleanup_level = CleanupLevel::Partial;
    let flags = t.record(e);
    assert!(flags.iter().any(|f| f.flag_type == FlagType::IncompleteCleanup));
}

#[test]
fn uninstall_tracker_test_source_counts() {
    let mut t = UninstallTracker::new();
    t.record(event("a"));
    let mut e = event("b");
    e.uninstalled_by = UninstallSource::Manual;
    t.record(e);
    let counts = t.source_counts();
    let get = |k: &str| counts.iter().find(|(n, _)| n == k).map(|(_, c)| *c);
    assert_eq!(get("PackageManager").unwrap(), 1);
    assert_eq!(get("Manual").unwrap(), 1);
}

#[test]
fn test_unprotect() {
    let mut t = UninstallTracker::new();
    t.protect("a");
    t.unprotect("a");
    let flags = t.record(event("a"));
    assert!(!flags.iter().any(|f| f.flag_type == FlagType::CriticalAppRemoved));
}

#[test]
fn test_recent_events() {
    let mut t = UninstallTracker::new();
    t.record(event("a"));
    assert_eq!(t.recent(60).len(), 1);
}

#[test]
fn test_flags_by_type() {
    let mut t = UninstallTracker::new();
    t.protect("a");
    t.record(event("a"));
    assert_eq!(t.flags_by_type(&FlagType::CriticalAppRemoved).len(), 1);
}

#[test]
fn uninstall_flag_texts_in_order() {
    let mut t = UninstallTracker::new();
    t.protect("core");
    t.protect("core");
    assert_eq!(t.protected_count(), 1);
    let mut e = event("core");
    e.user_initiated = false;
    e.uninstalled_by = UninstallSource::Scripted;
    e.cleanup_level = CleanupLevel::Partial;
    let flags = t.record_at(e, 0);
    let details: Vec<&str> = flags.iter().map(|f| f.detail.as_str()).collect();
    assert_eq!(
        details,
        vec![
            "protected app App core was removed",
            "uninstall not user-initiated, source Scripted",
            "only partial cleanup for App core"
        ]
    );
    assert_eq!(flags[0].confidence_permille, 950);
}
