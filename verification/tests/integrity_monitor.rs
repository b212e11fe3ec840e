use appguard::integrity_monitor::{BinaryBaseline, EventType, IntegrityMonitor};

fn now_ms() -> i64 {
    std::time::SystemTime::now().duration_since(std::time::UNIX_EPOCH).unwrap().as_millis() as i64
}

fn baseline(path: &str, hash: &str, size: u64) -> BinaryBaseline {
    BinaryBaseline {
        app_id: "app".into(),
        binary_path: path.into(),
        hash_hex: hash.into(),
        hash_algorithm: "blake3".into(),
        size_bytes: size,
        recorded_at: now_ms(),
        version: "1.0".into(),
    }
}

#[test]
fn test_record_baseline() {
    let mut m = IntegrityMonitor::new();
    m.record_baseline(baseline("/bin/app", "hash1", 1000));
    assert_eq!(m.baseline_count(), 1);
}

#[test]
fn test_unchanged_detection() {
    let mut m = IntegrityMonitor::new();
    m.record_baseline(baseline("/bin/app", "hash1", 1000));
    let event = m.check("app", "/bin/app", "hash1", 1000);
    assert_eq!(event.event_type, EventType::Unchanged);
}

#[test]
fn test_hash_changed() {
    let mut m = IntegrityMonitor::new();
    m.record_baseline(baseline("/bin/app", "hash1", 1000));
    let event = m.check("app", "/bin/app", "hash2", 1000);
    assert_eq!(event.event_type, EventType::HashChanged);
}

#[test]
fn test_size_changed() {
    let mut m = IntegrityMonitor::new();
    m.record_baseline(baseline("/bin/app", "hash1", 1000));
    let event = m.check("app", "/bin/app", "hash2", 2000);
    assert_eq!(event.event_type, EventType::SizeChanged);
}

#[test]
fn test_new_binary() {
    let mut m = IntegrityMonitor::new();
    let event = m.check("newapp", "/bin/new", "hash1", 1000);
    assert_eq!(event.event_type, EventType::NewBinary);
}

#[test]
fn test_mark_missing() {
    let mut m = IntegrityMonitor::new();
    m.record_baseline(baseline("/bin/app", "hash1", 1000));
    m.mark_missing("app", "/bin/app");
    assert_eq!(m.events_by_type(&EventType::Missing).len(), 1);
}

#[test]
fn test_events_for_app() {
    let mut m = IntegrityMonitor::new();
    m.record_baseline(baseline("/bin/app", "hash1", 1000));
    m.check("app", "/bin/app", "hash2", 1000);
    assert!(m.events_for_app("app").len() >= 2);
}

#[test]
fn integrity_monitor_test_recent() {
    let mut m = IntegrityMonitor::new();
    m.record_baseline(baseline("/bin/a", "h", 1));
    m.record_baseline(baseline("/bin/b", "h", 1));
    assert_eq!(m.recent(5).len(), 2);
}

#[test]
fn rebaselining_a_path_replaces_its_baseline() {
    let mut m = IntegrityMonitor::new();
    m.record_baseline(baseline("/bin/app", "hash1", 1000));
    m.record_baseline(baseline("/bin/app/", "hash2", 2000));
    assert_eq!(m.baseline_count(), 1);
    let event = m.check("app", "/bin/app", "hash2", 2000);
    assert_eq!(event.event_type, EventType::Unchanged);
    assert_eq!(event.old_hash.as_deref(), Some("hash2"));
}

#[test]
fn missing_binary_carries_its_baseline_hash() {
    let mut m = IntegrityMonitor::new();
    m.record_baseline(baseline("/bin/app", "hash1", 1000));
    m.mark_missing_at("app", "/bin/app", 42);
    m.mark_missing_at("app", "/bin/other", 43);
    let missing = m.events_by_type(&EventType::Missing);
    assert_eq!(missing.len(), 2);
    assert_eq!(missing[0].old_hash.as_deref(), Some("hash1"));
    assert_eq!(missing[0].timestamp, 42);
    assert_eq!(missing[1].old_hash, None);
    assert_eq!(missing[1].new_hash, "");
}

#[test]
fn recent_keeps_the_newest_events() {
    let mut m = IntegrityMonitor::new();
    for i in 0..4 {
        m.check_at("app", &format!("/bin/{}", i), "h", 1, i as i64);
    }
    let r = m.recent(2);
    assert_eq!(r.len(), 2);
    assert_eq!(r[0].binary_path, "/bin/2");
    assert_eq!(r[1].binary_path, "/bin/3");
    assert_eq!(m.event_count(), 4);
}
