use appguard::access_log::{AccessEvent, AccessLog, AccessType};

fn make_event(app: &str, access: AccessType, resource: &str) -> AccessEvent {
    AccessEvent {
        timestamp: 0,
        app_id: app.into(),
        access_type: access,
        resource: resource.into(),
        success: true,
        user: "user".into(),
    }
}

#[test]
fn test_record_and_count() {
    let mut log = AccessLog::default();
    log.record(make_event("firefox", AccessType::FileRead, "/etc/hosts"));
    assert_eq!(log.count(), 1);
}

#[test]
fn test_for_app() {
    let mut log = AccessLog::default();
    log.record(make_event("a", AccessType::FileRead, "/file1"));
    log.record(make_event("b", AccessType::FileRead, "/file2"));
    log.record(make_event("a", AccessType::FileWrite, "/file3"));
    assert_eq!(log.for_app("a").len(), 2);
}

#[test]
fn test_by_type() {
    let mut log = AccessLog::default();
    log.record(make_event("a", AccessType::FileRead, "/f1"));
    log.record(make_event("a", AccessType::FileWrite, "/f2"));
    log.record(make_event("a", AccessType::FileRead, "/f3"));
    assert_eq!(log.by_type(&AccessType::FileRead).len(), 2);
}

#[test]
fn test_for_resource() {
    let mut log = AccessLog::default();
    log.record(make_event("a", AccessType::FileRead, "/etc/hosts"));
    log.record(make_event("a", AccessType::FileRead, "/var/log/auth"));
    log.record(make_event("a", AccessType::FileRead, "/etc/passwd"));
    let etc_events = log.for_resource("/etc");
    assert_eq!(etc_events.len(), 2);
}

#[test]
fn test_failures() {
    let mut log = AccessLog::default();
    let mut failed = make_event("a", AccessType::FileRead, "/etc/shadow");
    failed.success = false;
    log.record(failed);
    log.record(make_event("a", AccessType::FileRead, "/etc/hosts"));
    assert_eq!(log.failures().len(), 1);
}

#[test]
fn access_log_test_recent() {
    let mut log = AccessLog::default();
    for i in 0..10 {
        log.record(make_event("a", AccessType::FileRead, &format!("/f{i}")));
    }
    let last = log.recent(3);
    assert_eq!(last.len(), 3);
}

#[test]
fn test_top_accessors() {
    let mut log = AccessLog::default();
    for _ in 0..10 {
        log.record(make_event("heavy", AccessType::FileRead, "/f"));
    }
    for _ in 0..3 {
        log.record(make_event("light", AccessType::FileRead, "/f"));
    }
    let top = log.top_accessors(1);
    assert_eq!(top[0].0, "heavy");
    assert_eq!(top[0].1, 10);
}

#[test]
fn access_log_test_eviction() {
    let mut log = AccessLog::new(5);
    for i in 0..10 {
        log.record(make_event("a", AccessType::FileRead, &format!("/f{i}")));
    }
    assert_eq!(log.count(), 5);
}

#[test]
fn test_clear() {
    let mut log = AccessLog::default();
    log.record(make_event("a", AccessType::FileRead, "/f"));
    log.clear();
    assert_eq!(log.count(), 0);
}

#[test]
fn eviction_keeps_the_newest_in_order() {
    let mut log = AccessLog::new(3);
    for i in 0..7 {
        log.record(make_event("a", AccessType::FileRead, &format!("/f{i}")));
    }
    let r = log.recent(10);
    let names: Vec<&str> = r.iter().map(|e| e.resource.as_str()).collect();
    assert_eq!(names, vec!["/f4", "/f5", "/f6"]);
    assert_eq!(log.recent(1)[0].resource, "/f6");
}

#[test]
fn zero_capacity_log_keeps_nothing() {
    let mut log = AccessLog::new(0);
    log.record(make_event("a", AccessType::FileRead, "/f"));
    assert_eq!(log.count(), 0);
    assert!(log.top_accessors(3).is_empty());
}
