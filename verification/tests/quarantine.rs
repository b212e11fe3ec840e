use appguard::quarantine::{QuarantineAction, QuarantineManager};

fn now_ms() -> i64 {
    std::time::SystemTime::now().duration_since(std::time::UNIX_EPOCH).unwrap().as_millis() as i64
}

#[test]
fn test_quarantine() {
    let mut mgr = QuarantineManager::new();
    mgr.quarantine("suspicious", "spawn shell", None);
    assert!(mgr.is_quarantined("suspicious"));
    assert_eq!(mgr.quarantine_count(), 1);
}

#[test]
fn test_release() {
    let mut mgr = QuarantineManager::new();
    mgr.quarantine("app", "test", None);
    assert!(mgr.release("app"));
    assert!(!mgr.is_quarantined("app"));
}

#[test]
fn test_history() {
    let mut mgr = QuarantineManager::new();
    mgr.quarantine("app", "test", None);
    mgr.release("app");
    let history = mgr.history_for("app");
    assert_eq!(history.len(), 2);
}

#[test]
fn test_expiration() {
    let mut mgr = QuarantineManager::new();
    let past = now_ms() - 3_600_000;
    mgr.quarantine("expiring", "test", Some(past));
    let released = mgr.process_expirations();
    assert_eq!(released.len(), 1);
    assert!(!mgr.is_quarantined("expiring"));
}

#[test]
fn test_no_expiration_for_indefinite() {
    let mut mgr = QuarantineManager::new();
    mgr.quarantine("permanent", "test", None);
    let released = mgr.process_expirations();
    assert!(released.is_empty());
}

#[test]
fn test_release_unknown() {
    let mut mgr = QuarantineManager::new();
    assert!(!mgr.release("unknown"));
}

#[test]
fn test_list() {
    let mut mgr = QuarantineManager::new();
    mgr.quarantine("a", "r1", None);
    mgr.quarantine("b", "r2", None);
    assert_eq!(mgr.list().len(), 2);
}

#[test]
fn expirations_at_a_fixed_instant() {
    let mut mgr = QuarantineManager::new();
    mgr.quarantine_at("a", "r1", Some(100), 1);
    mgr.quarantine_at("b", "r2", Some(200), 2);
    mgr.quarantine_at("c", "r3", None, 3);
    mgr.quarantine_at("d", "r4", Some(100), 4);
    let released = mgr.process_expirations_at(150);
    assert_eq!(released, vec!["a".to_string(), "d".to_string()]);
    assert_eq!(mgr.quarantine_count(), 2);
    assert!(mgr.is_quarantined("b"));
    assert!(mgr.is_quarantined("c"));
    let h = mgr.history_for("d");
    assert_eq!(h.len(), 2);
    assert_eq!(h[1].action, QuarantineAction::Expired);
    assert_eq!(h[1].timestamp, 150);
    assert_eq!(h[1].reason, "r4");
    assert_eq!(mgr.history_count(), 6);
}

#[test]
fn requarantine_replaces_the_entry() {
    let mut mgr = QuarantineManager::new();
    mgr.quarantine_at("a", "first", None, 1);
    mgr.quarantine_at("a", "second", Some(5), 2);
    assert_eq!(mgr.quarantine_count(), 1);
    let list = mgr.list();
    assert_eq!(list[0].reason, "second");
    assert_eq!(list[0].quarantined_at, 2);
    assert!(list[0].network_disabled);
    assert!(mgr.release_at("a", 3));
    let h = mgr.history_for("a");
    assert_eq!(h.len(), 3);
    assert_eq!(h[2].action, QuarantineAction::Released);
    assert_eq!(h[2].reason, "second");
    assert!(!mgr.release_at("a", 4));
}
