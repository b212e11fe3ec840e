use appguard::alert::{AlertManager, AlertSeverity};

#[test]
fn test_raise_and_query() {
    let mut mgr = AlertManager::new(100);
    mgr.raise(AlertSeverity::Warning, "spy", "background camera");
    mgr.raise(AlertSeverity::Info, "safe", "normal usage");
    assert_eq!(mgr.count(), 2);
    assert_eq!(mgr.by_severity(AlertSeverity::Warning).len(), 1);
}

#[test]
fn test_acknowledge() {
    let mut mgr = AlertManager::new(100);
    mgr.raise(AlertSeverity::Critical, "app", "issue");
    assert_eq!(mgr.unacknowledged().len(), 1);
    mgr.acknowledge(0);
    assert_eq!(mgr.unacknowledged().len(), 0);
}

#[test]
fn alert_test_eviction() {
    let mut mgr = AlertManager::new(3);
    for i in 0..5 {
        mgr.raise(AlertSeverity::Info, &format!("app{i}"), "msg");
    }
    assert_eq!(mgr.count(), 3);
}

#[test]
fn severity_filter_includes_more_severe() {
    let mut mgr = AlertManager::default();
    mgr.raise_at(AlertSeverity::Info, "a", "m1", 1);
    mgr.raise_at(AlertSeverity::Critical, "b", "m2", 2);
    mgr.raise_at(AlertSeverity::Warning, "a", "m3", 3);
    assert_eq!(mgr.by_severity(AlertSeverity::Info).len(), 3);
    assert_eq!(mgr.by_severity(AlertSeverity::Warning).len(), 2);
    assert_eq!(mgr.by_severity(AlertSeverity::Critical).len(), 1);
    let a = mgr.by_app("a");
    assert_eq!(a.len(), 2);
    assert_eq!(a[1].message, "m3");
    assert_eq!(a[1].timestamp, 3);
    assert!(AlertSeverity::Critical > AlertSeverity::Warning);
}

#[test]
fn acknowledge_out_of_range_and_clear() {
    let mut mgr = AlertManager::new(2);
    mgr.raise_at(AlertSeverity::Info, "a", "m1", 1);
    mgr.acknowledge(5);
    assert_eq!(mgr.unacknowledged().len(), 1);
    mgr.raise_at(AlertSeverity::Info, "b", "m2", 2);
    mgr.raise_at(AlertSeverity::Info, "c", "m3", 3);
    assert_eq!(mgr.by_app("a").len(), 0);
    mgr.clear();
    assert_eq!(mgr.count(), 0);
}
