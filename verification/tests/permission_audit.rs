use appguard::permission_audit::{is_critical_permission, PermissionAuditor};

#[test]
fn test_record_grant() {
    let mut auditor = PermissionAuditor::new();
    auditor.record_grant("firefox", "network", None);
    assert_eq!(auditor.app_count(), 1);
}

#[test]
fn test_record_use() {
    let mut auditor = PermissionAuditor::new();
    auditor.record_grant("firefox", "network", None);
    auditor.record_use("firefox", "network");
    let records = auditor.for_app("firefox").unwrap();
    assert_eq!(records[0].use_count, 1);
    assert!(records[0].last_used.is_some());
}

#[test]
fn test_unused_grants() {
    let mut auditor = PermissionAuditor::new();
    auditor.record_grant("app1", "camera", None);
    auditor.record_grant("app2", "network", None);
    auditor.record_use("app2", "network");
    let report = auditor.report();
    assert_eq!(report.unused_grants.len(), 1);
}

#[test]
fn test_critical_grants() {
    let mut auditor = PermissionAuditor::new();
    auditor.record_grant("spy", "camera", None);
    auditor.record_grant("spy", "microphone", None);
    let report = auditor.report();
    assert_eq!(report.critical_grants.len(), 2);
}

#[test]
fn test_overprivileged() {
    let mut auditor = PermissionAuditor::new();
    auditor.record_grant("greedy", "camera", None);
    auditor.record_grant("greedy", "microphone", None);
    auditor.record_grant("greedy", "location", None);
    let report = auditor.report();
    assert!(report.overprivileged_apps.contains(&"greedy".to_string()));
}

#[test]
fn test_revoke() {
    let mut auditor = PermissionAuditor::new();
    auditor.record_grant("app", "camera", None);
    assert!(auditor.revoke("app", "camera"));
    let records = auditor.for_app("app").unwrap();
    assert!(!records[0].granted);
}

#[test]
fn test_most_permissioned() {
    let mut auditor = PermissionAuditor::new();
    auditor.record_grant("a", "p1", None);
    auditor.record_grant("a", "p2", None);
    auditor.record_grant("b", "p1", None);
    let top = auditor.most_permissioned(1);
    assert_eq!(top[0].0, "a");
    assert_eq!(top[0].1, 2);
}

#[test]
fn test_report_counts() {
    let mut auditor = PermissionAuditor::new();
    auditor.record_grant("a", "p1", None);
    auditor.record_grant("a", "p2", None);
    auditor.record_grant("b", "p1", None);
    let report = auditor.report();
    assert_eq!(report.total_apps, 2);
    assert_eq!(report.granted_count, 3);
}

#[test]
fn revoked_grants_leave_the_report_counts() {
    let mut auditor = PermissionAuditor::new();
    auditor.record_grant_at("a", "camera", Some("video calls".into()), 5);
    auditor.record_grant_at("a", "microphone", None, 6);
    auditor.record_grant_at("a", "location", None, 7);
    assert!(auditor.report().overprivileged_apps.contains(&"a".to_string()));
    assert!(auditor.revoke("a", "location"));
    let report = auditor.report();
    assert_eq!(report.total_permissions, 3);
    assert_eq!(report.granted_count, 2);
    assert!(report.overprivileged_apps.is_empty());
    assert_eq!(report.critical_grants.len(), 2);
    assert_eq!(report.critical_grants[0].justification.as_deref(), Some("video calls"));
    assert_eq!(report.critical_grants[0].granted_at, Some(5));
}

#[test]
fn revoke_of_unknown_permission_is_refused() {
    let mut auditor = PermissionAuditor::new();
    auditor.record_grant("a", "camera", None);
    assert!(!auditor.revoke("a", "network"));
    assert!(!auditor.revoke("b", "camera"));
    assert!(auditor.for_app("b").is_none());
}

#[test]
fn use_is_counted_on_the_first_granted_record_only() {
    let mut auditor = PermissionAuditor::new();
    auditor.record_grant("a", "camera", None);
    auditor.record_grant("a", "camera", None);
    auditor.revoke("a", "camera");
    auditor.record_use_at("a", "camera", 99);
    let records = auditor.for_app("a").unwrap();
    assert_eq!(records[0].use_count, 0);
    assert_eq!(records[1].use_count, 1);
    assert_eq!(records[1].last_used, Some(99));
    auditor.record_use("nobody", "camera");
    assert_eq!(auditor.app_count(), 1);
}

#[test]
fn critical_permission_names() {
    assert!(is_critical_permission("camera"));
    assert!(is_critical_permission("bluetooth_scan"));
    assert!(!is_critical_permission("network"));
    assert!(!is_critical_permission("Camera"));
}
