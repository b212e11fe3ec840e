use appguard::permissions::{calculate_risk, Permission, PermissionAccess, PermissionAuditor};

#[test]
fn test_permission_audit() {
    let mut auditor = PermissionAuditor::new();
    auditor.register_app("com.example", vec![Permission::Camera, Permission::Location, Permission::Storage]);
    auditor.record_access(PermissionAccess {
        permission: Permission::Camera,
        app_id: "com.example".to_string(),
        accessed_at: 1_700_000_000_000,
        foreground: true,
    });
    let audit = auditor.audit_app("com.example");
    assert_eq!(audit.granted_permissions.len(), 3);
    assert_eq!(audit.used_permissions.len(), 1);
    assert_eq!(audit.unused_permissions.len(), 2);
}

#[test]
fn test_background_access_flagged() {
    let mut auditor = PermissionAuditor::new();
    auditor.register_app("com.spy", vec![Permission::Microphone]);
    auditor.record_access(PermissionAccess {
        permission: Permission::Microphone,
        app_id: "com.spy".to_string(),
        accessed_at: 1_700_000_000_000,
        foreground: false,
    });
    let audit = auditor.audit_app("com.spy");
    assert_eq!(audit.background_accesses.len(), 1);
    assert!(audit.risk_percent > 10);
}

#[test]
fn test_high_risk_permissions() {
    let mut auditor = PermissionAuditor::new();
    auditor.register_app(
        "com.risky",
        vec![
            Permission::Camera,
            Permission::Microphone,
            Permission::Location,
            Permission::DeviceAdmin,
            Permission::Accessibility,
        ],
    );
    let audit = auditor.audit_app("com.risky");
    assert!(audit.risk_percent > 50, "many dangerous permissions should score high: {}", audit.risk_percent);
}

#[test]
fn test_benign_app() {
    let mut auditor = PermissionAuditor::new();
    auditor.register_app("com.safe", vec![Permission::Notifications]);
    let audit = auditor.audit_app("com.safe");
    assert!(audit.risk_percent < 10);
}

#[test]
fn risk_weights_and_cap() {
    assert_eq!(calculate_risk(&[Permission::Camera, Permission::Storage], &[]), 23);
    let many: Vec<Permission> = (0..10).map(|_| Permission::DeviceAdmin).collect();
    assert_eq!(calculate_risk(&many, &[]), 100);
}

#[test]
fn used_permissions_are_distinct_custom_included() {
    let mut auditor = PermissionAuditor::new();
    auditor.register_app("a", vec![Permission::Custom("x".into()), Permission::Sms]);
    for _ in 0..3 {
        auditor.record_access(PermissionAccess {
            permission: Permission::Custom("x".into()),
            app_id: "a".into(),
            accessed_at: 0,
            foreground: true,
        });
    }
    let audit = auditor.audit_app("a");
    assert_eq!(audit.used_permissions.len(), 1);
    assert_eq!(audit.unused_permissions.len(), 1);
    assert!(matches!(audit.unused_permissions[0], Permission::Sms));
    assert_eq!(audit.risk_percent, 4);
}

#[test]
fn unregistered_app_has_no_grants() {
    let auditor = PermissionAuditor::new();
    let audit = auditor.audit_app("ghost");
    assert!(audit.granted_permissions.is_empty());
    assert_eq!(audit.risk_percent, 0);
}
