use appguard::compliance::{ComplianceChecker, ComplianceSeverity};
use appguard::permissions::Permission;

#[test]
fn test_bg_camera_violation() {
    let checker = ComplianceChecker::new();
    let v = checker.check_app("spy", &[Permission::Camera], true, false);
    assert!(!v.is_empty());
    assert_eq!(v[0].severity, ComplianceSeverity::Critical);
}

#[test]
fn test_clean_app() {
    let checker = ComplianceChecker::new();
    let v = checker.check_app("safe", &[Permission::Storage], false, false);
    assert!(v.is_empty());
}

#[test]
fn test_too_many_permissions() {
    let checker = ComplianceChecker::new();
    let perms: Vec<Permission> = vec![
        Permission::Camera,
        Permission::Microphone,
        Permission::Location,
        Permission::Contacts,
        Permission::Calendar,
        Permission::Storage,
        Permission::Phone,
        Permission::Sms,
        Permission::Notifications,
        Permission::BackgroundActivity,
        Permission::NetworkAccess,
    ];
    let v = checker.check_app("greedy", &perms, false, false);
    assert!(v.iter().any(|x| x.rule_name == "max-permissions"));
}

#[test]
fn test_autostart_violation() {
    let checker = ComplianceChecker::new();
    let v = checker.check_app("startup", &[], false, true);
    assert!(!v.is_empty());
}

#[test]
fn max_permissions_details_text() {
    let checker = ComplianceChecker::new();
    let perms: Vec<Permission> = (0..11).map(|i| Permission::Custom(format!("p{i}"))).collect();
    let v = checker.check_app("greedy", &perms, false, false);
    assert_eq!(v.len(), 1);
    assert_eq!(v[0].details, "11 permissions (max: 10)");
    assert_eq!(v[0].severity, ComplianceSeverity::Warning);
    assert_eq!(checker.rule_count(), 5);
}

#[test]
fn background_rules_in_rule_order() {
    let checker = ComplianceChecker::new();
    let v = checker.check_app("x", &[Permission::Location, Permission::Camera, Permission::Microphone], true, true);
    let names: Vec<&str> = v.iter().map(|x| x.rule_name.as_str()).collect();
    assert_eq!(names, vec!["no-bg-camera", "no-bg-mic", "no-bg-location", "no-unapproved-autostart"]);
}
