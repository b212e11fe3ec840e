use appguard::permissions::Permission;
use appguard::policy::{AppPolicy, PolicyDecision, PolicyEngine};

#[test]
fn test_explicit_allow() {
    let mut engine = PolicyEngine::new(true);
    engine.add_policy(AppPolicy {
        app_id: "com.test".into(),
        allowed_permissions: vec![Permission::Camera],
        denied_permissions: vec![],
        max_background_minutes: 10,
        network_allowed: true,
        can_autostart: false,
    });
    assert_eq!(engine.check_permission("com.test", &Permission::Camera), PolicyDecision::Allowed);
}

#[test]
fn test_explicit_deny() {
    let mut engine = PolicyEngine::new(false);
    engine.add_policy(AppPolicy {
        app_id: "com.spy".into(),
        allowed_permissions: vec![],
        denied_permissions: vec![Permission::Microphone],
        max_background_minutes: 0,
        network_allowed: false,
        can_autostart: false,
    });
    assert!(matches!(engine.check_permission("com.spy", &Permission::Microphone), PolicyDecision::Denied(_)));
}

#[test]
fn test_default_deny() {
    let engine = PolicyEngine::new(true);
    assert!(matches!(engine.check_permission("unknown", &Permission::Location), PolicyDecision::Denied(_)));
}

#[test]
fn test_default_allow() {
    let engine = PolicyEngine::new(false);
    assert_eq!(engine.check_permission("unknown", &Permission::Storage), PolicyDecision::Allowed);
}

#[test]
fn test_network_policy() {
    let mut engine = PolicyEngine::new(true);
    engine.add_policy(AppPolicy {
        app_id: "browser".into(),
        allowed_permissions: vec![],
        denied_permissions: vec![],
        max_background_minutes: 0,
        network_allowed: true,
        can_autostart: false,
    });
    assert_eq!(engine.check_network("browser"), PolicyDecision::Allowed);
    assert!(matches!(engine.check_network("unknown"), PolicyDecision::Denied(_)));
}

#[test]
fn denial_wins_over_grant_and_reasons_are_given() {
    let mut engine = PolicyEngine::default();
    engine.add_policy(AppPolicy {
        app_id: "x".into(),
        allowed_permissions: vec![Permission::Camera, Permission::Custom("scan".into())],
        denied_permissions: vec![Permission::Camera],
        max_background_minutes: 0,
        network_allowed: false,
        can_autostart: false,
    });
    assert_eq!(
        engine.check_permission("x", &Permission::Camera),
        PolicyDecision::Denied("explicitly denied".into())
    );
    assert_eq!(engine.check_permission("x", &Permission::Custom("scan".into())), PolicyDecision::Allowed);
    assert_eq!(engine.check_network("x"), PolicyDecision::Denied("network blocked by policy".into()));
    let strict = PolicyEngine::new(true);
    assert_eq!(strict.check_network("y"), PolicyDecision::Denied("default deny".into()));
    assert_eq!(engine.policy_count(), 1);
}

#[test]
fn a_new_policy_replaces_the_old_one() {
    let mut engine = PolicyEngine::new(false);
    let p = |net: bool| AppPolicy {
        app_id: "x".into(),
        allowed_permissions: vec![],
        denied_permissions: vec![],
        max_background_minutes: 0,
        network_allowed: net,
        can_autostart: false,
    };
    engine.add_policy(p(false));
    engine.add_policy(p(true));
    assert_eq!(engine.policy_count(), 1);
    assert_eq!(engine.check_network("x"), PolicyDecision::Allowed);
}
