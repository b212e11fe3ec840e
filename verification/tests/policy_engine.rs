use appguard::policy_engine::{AppPolicy, PolicyEngine};

#[test]
fn policy_engine_test_permissive_allows_all() {
    let p = AppPolicy::permissive("app");
    assert!(p.check_domain("example.com"));
    assert!(p.check_path("/etc/passwd"));
}

#[test]
fn test_restrictive_blocks_all() {
    let p = AppPolicy::restrictive("app");
    assert!(!p.check_domain("example.com"));
    assert!(!p.check_path("/etc/passwd"));
}

#[test]
fn test_domain_whitelist() {
    let mut p = AppPolicy::permissive("app");
    p.allowed_domains = vec!["api.example.com".into(), "*.cdn.example.com".into()];
    assert!(p.check_domain("api.example.com"));
    assert!(p.check_domain("static.cdn.example.com"));
    assert!(!p.check_domain("evil.com"));
}

#[test]
fn test_path_whitelist() {
    let mut p = AppPolicy::permissive("app");
    p.allowed_paths = vec!["/home/user/Documents".into()];
    assert!(p.check_path("/home/user/Documents/file.txt"));
    assert!(!p.check_path("/etc/shadow"));
}

#[test]
fn test_policy_engine_set_get() {
    let mut engine = PolicyEngine::new();
    engine.set_policy(AppPolicy::restrictive("spy"));
    assert!(!engine.policy_for("spy").allow_network);
}

#[test]
fn test_violation_recorded() {
    let mut engine = PolicyEngine::new();
    engine.set_policy(AppPolicy::restrictive("app"));
    assert!(!engine.check_network("app", "example.com"));
    assert_eq!(engine.violation_count(), 1);
}

#[test]
fn policy_engine_test_violations_for_app() {
    let mut engine = PolicyEngine::new();
    engine.set_policy(AppPolicy::restrictive("a"));
    engine.set_policy(AppPolicy::restrictive("b"));
    engine.check_network("a", "x");
    engine.check_network("b", "y");
    engine.check_network("a", "z");
    assert_eq!(engine.violations_for("a").len(), 2);
    assert_eq!(engine.violations_for("b").len(), 1);
}

#[test]
fn test_default_policy_used() {
    let mut engine = PolicyEngine::new();
    engine.set_default_restrictive();
    assert!(!engine.check_network("unknown", "example.com"));
}

#[test]
fn wildcard_domain_admits_bare_suffix() {
    let mut p = AppPolicy::permissive("app");
    p.allowed_domains = vec!["*.example.com".into()];
    assert!(p.check_domain("example.com"));
    assert!(!p.check_domain("badexample.com"));
}

#[test]
fn violation_details_at_fixed_time() {
    let mut engine = PolicyEngine::new();
    engine.set_policy(AppPolicy::restrictive("app"));
    assert!(!engine.check_path_at("app", "/etc/shadow", 42));
    let v = engine.violations_for("app");
    assert_eq!(v.len(), 1);
    assert_eq!(v[0].resource, "/etc/shadow");
    assert_eq!(v[0].timestamp, 42);
}
