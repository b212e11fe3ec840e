use appguard::sandbox::{IsolationLevel, SandboxManager, SandboxProfile, ViolationType};

#[test]
fn test_restrictive_blocks_sensitive() {
    let profile = SandboxProfile::restrictive("app");
    assert!(!profile.can_access("/etc/shadow"));
    assert!(!profile.can_access("/root/.ssh"));
    assert!(!profile.can_access("/home/user/docs"));
}

#[test]
fn test_restrictive_allows_system_libs() {
    let profile = SandboxProfile::restrictive("app");
    assert!(profile.can_access("/usr/lib/libssl.so"));
    assert!(profile.can_access("/usr/share/fonts"));
}

#[test]
fn sandbox_test_permissive_allows_all() {
    let profile = SandboxProfile::permissive("app");
    assert!(profile.can_access("/etc/passwd"));
    assert!(profile.allowed_network);
    assert!(profile.allow_dbus);
}

#[test]
fn test_readonly_detection() {
    let profile = SandboxProfile::restrictive("app");
    assert!(profile.is_readonly("/etc/hostname"));
    assert!(!profile.is_readonly("/usr/lib/libc.so"));
}

#[test]
fn test_port_restrictions() {
    let mut profile = SandboxProfile::restrictive("app");
    profile.allowed_network = true;
    profile.allowed_ports.push(443);
    profile.allowed_ports.push(80);
    assert!(profile.can_use_port(443));
    assert!(profile.can_use_port(80));
    assert!(!profile.can_use_port(22));
}

#[test]
fn test_network_disabled() {
    let profile = SandboxProfile::restrictive("app");
    assert!(!profile.can_use_port(443));
    assert!(!profile.can_use_port(80));
}

#[test]
fn test_manager_violation_tracking() {
    let mut mgr = SandboxManager::new();
    mgr.add_profile(SandboxProfile::restrictive("spy"));
    assert!(!mgr.check_access("spy", "/etc/shadow"));
    assert!(!mgr.check_access("spy", "/root/.ssh/id_rsa"));
    assert_eq!(mgr.violation_count(), 2);
    assert_eq!(mgr.violations_for("spy").len(), 2);
}

#[test]
fn test_write_blocked_on_readonly() {
    let mut mgr = SandboxManager::new();
    mgr.add_profile(SandboxProfile::restrictive("editor"));
    assert!(!mgr.check_write("editor", "/etc/hosts"));
    assert_eq!(mgr.violation_count(), 1);
}

#[test]
fn test_unknown_app_allowed() {
    let mut mgr = SandboxManager::new();
    assert!(mgr.check_access("unknown", "/etc/shadow"));
    assert_eq!(mgr.violation_count(), 0);
}

#[test]
fn sandbox_test_top_violators() {
    let mut mgr = SandboxManager::new();
    mgr.add_profile(SandboxProfile::restrictive("bad_app"));
    mgr.add_profile(SandboxProfile::restrictive("worse_app"));
    mgr.check_access("bad_app", "/root/secret");
    mgr.check_access("worse_app", "/root/a");
    mgr.check_access("worse_app", "/root/b");
    mgr.check_access("worse_app", "/root/c");
    let top = mgr.top_violators(2);
    assert_eq!(top[0].0, "worse_app");
    assert_eq!(top[0].1, 3);
}

#[test]
fn test_bwrap_args_strict() {
    let profile = SandboxProfile::restrictive("test");
    let args = profile.to_bwrap_args(None);
    assert!(args.contains(&"--unshare-pid".to_string()));
    assert!(args.contains(&"--unshare-net".to_string()));
    assert!(args.contains(&"--proc".to_string()));
}

#[test]
fn test_bwrap_args_paranoid() {
    let mut profile = SandboxProfile::restrictive("test");
    profile.isolation_level = IsolationLevel::Paranoid;
    let args = profile.to_bwrap_args(None);
    assert!(args.contains(&"--unshare-all".to_string()));
    assert!(args.contains(&"--die-with-parent".to_string()));
}

#[test]
fn test_remove_profile() {
    let mut mgr = SandboxManager::new();
    mgr.add_profile(SandboxProfile::restrictive("app"));
    assert_eq!(mgr.profile_count(), 1);
    assert!(mgr.remove_profile("app"));
    assert_eq!(mgr.profile_count(), 0);
    assert!(!mgr.remove_profile("nonexistent"));
}

#[test]
fn test_network_violation_logged() {
    let mut mgr = SandboxManager::new();
    mgr.add_profile(SandboxProfile::restrictive("app"));
    assert!(!mgr.check_network("app", 8080));
    assert_eq!(mgr.violation_count(), 1);
    let v = &mgr.recent_violations(1)[0];
    assert_eq!(v.violation_type, ViolationType::NetworkAccessDenied);
}

#[test]
fn bwrap_wayland_socket_uses_display() {
    let mut profile = SandboxProfile::restrictive("test");
    profile.allow_wayland = true;
    let args = profile.to_bwrap_args(Some("wayland-0"));
    assert!(args.contains(&"/run/user/1000/wayland-0".to_string()));
}

#[test]
fn violation_detail_names_port() {
    let mut mgr = SandboxManager::new();
    mgr.add_profile(SandboxProfile::restrictive("app"));
    assert!(!mgr.check_network_at("app", 8080, 5));
    let v = &mgr.recent_violations(1)[0];
    assert_eq!(v.detail, "Blocked network access on port 8080");
    assert_eq!(v.timestamp, 5);
}
