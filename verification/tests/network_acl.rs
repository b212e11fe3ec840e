use appguard::network_acl::{cidr_matches, AclDecision, AclRule, Action, Direction, IpAddress, NetworkAcl, Target};

fn ip(a: u8, b: u8, c: u8, d: u8) -> IpAddress {
    IpAddress::v4(a, b, c, d)
}

fn rule(id: &str, app: &str, action: Action, target: Target, prio: i32) -> AclRule {
    AclRule {
        id: id.into(),
        app_id: app.into(),
        direction: Direction::Egress,
        action,
        target,
        priority: prio,
        enabled: true,
        created_at: 1_700_000_000_000,
    }
}

#[test]
fn test_default_deny_rejects_unmatched() {
    let mut acl = NetworkAcl::default_deny();
    let dec = acl.check("firefox", &Direction::Egress, &ip(1, 2, 3, 4), 443);
    assert_eq!(dec, AclDecision::DefaultDeny);
}

#[test]
fn test_allow_rule() {
    let mut acl = NetworkAcl::default_deny();
    acl.add_rule(rule("r1", "firefox", Action::Allow, Target::AnyAddress, 10));
    let dec = acl.check("firefox", &Direction::Egress, &ip(1, 2, 3, 4), 443);
    assert_eq!(dec, AclDecision::Allowed);
}

#[test]
fn test_deny_higher_priority_wins() {
    let mut acl = NetworkAcl::default_allow();
    acl.add_rule(rule("r1", "app", Action::Allow, Target::AnyAddress, 5));
    acl.add_rule(rule("r2", "app", Action::Deny, Target::Ip(ip(1, 2, 3, 4)), 10));
    let dec = acl.check("app", &Direction::Egress, &ip(1, 2, 3, 4), 80);
    assert_eq!(dec, AclDecision::Denied);
}

#[test]
fn test_port_match() {
    let mut acl = NetworkAcl::default_deny();
    acl.add_rule(rule("r1", "app", Action::Allow, Target::Port(443), 10));
    assert_eq!(acl.check("app", &Direction::Egress, &ip(1, 2, 3, 4), 443), AclDecision::Allowed);
    assert_eq!(acl.check("app", &Direction::Egress, &ip(1, 2, 3, 4), 80), AclDecision::DefaultDeny);
}

#[test]
fn test_port_range() {
    let mut acl = NetworkAcl::default_deny();
    acl.add_rule(rule("r1", "app", Action::Allow, Target::PortRange(8000, 9000), 10));
    assert_eq!(acl.check("app", &Direction::Egress, &ip(1, 2, 3, 4), 8080), AclDecision::Allowed);
    assert_eq!(acl.check("app", &Direction::Egress, &ip(1, 2, 3, 4), 7999), AclDecision::DefaultDeny);
}

#[test]
fn test_cidr_v4() {
    let mut acl = NetworkAcl::default_deny();
    acl.add_rule(rule("r1", "app", Action::Allow, Target::Cidr { network: ip(192, 168, 0, 0), prefix: 16 }, 10));
    assert_eq!(acl.check("app", &Direction::Egress, &ip(192, 168, 1, 5), 80), AclDecision::Allowed);
    assert_eq!(acl.check("app", &Direction::Egress, &ip(10, 0, 0, 1), 80), AclDecision::DefaultDeny);
}

#[test]
fn test_per_app_isolation() {
    let mut acl = NetworkAcl::default_deny();
    acl.add_rule(rule("r1", "firefox", Action::Allow, Target::AnyAddress, 10));
    assert_eq!(acl.check("chrome", &Direction::Egress, &ip(1, 2, 3, 4), 80), AclDecision::DefaultDeny);
}

#[test]
fn test_disabled_rule_ignored() {
    let mut acl = NetworkAcl::default_deny();
    acl.add_rule(rule("r1", "app", Action::Allow, Target::AnyAddress, 10));
    acl.set_enabled("r1", false);
    assert_eq!(acl.check("app", &Direction::Egress, &ip(1, 2, 3, 4), 80), AclDecision::DefaultDeny);
}

#[test]
fn test_hit_counts() {
    let mut acl = NetworkAcl::default_deny();
    acl.add_rule(rule("r1", "app", Action::Allow, Target::AnyAddress, 10));
    for _ in 0..3 {
        acl.check("app", &Direction::Egress, &ip(1, 2, 3, 4), 80);
    }
    assert_eq!(acl.hit_count("r1"), 3);
}

#[test]
fn test_unused_rules() {
    let mut acl = NetworkAcl::default_deny();
    acl.add_rule(rule("r1", "app", Action::Allow, Target::AnyAddress, 10));
    acl.add_rule(rule("r2", "other", Action::Allow, Target::AnyAddress, 10));
    acl.check("app", &Direction::Egress, &ip(1, 2, 3, 4), 80);
    assert_eq!(acl.unused_rules().len(), 1);
}

#[test]
fn test_remove_rule() {
    let mut acl = NetworkAcl::default_deny();
    acl.add_rule(rule("r1", "app", Action::Allow, Target::AnyAddress, 10));
    assert!(acl.remove_rule("r1"));
    assert_eq!(acl.rule_count(), 0);
}

#[test]
fn cidr_v6_and_family_mismatch() {
    let net = IpAddress::V6(0x2001_0db8_0000_0000_0000_0000_0000_0000);
    let inside = IpAddress::V6(0x2001_0db8_0000_0000_0000_0000_0000_0001);
    let outside = IpAddress::V6(0x2001_0db9_0000_0000_0000_0000_0000_0001);
    assert!(cidr_matches(&net, 32, &inside));
    assert!(!cidr_matches(&net, 32, &outside));
    assert!(!cidr_matches(&net, 32, &ip(1, 2, 3, 4)));
    assert!(cidr_matches(&ip(10, 0, 0, 0), 0, &ip(99, 1, 1, 1)));
}

#[test]
fn equal_priority_keeps_insertion_order() {
    let mut acl = NetworkAcl::default_deny();
    acl.add_rule(rule("first", "app", Action::Log, Target::AnyAddress, 10));
    acl.add_rule(rule("second", "app", Action::Deny, Target::AnyAddress, 10));
    acl.add_rule(rule("top", "other", Action::Allow, Target::AnyAddress, 20));
    let ids: Vec<&str> = acl.rules_for("app").iter().map(|r| r.id.as_str()).collect();
    assert_eq!(ids, vec!["first", "second"]);
    assert_eq!(acl.check("app", &Direction::Egress, &ip(1, 1, 1, 1), 1), AclDecision::Logged);
    assert_eq!(acl.hit_count("second"), 0);
}

#[test]
fn both_direction_rule_covers_ingress() {
    let mut acl = NetworkAcl::default_deny();
    let mut r = rule("r", "app", Action::Allow, Target::AnyAddress, 1);
    r.direction = Direction::Both;
    acl.add_rule(r);
    assert_eq!(acl.check("app", &Direction::Ingress, &ip(1, 1, 1, 1), 1), AclDecision::Allowed);
    let mut acl2 = NetworkAcl::default_deny();
    acl2.add_rule(rule("e", "app", Action::Allow, Target::AnyAddress, 1));
    assert_eq!(acl2.check("app", &Direction::Ingress, &ip(1, 1, 1, 1), 1), AclDecision::DefaultDeny);
}
