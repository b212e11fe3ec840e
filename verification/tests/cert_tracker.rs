use appguard::cert_tracker::{CertTracker, Certificate, PinningResult};

const DAY: i64 = 86_400_000;

fn now_ms() -> i64 {
    std::time::SystemTime::now().duration_since(std::time::UNIX_EPOCH).unwrap().as_millis() as i64
}

fn cert(fp: &str, subject: &str, days_until_expiry: i64, algorithm: &str, key_bits: u32) -> Certificate {
    let now = now_ms();
    Certificate {
        fingerprint: fp.into(),
        subject: subject.into(),
        issuer: "CA".into(),
        not_before: now - DAY,
        not_after: now + days_until_expiry * DAY,
        serial: "001".into(),
        algorithm: algorithm.into(),
        key_bits,
        san: vec![],
        ca: false,
        pinned_for: vec![],
    }
}

#[test]
fn test_is_valid() {
    let c = cert("abc", "example.com", 30, "rsa", 2048);
    assert!(c.is_valid());
}

#[test]
fn test_is_expired() {
    let c = cert("abc", "example.com", -1, "rsa", 2048);
    assert!(c.is_expired());
}

#[test]
fn test_expiring_soon() {
    let c = cert("abc", "example.com", 5, "rsa", 2048);
    assert!(c.expiring_soon(10));
}

#[test]
fn test_weak_key_rsa() {
    let c = cert("abc", "example.com", 30, "rsa", 1024);
    assert!(c.has_weak_key());
}

#[test]
fn test_weak_key_ecdsa() {
    let c = cert("abc", "example.com", 30, "ecdsa", 192);
    assert!(c.has_weak_key());
}

#[test]
fn test_register_and_get() {
    let mut t = CertTracker::new();
    t.register(cert("abc", "example.com", 30, "rsa", 2048));
    assert!(t.get("abc").is_some());
}

#[test]
fn test_pin_and_check() {
    let mut t = CertTracker::new();
    t.register(cert("abc", "example.com", 30, "rsa", 2048));
    t.pin("abc", "firefox");
    assert_eq!(t.check_pinning("firefox", "abc"), PinningResult::PinMatch);
    assert_eq!(t.check_pinning("firefox", "xyz"), PinningResult::PinViolation);
}

#[test]
fn test_no_pin() {
    let t = CertTracker::new();
    assert_eq!(t.check_pinning("firefox", "abc"), PinningResult::NoPin);
}

#[test]
fn test_expiring_within() {
    let mut t = CertTracker::new();
    t.register(cert("a", "a.com", 5, "rsa", 2048));
    t.register(cert("b", "b.com", 100, "rsa", 2048));
    assert_eq!(t.expiring_within(10).len(), 1);
}

#[test]
fn test_weak_keys_list() {
    let mut t = CertTracker::new();
    t.register(cert("a", "a.com", 30, "rsa", 1024));
    t.register(cert("b", "b.com", 30, "rsa", 2048));
    assert_eq!(t.weak_keys().len(), 1);
}

#[test]
fn test_record_usage() {
    let mut t = CertTracker::new();
    t.record_usage("firefox", "abc", "example.com");
    t.record_usage("firefox", "abc", "example.com");
    assert_eq!(t.usage_for_app("firefox")[0].seen_count, 2);
}

#[test]
fn validity_at_fixed_instants() {
    let mut c = cert("a", "a.com", 0, "RSA", 2048);
    c.not_before = 1_000;
    c.not_after = 1_000 + 3 * DAY;
    assert!(c.is_valid_at(1_000));
    assert!(!c.is_valid_at(999));
    assert!(!c.is_expired_at(1_000 + 3 * DAY));
    assert!(c.is_expired_at(1_001 + 3 * DAY));
    assert_eq!(c.days_until_expiry_at(1_000), 3);
    assert_eq!(c.days_until_expiry_at(1_000 + 4 * DAY - 1), 0);
    assert_eq!(c.days_until_expiry_at(1_000 + 5 * DAY - 1), -1);
    assert!(c.expiring_soon_at(3, 1_000));
    assert!(!c.expiring_soon_at(2, 1_000));
    assert!(c.expiring_soon_at(0, 1_000 + 4 * DAY - 1));
    assert!(!c.has_weak_key());
    c.key_bits = 1024;
    assert!(c.has_weak_key());
    c.algorithm = "ed25519".into();
    assert!(!c.has_weak_key());
}

#[test]
fn pinning_and_registration_details() {
    let mut t = CertTracker::new();
    assert!(!t.pin("missing", "firefox"));
    let mut ca = cert("root", "Root", 3650, "ecdsa", 384);
    ca.ca = true;
    t.register(ca);
    t.register(cert("leaf", "leaf.com", 30, "ecdsa", 256));
    assert!(t.pin("leaf", "firefox"));
    assert!(t.pin("leaf", "firefox"));
    assert_eq!(t.get("leaf").unwrap().pinned_for, vec!["firefox".to_string()]);
    assert_eq!(t.check_pinning("chrome", "leaf"), PinningResult::NoPin);
    assert_eq!(t.cas().len(), 1);
    assert_eq!(t.cas()[0].fingerprint, "root");
    t.register(cert("leaf", "other.com", 30, "ecdsa", 256));
    assert_eq!(t.cert_count(), 2);
    assert_eq!(t.get("leaf").unwrap().subject, "other.com");
    assert_eq!(t.expired_at(i64::MAX).len(), 2);
}

#[test]
fn usage_records_are_distinguished_by_host() {
    let mut t = CertTracker::new();
    t.record_usage_at("firefox", "abc", "a.com", 5);
    t.record_usage_at("firefox", "abc", "b.com", 6);
    t.record_usage_at("firefox", "abc", "a.com", 7);
    let u = t.usage_for_app("firefox");
    assert_eq!(u.len(), 2);
    assert_eq!(u[0].seen_count, 2);
    assert_eq!(u[0].first_seen, 5);
    assert_eq!(u[0].last_seen, 7);
    assert_eq!(t.usage_count(), 2);
}
