use appguard::network_audit::{AppConnection, NetworkAuditor};

fn make_conn(app: &str, dest: &str, port: u16) -> AppConnection {
    AppConnection {
        app_id: app.into(),
        dest_ip: "1.2.3.4".into(),
        dest_port: port,
        dest_domain: Some(dest.into()),
        bytes_sent: 1000,
        bytes_received: 5000,
        timestamp: 1_700_000_000_000,
        protocol: "tcp".into(),
    }
}

#[test]
fn test_record_and_profile() {
    let mut auditor = NetworkAuditor::new();
    auditor.record(make_conn("firefox", "google.com", 443));
    auditor.record(make_conn("firefox", "github.com", 443));
    auditor.record(make_conn("firefox", "google.com", 443));
    let profile = auditor.profile("firefox");
    assert_eq!(profile.total_connections, 3);
    assert_eq!(profile.unique_destinations, 2);
}

#[test]
fn test_suspicious_detection() {
    let mut auditor = NetworkAuditor::new();
    auditor.record(make_conn("malware", "malware-c2.example.com", 443));
    auditor.record(make_conn("firefox", "google.com", 443));
    let suspicious = auditor.check_suspicious("malware");
    assert_eq!(suspicious.len(), 1);
    let clean = auditor.check_suspicious("firefox");
    assert!(clean.is_empty());
}

#[test]
fn test_top_talkers() {
    let mut auditor = NetworkAuditor::new();
    for _ in 0..10 {
        auditor.record(make_conn("heavy", "cdn.com", 443));
    }
    for _ in 0..2 {
        auditor.record(make_conn("light", "api.com", 443));
    }
    let top = auditor.top_talkers(1);
    assert_eq!(top[0].0, "heavy");
}

#[test]
fn test_empty_profile() {
    let auditor = NetworkAuditor::new();
    let profile = auditor.profile("nonexistent");
    assert_eq!(profile.total_connections, 0);
    assert_eq!(profile.unique_destinations, 0);
}

#[test]
fn profile_totals_and_destination_counts() {
    let mut auditor = NetworkAuditor::new();
    auditor.record(make_conn("f", "a.com", 443));
    auditor.record(make_conn("f", "b.com", 443));
    auditor.record(make_conn("f", "a.com", 443));
    let mut bare = make_conn("f", "x", 80);
    bare.dest_domain = None;
    auditor.record(bare);
    let p = auditor.profile("f");
    assert_eq!(p.total_bytes_sent, 4000);
    assert_eq!(p.total_bytes_received, 20000);
    assert_eq!(
        p.destinations,
        vec![("a.com".to_string(), 2), ("b.com".to_string(), 1), ("1.2.3.4".to_string(), 1)]
    );
    assert_eq!(auditor.connection_count(), 4);
}
