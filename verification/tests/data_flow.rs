use appguard::data_flow::{
    glob_matches, ClipboardAccessKind, ClipboardEvent, DataFlowEvent, DataFlowPolicy, DataFlowTracker, DataType,
    FileAccessEvent, FileAccessKind, FlowDestination, NetworkEvent, PolicySet, ScreenCaptureKind, ScreenEvent,
    ViolationSeverity, severity_for_path,
};

fn make_event(app: &str, dt: DataType, dest: FlowDestination) -> DataFlowEvent {
    DataFlowEvent { app_id: app.into(), data_type: dt, destination: dest, bytes: 1024, timestamp: 1_700_000_000_000 }
}

fn file_read(app: &str, path: &str, size: u64) -> FileAccessEvent {
    FileAccessEvent {
        app_id: app.into(),
        path: path.into(),
        access_kind: FileAccessKind::Read,
        size_bytes: size,
        timestamp: 1_700_000_000_000,
    }
}

fn file_write(app: &str, path: &str, size: u64) -> FileAccessEvent {
    FileAccessEvent {
        app_id: app.into(),
        path: path.into(),
        access_kind: FileAccessKind::Write,
        size_bytes: size,
        timestamp: 1_700_000_000_000,
    }
}

fn net_event(app: &str, host: &str, port: u16, sent: u64, recv: u64) -> NetworkEvent {
    NetworkEvent {
        app_id: app.into(),
        destination: host.into(),
        port,
        bytes_sent: sent,
        bytes_received: recv,
        timestamp: 1_700_000_000_000,
    }
}

fn clip_event(app: &str) -> ClipboardEvent {
    ClipboardEvent { app_id: app.into(), access_kind: ClipboardAccessKind::Read, timestamp: 1_700_000_000_000 }
}

fn screen_event(app: &str) -> ScreenEvent {
    ScreenEvent { app_id: app.into(), capture_kind: ScreenCaptureKind::Screenshot, timestamp: 1_700_000_000_000 }
}

fn sample_policy(app: &str) -> DataFlowPolicy {
    DataFlowPolicy {
        app_id: app.into(),
        allowed_read_globs: vec!["/tmp/*".into(), "/home/user/docs/*".into()],
        allowed_write_globs: vec!["/tmp/*".into()],
        allowed_hosts: vec!["*.example.com".into(), "api.safe.io".into()],
        clipboard_allowed: false,
        screen_capture_allowed: false,
    }
}

#[test]
fn test_legacy_record_and_query() {
    let mut tracker = DataFlowTracker::new(100);
    tracker.record(make_event("app1", DataType::Files, FlowDestination::LocalFile("/tmp/out".into())));
    tracker.record(make_event("app1", DataType::Contacts, FlowDestination::Network("api.evil.com".into())));
    assert_eq!(tracker.flows_by_app("app1").len(), 2);
}

#[test]
fn test_legacy_network_flows() {
    let mut tracker = DataFlowTracker::new(100);
    tracker.record(make_event("a", DataType::Files, FlowDestination::Network("cdn.com".into())));
    tracker.record(make_event("b", DataType::Files, FlowDestination::LocalFile("/tmp".into())));
    assert_eq!(tracker.network_flows().len(), 1);
}

#[test]
fn test_legacy_eviction() {
    let mut tracker = DataFlowTracker::new(10);
    for i in 0..20 {
        tracker.record(make_event(&format!("app{i}"), DataType::Files, FlowDestination::Clipboard));
    }
    assert!(tracker.event_count() <= 10);
}

#[test]
fn test_file_policy_enforcement() {
    let mut tracker = DataFlowTracker::new(100);
    let mut ps = PolicySet::new(false);
    ps.add_policy(sample_policy("editor"));
    tracker.set_policies(ps);
    tracker.record_file_access(file_read("editor", "/tmp/scratch.txt", 100));
    assert!(tracker.violations().is_empty());
    tracker.record_file_access(file_read("editor", "/etc/shadow", 64));
    assert_eq!(tracker.violations().len(), 1);
    assert_eq!(tracker.violations()[0].severity, ViolationSeverity::Critical);
    tracker.record_file_access(file_write("editor", "/home/user/docs/secret.txt", 200));
    assert_eq!(tracker.violations().len(), 2);
}

#[test]
fn test_network_policy_enforcement() {
    let mut tracker = DataFlowTracker::new(100);
    let mut ps = PolicySet::new(false);
    ps.add_policy(sample_policy("browser"));
    tracker.set_policies(ps);
    tracker.record_network(net_event("browser", "cdn.example.com", 443, 500, 2000));
    assert!(tracker.violations().is_empty());
    tracker.record_network(net_event("browser", "evil.tracker.net", 80, 1000, 0));
    assert_eq!(tracker.violations().len(), 1);
    assert_eq!(tracker.violations()[0].action, "network_connect");
}

#[test]
fn test_default_deny_blocks_unknown_app() {
    let mut tracker = DataFlowTracker::new(100);
    let ps = PolicySet::new(true);
    tracker.set_policies(ps);
    tracker.record_file_access(file_read("unknown_app", "/home/user/.bashrc", 32));
    tracker.record_network(net_event("unknown_app", "evil.com", 443, 100, 0));
    tracker.record_clipboard(clip_event("unknown_app"));
    tracker.record_screen(screen_event("unknown_app"));
    assert_eq!(tracker.violations().len(), 4);
}

#[test]
fn test_clipboard_and_screen_policy() {
    let mut tracker = DataFlowTracker::new(100);
    let mut ps = PolicySet::new(false);
    ps.add_policy(sample_policy("malware"));
    tracker.set_policies(ps);
    tracker.record_clipboard(clip_event("malware"));
    assert_eq!(tracker.violations().len(), 1);
    assert_eq!(tracker.violations()[0].action, "clipboard_access");
    tracker.record_screen(screen_event("malware"));
    assert_eq!(tracker.violations().len(), 2);
    assert_eq!(tracker.violations()[1].action, "screen_capture");
}

#[test]
fn test_top_senders() {
    let mut tracker = DataFlowTracker::new(100);
    tracker.record_network(net_event("big_sender", "cdn.com", 443, 50_000, 100));
    tracker.record_network(net_event("big_sender", "api.com", 443, 30_000, 200));
    tracker.record_network(net_event("small_sender", "api.com", 443, 500, 1000));
    let top = tracker.top_senders(2);
    assert_eq!(top.len(), 2);
    assert_eq!(top[0].0, "big_sender");
    assert_eq!(top[0].1, 80_000);
    assert_eq!(top[1].0, "small_sender");
}

#[test]
fn test_suspicious_flows_analytics() {
    let mut tracker = DataFlowTracker::new(100);
    tracker.record_file_access(file_read("spy", "/etc/passwd", 200));
    tracker.record_network(net_event("spy", "exfil.bad.com", 443, 200, 0));
    tracker.record_file_access(file_read("offline_reader", "/home/user/diary.txt", 100));
    let suspicious = tracker.suspicious_flows();
    assert_eq!(suspicious.len(), 1);
    assert_eq!(suspicious[0].app_id, "spy");
}

#[test]
fn test_glob_matching() {
    assert!(glob_matches("/tmp/*", "/tmp/foo.txt"));
    assert!(glob_matches("/tmp/*", "/tmp/bar"));
    assert!(!glob_matches("/tmp/*", "/etc/foo"));
    assert!(glob_matches("*.example.com", "cdn.example.com"));
    assert!(glob_matches("*.example.com", "sub.example.com"));
    assert!(!glob_matches("*.example.com", "evil.com"));
    assert!(glob_matches("file?.txt", "file1.txt"));
    assert!(!glob_matches("file?.txt", "file10.txt"));
}

#[test]
fn exfiltration_factors_count_each_source() {
    let mut tracker = DataFlowTracker::new(100);
    tracker.record_file_access(file_read("spyware", "/etc/shadow", 64));
    tracker.record_file_access(file_read("spyware", "/home/user/.ssh/id_rsa", 1700));
    tracker.record_network(net_event("spyware", "c2.evil.com", 443, 100_000, 50));
    tracker.record_network(net_event("spyware", "backup.evil.com", 8080, 50_000, 10));
    tracker.record_network(net_event("spyware", "c2.evil.com", 443, 1, 0));
    tracker.record_clipboard(clip_event("spyware"));
    let f = tracker.exfiltration_factors("spyware");
    assert_eq!(f.total_sent, 150_001);
    assert_eq!(f.distinct_hosts, 2);
    assert_eq!(f.sensitive_reads, 2);
    assert!(f.clipboard_access);
    assert!(!f.screen_capture);
    assert_eq!(f.violation_count, 0);
    let clean = tracker.exfiltration_factors("clean_app");
    assert_eq!(clean.total_sent, 0);
    assert_eq!(clean.distinct_hosts, 0);
}

#[test]
fn suspicious_flow_severity_and_time() {
    let mut tracker = DataFlowTracker::new(100);
    tracker.record_file_access(file_read("spy", "/etc/passwd", 200));
    tracker.record_file_access(file_read("spy", "/home/u/a.txt", 10));
    tracker.record_network(net_event("spy", "exfil.bad.com", 443, 200, 0));
    let found = tracker.suspicious_flows_at(77);
    assert_eq!(found.len(), 2);
    assert_eq!(found[0].severity, ViolationSeverity::Critical);
    assert_eq!(found[1].severity, ViolationSeverity::High);
    assert_eq!(found[0].timestamp, 77);
    assert_eq!(found[0].action, "suspicious_flow");
}

#[test]
fn network_violation_resource_is_host_and_port() {
    let mut tracker = DataFlowTracker::new(100);
    tracker.set_policies(PolicySet::new(true));
    tracker.record_network(net_event("x", "evil.com", 8443, 1, 0));
    assert_eq!(tracker.violations()[0].resource, "evil.com:8443");
}

#[test]
fn severity_levels_by_path() {
    assert_eq!(severity_for_path("/etc/shadow"), ViolationSeverity::Critical);
    assert_eq!(severity_for_path("/home/a/b"), ViolationSeverity::High);
    assert_eq!(severity_for_path("/tmp/x"), ViolationSeverity::Low);
    assert_eq!(severity_for_path("/opt/x"), ViolationSeverity::Medium);
}

#[test]
fn eviction_drops_oldest_half() {
    let mut tracker = DataFlowTracker::new(4);
    for i in 0..5 {
        tracker.record(make_event(&format!("app{i}"), DataType::Files, FlowDestination::Clipboard));
    }
    assert_eq!(tracker.event_count(), 3);
    assert_eq!(tracker.flows_by_app("app0").len(), 0);
    assert_eq!(tracker.flows_by_app("app2").len(), 1);
}

#[test]
fn total_bytes_grouped_by_app() {
    let mut tracker = DataFlowTracker::new(100);
    tracker.record(make_event("a", DataType::Files, FlowDestination::Clipboard));
    tracker.record(make_event("b", DataType::Files, FlowDestination::Clipboard));
    tracker.record(make_event("a", DataType::Files, FlowDestination::Clipboard));
    let t = tracker.total_bytes_by_app();
    assert_eq!(t, vec![("a".to_string(), 2048), ("b".to_string(), 1024)]);
}
