use appguard::network_audit::{AppConnection, NetworkAuditor};
use appguard::permissions::{Permission, PermissionAccess, PermissionAuditor};
use appguard::reporter::{escape_html, format_bytes, format_permission, AppGuardReporter};
use appguard::tracker::{AppUsage, UsageTracker};

const DAY: i64 = 86_400_000;

fn now_ms() -> i64 {
    std::time::SystemTime::now().duration_since(std::time::UNIX_EPOCH).unwrap().as_millis() as i64
}

fn make_old_app(app_id: &str, display_name: &str, last_used: i64, installed_size: u64) -> (String, AppUsage) {
    (
        app_id.to_string(),
        AppUsage {
            app_id: app_id.to_string(),
            display_name: display_name.to_string(),
            foreground_time_secs: 10,
            launch_count: 1,
            last_used,
            first_seen: last_used - 30 * DAY,
            installed_size_bytes: installed_size,
            data_size_bytes: 5_000_000,
            archived: false,
        },
    )
}

fn test_fixtures() -> (UsageTracker, PermissionAuditor, NetworkAuditor) {
    let mut tracker = UsageTracker::new(30);
    let mut perm_auditor = PermissionAuditor::new();
    let mut net_auditor = NetworkAuditor::new();
    tracker.record_launch("com.risky.app", "Risky App");
    perm_auditor.register_app(
        "com.risky.app",
        vec![
            Permission::Camera,
            Permission::Microphone,
            Permission::Location,
            Permission::DeviceAdmin,
            Permission::Accessibility,
        ],
    );
    perm_auditor.record_access(PermissionAccess {
        permission: Permission::Microphone,
        app_id: "com.risky.app".into(),
        accessed_at: now_ms(),
        foreground: false,
    });
    net_auditor.record(AppConnection {
        app_id: "com.risky.app".into(),
        dest_ip: "6.6.6.6".into(),
        dest_port: 443,
        dest_domain: Some("malware-c2.example.com".into()),
        bytes_sent: 2000,
        bytes_received: 8000,
        timestamp: now_ms(),
        protocol: "tcp".into(),
    });
    let (id, usage) = make_old_app("com.old.app", "Old App", now_ms() - 60 * DAY, 50_000_000);
    tracker.insert_raw(id, usage);
    tracker.record_launch("com.clean.app", "Clean App");
    perm_auditor.register_app("com.clean.app", vec![Permission::Notifications]);
    (tracker, perm_auditor, net_auditor)
}

#[test]
fn test_generate_report_populates_all_fields() {
    let (tracker, auditor, network) = test_fixtures();
    let report = AppGuardReporter::generate_report(&tracker, &auditor, &network);
    assert_eq!(report.total_apps, 3);
    assert!(!report.high_risk_apps.is_empty(), "should flag risky app");
    assert!(!report.unused_apps.is_empty(), "should find unused app");
    assert!(!report.permission_violations.is_empty(), "should detect violations");
    assert!(!report.network_anomalies.is_empty(), "should detect anomaly");
    assert!(report.reclaimable_space_bytes > 0);
}

#[test]
fn test_recommendations_not_empty_for_risky_apps() {
    let (tracker, auditor, network) = test_fixtures();
    let report = AppGuardReporter::generate_report(&tracker, &auditor, &network);
    assert!(!report.recommendations.is_empty(), "risky scenario must produce recommendations");
    let has_urgent = report.recommendations.iter().any(|r| r.starts_with("URGENT"));
    assert!(has_urgent, "suspicious connection should trigger URGENT rec");
    assert_eq!(report.top_recommendations().len(), report.recommendations.len());
}

#[test]
fn test_html_contains_required_sections() {
    let (tracker, auditor, network) = test_fixtures();
    let report = AppGuardReporter::generate_report(&tracker, &auditor, &network);
    let html = report.render_html();
    assert!(html.contains("<!DOCTYPE html>"));
    assert!(html.contains("id=\"high-risk\""));
    assert!(html.contains("id=\"unused\""));
    assert!(html.contains("id=\"violations\""));
    assert!(html.contains("id=\"network\""));
    assert!(html.contains("id=\"recommendations\""));
    assert!(html.contains("<style>"));
    assert!(html.contains("Risky App"));
}

#[test]
fn test_text_report_formatting() {
    let (tracker, auditor, network) = test_fixtures();
    let report = AppGuardReporter::generate_report(&tracker, &auditor, &network);
    let text = report.render_text();
    assert!(text.contains("=== PlausiDen AppGuard Report ==="));
    assert!(text.contains("High-Risk Applications"));
    assert!(text.contains("Unused Applications"));
    assert!(text.contains("Permission Violations"));
    assert!(text.contains("Network Anomalies"));
    assert!(text.contains("Recommendations"));
    assert!(text.contains("Risky App"));
    assert!(text.contains("Old App"));
}

#[test]
fn test_empty_scenario_no_panic() {
    let tracker = UsageTracker::new(90);
    let auditor = PermissionAuditor::new();
    let network = NetworkAuditor::new();
    let report = AppGuardReporter::generate_report(&tracker, &auditor, &network);
    assert_eq!(report.total_apps, 0);
    assert!(report.high_risk_apps.is_empty());
    assert!(report.recommendations.is_empty());
    let _ = report.render_text();
    let _ = report.render_html();
}

#[test]
fn byte_formatting() {
    assert_eq!(format_bytes(512), "512 B");
    assert_eq!(format_bytes(1536), "1.5 KB");
    assert_eq!(format_bytes(1024 * 1024), "1.0 MB");
    assert_eq!(format_bytes(50_000_000), "47.7 MB");
    assert_eq!(format_bytes(3 * 1024 * 1024 * 1024), "3.0 GB");
}

#[test]
fn html_escaping_and_permission_names() {
    assert_eq!(escape_html("<a href=\"x\">&</a>"), "&lt;a href=&quot;x&quot;&gt;&amp;&lt;/a&gt;");
    assert_eq!(format_permission(&Permission::DeviceAdmin), "DeviceAdmin");
    assert_eq!(format_permission(&Permission::Custom("nfc".into())), "Custom(nfc)");
}

#[test]
fn report_at_fixed_time_text_header() {
    let (tracker, auditor, network) = test_fixtures();
    let report = AppGuardReporter::generate_report_at(&tracker, &auditor, &network, 0);
    let text = report.render_text();
    assert!(text.starts_with("=== PlausiDen AppGuard Report ===\nGenerated: 1970-01-01 00:00:00 UTC\nTotal apps tracked: 3\n"));
    assert_eq!(report.high_risk_apps[0].risk_percent, 85);
}

#[test]
fn report_format_bytes_matches_float_rendering() {
    let units: [(u64, &str); 3] = [(1 << 30, "GB"), (1 << 20, "MB"), (1 << 10, "KB")];
    let values: [u64; 11] = [1024, 1792, 1075, 1126, 1280, 1331, 1536, 2047, 5_000_000, 1_610_612_736, (1 << 20) + 52429];
    for &b in values.iter() {
        let (unit, name) = units.iter().copied().find(|(u, _)| b >= *u).unwrap();
        let expected = format!("{:.1} {}", b as f64 / unit as f64, name);
        assert_eq!(appguard::reporter::format_bytes(b), expected, "bytes {}", b);
    }
}
