use appguard::traffic_meter::{TrafficMeter, TrafficSample};

fn now_ms() -> i64 {
    std::time::SystemTime::now().duration_since(std::time::UNIX_EPOCH).unwrap().as_millis() as i64
}

fn sample(app: &str, sent: u64, recv: u64) -> TrafficSample {
    TrafficSample {
        app_id: app.into(),
        timestamp: now_ms(),
        bytes_sent: sent,
        bytes_received: recv,
        interface: "wlan0".into(),
    }
}

fn sample_at(app: &str, sent: u64, recv: u64, at: i64) -> TrafficSample {
    TrafficSample { timestamp: at, ..sample(app, sent, recv) }
}

#[test]
fn test_record_basic() {
    let mut m = TrafficMeter::new();
    m.record(sample("firefox", 100, 200));
    let t = m.get("firefox").unwrap();
    assert_eq!(t.total_sent, 100);
    assert_eq!(t.total_received, 200);
}

#[test]
fn test_multiple_samples() {
    let mut m = TrafficMeter::new();
    m.record(sample("firefox", 100, 200));
    m.record(sample("firefox", 50, 75));
    let t = m.get("firefox").unwrap();
    assert_eq!(t.total_sent, 150);
    assert_eq!(t.total_received, 275);
}

#[test]
fn traffic_meter_test_top_apps() {
    let mut m = TrafficMeter::new();
    m.record(sample("heavy", 1000, 1000));
    m.record(sample("light", 10, 10));
    let top = m.top_apps(2);
    assert_eq!(top[0].app_id, "heavy");
}

#[test]
fn test_today_total() {
    let mut m = TrafficMeter::new();
    m.record(sample("a", 100, 50));
    m.record(sample("b", 200, 100));
    let (sent, recv) = m.total_today();
    assert_eq!(sent, 300);
    assert_eq!(recv, 150);
}

#[test]
fn test_daily_over_threshold() {
    let mut m = TrafficMeter::new();
    m.record(sample("heavy", 10_000_000, 0));
    m.record(sample("light", 100, 100));
    assert_eq!(m.daily_over(1_000_000).len(), 1);
}

#[test]
fn test_monthly_over_threshold() {
    let mut m = TrafficMeter::new();
    m.record(sample("heavy", 100_000_000, 0));
    assert_eq!(m.monthly_over(10_000_000).len(), 1);
}

#[test]
fn test_format_bytes() {
    assert_eq!(TrafficMeter::format_bytes(500), "500 B");
    assert_eq!(TrafficMeter::format_bytes(2048), "2.00 KB");
    assert!(TrafficMeter::format_bytes(5_000_000).ends_with("MB"));
    assert!(TrafficMeter::format_bytes(5_000_000_000).ends_with("GB"));
}

#[test]
fn test_today_bytes_per_app() {
    let mut m = TrafficMeter::new();
    m.record(sample("a", 100, 50));
    let (s, r) = m.get("a").unwrap().today_bytes();
    assert_eq!(s, 100);
    assert_eq!(r, 50);
}

#[test]
fn test_total_samples_count() {
    let mut m = TrafficMeter::new();
    m.record(sample("a", 10, 10));
    m.record(sample("b", 10, 10));
    assert_eq!(m.total_samples(), 2);
}

#[test]
fn traffic_meter_test_total_bytes() {
    let mut m = TrafficMeter::new();
    m.record(sample("a", 100, 200));
    assert_eq!(m.get("a").unwrap().total_bytes(), 300);
}

#[test]
fn samples_are_keyed_by_utc_day_and_month() {
    let mut m = TrafficMeter::new();
    // 2024-01-31T23:59:59Z and 2024-02-01T00:00:00Z
    assert!(m.record(sample_at("a", 10, 1, 1_706_745_599_000)));
    assert!(m.record(sample_at("a", 20, 2, 1_706_745_600_000)));
    let a = m.get("a").unwrap();
    assert_eq!(a.day_bytes("2024-01-31"), (10, 1));
    assert_eq!(a.day_bytes("2024-02-01"), (20, 2));
    assert_eq!(a.month_bytes("2024-01"), (10, 1));
    assert_eq!(a.month_bytes("2024-02"), (20, 2));
    assert_eq!(a.first_seen, 1_706_745_599_000);
    assert_eq!(a.last_seen, 1_706_745_600_000);
    assert_eq!(m.total_on_day("2024-01-31"), (10, 1));
    assert_eq!(m.total_in_month("2024-03"), (0, 0));
    assert_eq!(m.over_on_day("2024-02-01", 21).len(), 1);
    assert_eq!(m.over_on_day("2024-02-01", 22).len(), 0);
    assert_eq!(m.over_in_month("2024-01", 10).len(), 1);
}

#[test]
fn unrepresentable_instant_is_not_recorded() {
    let mut m = TrafficMeter::new();
    assert!(!m.record(sample_at("a", 1, 1, i64::MAX)));
    assert_eq!(m.app_count(), 0);
    assert_eq!(m.total_samples(), 0);
}

#[test]
fn format_bytes_matches_float_rendering() {
    let units: [(u64, &str); 4] = [(1 << 40, "TB"), (1 << 30, "GB"), (1 << 20, "MB"), (1 << 10, "KB")];
    let values: [u64; 14] = [1024, 1152, 1408, 1029, 1034, 1280, 1285, 1536, 2047, 5_000_000, 5_242_880, 5_000_000_000, 3 << 40, (1 << 20) + 5243];
    for &b in values.iter() {
        let (unit, name) = units.iter().copied().find(|(u, _)| b >= *u).unwrap();
        let expected = format!("{:.2} {}", b as f64 / unit as f64, name);
        assert_eq!(TrafficMeter::format_bytes(b), expected, "bytes {}", b);
    }
}
