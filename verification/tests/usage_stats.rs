use appguard::usage_stats::UsageStats;

const DAY: i64 = 86_400_000;

fn now_ms() -> i64 {
    std::time::SystemTime::now().duration_since(std::time::UNIX_EPOCH).unwrap().as_millis() as i64
}

#[test]
fn usage_stats_test_record_launch() {
    let mut stats = UsageStats::new();
    stats.record_launch("firefox");
    stats.record_launch("firefox");
    assert_eq!(stats.get("firefox").unwrap().total_launches, 2);
}

#[test]
fn test_record_runtime() {
    let mut stats = UsageStats::new();
    stats.record_launch("firefox");
    stats.record_runtime("firefox", 3600);
    assert_eq!(stats.get("firefox").unwrap().total_runtime_secs, 3600);
    assert_eq!(stats.get("firefox").unwrap().avg_session_secs, 3600);
}

#[test]
fn test_most_used() {
    let mut stats = UsageStats::new();
    for _ in 0..10 {
        stats.record_launch("a");
    }
    for _ in 0..3 {
        stats.record_launch("b");
    }
    let top = stats.most_used(2);
    assert_eq!(top[0].0, "a");
    assert_eq!(top[0].1, 10);
}

#[test]
fn test_longest_used() {
    let mut stats = UsageStats::new();
    stats.record_launch("a");
    stats.record_runtime("a", 7200);
    stats.record_launch("b");
    stats.record_runtime("b", 1000);
    let top = stats.longest_used(1);
    assert_eq!(top[0].0, "a");
}

#[test]
fn test_record_memory_peak() {
    let mut stats = UsageStats::new();
    stats.record_launch("firefox");
    stats.record_memory("firefox", 1_000_000_000);
    stats.record_memory("firefox", 500_000_000);
    assert_eq!(stats.get("firefox").unwrap().peak_memory_bytes, 1_000_000_000);
}

#[test]
fn test_unused_apps() {
    let mut stats = UsageStats::new();
    stats.record_launch("recent");
    stats.record_launch_at("old", now_ms() - 60 * DAY);
    let unused = stats.unused_apps();
    assert!(unused.contains(&"old"));
    assert!(!unused.contains(&"recent"));
}

#[test]
fn test_active_apps() {
    let mut stats = UsageStats::new();
    stats.record_launch("recent");
    let active = stats.active_apps();
    assert!(active.contains(&"recent"));
}

#[test]
fn test_set_window() {
    let mut stats = UsageStats::new();
    stats.set_active_window(7);
    assert_eq!(stats.active_window(), 7);
}

#[test]
fn window_boundary_at_a_fixed_instant() {
    let mut stats = UsageStats::new();
    let now = 100 * DAY;
    stats.record_launch_at("edge", now - 30 * DAY);
    stats.record_launch_at("past", now - 30 * DAY - 1);
    stats.record_runtime("never", 5);
    assert_eq!(stats.active_apps_at(now), vec!["edge"]);
    assert_eq!(stats.unused_apps_at(now), vec!["past", "never"]);
    assert_eq!(stats.get("never").unwrap().total_launches, 0);
    assert_eq!(stats.get("never").unwrap().avg_session_secs, 0);
    assert_eq!(stats.count(), 3);
}

#[test]
fn average_session_divides_runtime_by_launches() {
    let mut stats = UsageStats::new();
    stats.record_launch_at("a", 1);
    stats.record_launch_at("a", 2);
    stats.record_launch_at("a", 3);
    stats.record_runtime("a", 100);
    let a = stats.get("a").unwrap();
    assert_eq!(a.avg_session_secs, 33);
    assert_eq!(a.last_launched, Some(3));
}
