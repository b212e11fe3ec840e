use appguard::tracker::{AppUsage, UsageTracker};

const DAY: i64 = 86_400_000;

fn now_ms() -> i64 {
    std::time::SystemTime::now().duration_since(std::time::UNIX_EPOCH).unwrap().as_millis() as i64
}

fn usage(id: &str, name: &str, last_used: i64, first_seen: i64, installed: u64, data: u64, archived: bool) -> AppUsage {
    AppUsage {
        app_id: id.to_string(),
        display_name: name.to_string(),
        foreground_time_secs: 0,
        launch_count: 0,
        last_used,
        first_seen,
        installed_size_bytes: installed,
        data_size_bytes: data,
        archived,
    }
}

#[test]
fn tracker_test_record_launch() {
    let mut tracker = UsageTracker::new(90);
    tracker.record_launch("com.example.app", "Example App");
    tracker.record_launch("com.example.app", "Example App");
    let app = tracker.get_app("com.example.app").unwrap();
    assert_eq!(app.launch_count, 2);
    assert_eq!(app.display_name, "Example App");
}

#[test]
fn test_archive_candidates() {
    let mut tracker = UsageTracker::new(90);
    tracker.record_launch("com.used.app", "Used App");
    let now = now_ms();
    tracker.insert_raw(
        "com.old.app".to_string(),
        usage("com.old.app", "Old App", now - 180 * DAY, now - 365 * DAY, 50_000_000, 10_000_000, false),
    );
    let candidates = tracker.archive_candidates();
    assert_eq!(candidates.len(), 1);
    assert_eq!(candidates[0].app_id, "com.old.app");
}

#[test]
fn test_reclaimable_space() {
    let mut tracker = UsageTracker::new(30);
    let now = now_ms();
    tracker.insert_raw("old1".to_string(), usage("old1", "Old 1", now - 60 * DAY, now - 90 * DAY, 100_000, 50_000, false));
    assert_eq!(tracker.reclaimable_space(), 100_000);
}

#[test]
fn test_mark_archived() {
    let mut tracker = UsageTracker::new(90);
    tracker.record_launch("com.test", "Test");
    assert!(tracker.mark_archived("com.test"));
    assert!(tracker.get_app("com.test").unwrap().archived);
}

#[test]
fn test_archived_excluded_from_candidates() {
    let mut tracker = UsageTracker::new(1);
    let now = now_ms();
    tracker.insert_raw("archived".to_string(), usage("archived", "Archived", now - 30 * DAY, now - 60 * DAY, 100, 0, true));
    assert!(tracker.archive_candidates().is_empty());
}

#[test]
fn test_usage_frequency() {
    let now = 1_700_000_000_000;
    let mut u = usage("daily", "Daily App", now, now - 30 * DAY, 0, 0, false);
    u.launch_count = 30;
    assert_eq!(u.days_tracked_at(now), 30);
    assert_eq!(u.launch_count / u.days_tracked_at(now) as u64, 1);
}

#[test]
fn candidates_largest_first_at_fixed_time() {
    let now = 1_700_000_000_000;
    let mut tracker = UsageTracker::new(10);
    tracker.insert_raw("small".into(), usage("small", "Small", now - 20 * DAY, now - 40 * DAY, 10, 5, false));
    tracker.insert_raw("big".into(), usage("big", "Big", now - 20 * DAY, now - 40 * DAY, 1000, 0, false));
    tracker.insert_raw("fresh".into(), usage("fresh", "Fresh", now - DAY, now - 40 * DAY, 9999, 0, false));
    let c = tracker.archive_candidates_at(now);
    let ids: Vec<&str> = c.iter().map(|u| u.app_id.as_str()).collect();
    assert_eq!(ids, vec!["big", "small"]);
    assert_eq!(tracker.reclaimable_space_at(now), 1010);
    assert_eq!(c[0].days_since_last_use_at(now), 20);
}

#[test]
fn recency_order_and_unknown_app() {
    let now = 1_700_000_000_000;
    let mut tracker = UsageTracker::new(10);
    tracker.insert_raw("a".into(), usage("a", "A", now - 5, now - 10, 0, 0, false));
    tracker.insert_raw("b".into(), usage("b", "B", now, now - 10, 0, 0, false));
    let r = tracker.apps_by_recency();
    assert_eq!(r[0].app_id, "b");
    assert!(!tracker.mark_archived("missing"));
    assert!(tracker.get_app("missing").is_none());
    assert_eq!(tracker.app_count(), 2);
    tracker.record_foreground_time_at("a", 30, now + 1);
    assert_eq!(tracker.get_app("a").unwrap().foreground_time_secs, 30);
    assert_eq!(tracker.get_app("a").unwrap().last_used, now + 1);
    tracker.update_size("a", 7, 8);
    assert_eq!(tracker.get_app("a").unwrap().total_size(), 15);
}

#[test]
fn candidates_ordered_by_binary_not_data() {
    let now = 1_700_000_000_000;
    let mut tracker = UsageTracker::new(10);
    tracker.insert_raw("datahog".into(), usage("datahog", "Data Hog", now - 20 * DAY, now - 40 * DAY, 10, 5_000, false));
    tracker.insert_raw("binary".into(), usage("binary", "Binary", now - 20 * DAY, now - 40 * DAY, 100, 0, false));
    let c = tracker.archive_candidates_at(now);
    let ids: Vec<&str> = c.iter().map(|u| u.app_id.as_str()).collect();
    assert_eq!(ids, vec!["binary", "datahog"]);
    assert_eq!(tracker.reclaimable_space_at(now), 110);
}

#[test]
fn equal_size_candidates_keep_tracking_order() {
    let now = 1_700_000_000_000;
    let mut tracker = UsageTracker::new(10);
    tracker.insert_raw("first".into(), usage("first", "First", now - 20 * DAY, now - 40 * DAY, 100, 0, false));
    tracker.insert_raw("second".into(), usage("second", "Second", now - 30 * DAY, now - 40 * DAY, 100, 9, false));
    tracker.insert_raw("third".into(), usage("third", "Third", now - 25 * DAY, now - 40 * DAY, 100, 0, false));
    let ids: Vec<&str> = tracker.archive_candidates_at(now).iter().map(|u| u.app_id.as_str()).collect();
    assert_eq!(ids, vec!["first", "second", "third"]);
}
