use appguard::update_tracker::{UpdateEvent, UpdateSource, UpdateTracker};

const DAY: i64 = 86_400_000;

fn now_ms() -> i64 {
    std::time::SystemTime::now().duration_since(std::time::UNIX_EPOCH).unwrap().as_millis() as i64
}

fn make_event(app: &str, old: &str, new: &str, security: bool) -> UpdateEvent {
    UpdateEvent {
        app_id: app.into(),
        old_version: old.into(),
        new_version: new.into(),
        timestamp: now_ms(),
        update_source: UpdateSource::OfficialRepo,
        security_update: security,
    }
}

#[test]
fn test_record_update() {
    let mut tracker = UpdateTracker::new();
    tracker.record_update(make_event("firefox", "100.0", "101.0", false));
    assert_eq!(tracker.current_version("firefox"), Some(&"101.0".to_string()));
}

#[test]
fn test_history_for() {
    let mut tracker = UpdateTracker::new();
    tracker.record_update(make_event("app", "1.0", "1.1", false));
    tracker.record_update(make_event("app", "1.1", "1.2", false));
    tracker.record_update(make_event("other", "2.0", "2.1", false));
    assert_eq!(tracker.history_for("app").len(), 2);
}

#[test]
fn test_security_updates() {
    let mut tracker = UpdateTracker::new();
    tracker.record_update(make_event("a", "1.0", "1.1", true));
    tracker.record_update(make_event("b", "1.0", "1.1", false));
    tracker.record_update(make_event("c", "1.0", "1.1", true));
    assert_eq!(tracker.security_updates().len(), 2);
}

#[test]
fn test_outdated_apps() {
    let mut tracker = UpdateTracker::new();
    let mut old_event = make_event("old_app", "1.0", "1.1", false);
    old_event.timestamp = now_ms() - 60 * DAY;
    tracker.record_update(old_event);
    tracker.record_update(make_event("current_app", "1.0", "1.1", false));
    let outdated = tracker.outdated_apps(30);
    assert!(outdated.contains(&"old_app".to_string()));
    assert!(!outdated.contains(&"current_app".to_string()));
}

#[test]
fn update_tracker_test_recent() {
    let mut tracker = UpdateTracker::new();
    tracker.record_update(make_event("app", "1.0", "1.1", false));
    assert_eq!(tracker.recent(3600).len(), 1);
}

#[test]
fn update_tracker_test_tracked_apps() {
    let mut tracker = UpdateTracker::new();
    tracker.record_update(make_event("a", "1", "2", false));
    tracker.record_update(make_event("b", "1", "2", false));
    tracker.record_update(make_event("a", "2", "3", false));
    assert_eq!(tracker.tracked_apps(), 2);
}

#[test]
fn update_tracker_test_source_counts() {
    let mut tracker = UpdateTracker::new();
    tracker.record_update(make_event("a", "1", "2", false));
    tracker.record_update(make_event("b", "1", "2", false));
    let counts = tracker.source_counts();
    let official = counts.iter().find(|(k, _)| k == "OfficialRepo").map(|(_, n)| *n);
    assert_eq!(official, Some(2));
}

#[test]
fn outdated_uses_the_latest_update_of_each_app() {
    let mut tracker = UpdateTracker::new();
    let now = 1_000 * DAY;
    let at = |app: &str, t: i64| UpdateEvent { timestamp: t, ..make_event(app, "1", "2", false) };
    tracker.record_update(at("a", now - 90 * DAY));
    tracker.record_update(at("b", now - 40 * DAY));
    tracker.record_update(at("a", now - 10 * DAY));
    tracker.record_update(at("c", now - 30 * DAY));
    assert_eq!(tracker.outdated_apps_at(30, now), vec!["b".to_string()]);
    assert_eq!(tracker.outdated_apps_at(5, now), vec!["a".to_string(), "b".to_string(), "c".to_string()]);
    assert_eq!(tracker.recent_at(20 * 86_400, now).len(), 1);
    assert_eq!(tracker.current_version("zzz"), None);
}

#[test]
fn source_counts_use_source_names() {
    let mut tracker = UpdateTracker::new();
    let with = |s: UpdateSource| UpdateEvent { update_source: s, ..make_event("a", "1", "2", false) };
    tracker.record_update(with(UpdateSource::PackageManager));
    tracker.record_update(with(UpdateSource::Unknown));
    tracker.record_update(with(UpdateSource::PackageManager));
    assert_eq!(
        tracker.source_counts(),
        vec![("PackageManager".to_string(), 2), ("Unknown".to_string(), 1)]
    );
    assert_eq!(tracker.event_count(), 3);
}
