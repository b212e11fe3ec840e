use appguard::background_activity::ActivityType;

#[test]
fn test_sensitive_detection() {
    assert!(ActivityType::CameraAccess.is_sensitive());
    assert!(ActivityType::MicrophoneAccess.is_sensitive());
    assert!(!ActivityType::FileRead.is_sensitive());
}

#[test]
fn location_and_clipboard_are_sensitive() {
    assert!(ActivityType::LocationQuery.is_sensitive());
    assert!(ActivityType::ClipboardRead.is_sensitive());
    assert!(!ActivityType::NetworkRequest.is_sensitive());
}

use appguard::background_activity::{BackgroundActivity, BackgroundEvent};

fn event(app: &str, activity: ActivityType, user_present: bool) -> BackgroundEvent {
    BackgroundEvent { app_id: app.into(), activity, timestamp: 10, bytes_used: 1000, user_present }
}

#[test]
fn test_observe_background_event() {
    let mut t = BackgroundActivity::new();
    t.observe(event("app", ActivityType::NetworkRequest, false));
    assert_eq!(t.stats_for("app").unwrap().total_events, 1);
}

#[test]
fn test_user_present_not_counted() {
    let mut t = BackgroundActivity::new();
    t.observe(event("app", ActivityType::NetworkRequest, true));
    assert!(t.stats_for("app").is_none() || t.stats_for("app").unwrap().total_events == 0);
}

#[test]
fn test_sensitive_count_tracked() {
    let mut t = BackgroundActivity::new();
    t.observe(event("snoop", ActivityType::CameraAccess, false));
    t.observe(event("snoop", ActivityType::MicrophoneAccess, false));
    t.observe(event("snoop", ActivityType::NetworkRequest, false));
    assert_eq!(t.stats_for("snoop").unwrap().sensitive_count, 2);
}

#[test]
fn test_top_network_users() {
    let mut t = BackgroundActivity::new();
    let mut hungry = event("hungry", ActivityType::NetworkRequest, false);
    hungry.bytes_used = 1_000_000;
    t.observe(hungry);
    let mut sip = event("sip", ActivityType::NetworkRequest, false);
    sip.bytes_used = 100;
    t.observe(sip);
    let top = t.top_network_users(1);
    assert_eq!(top[0].app_id, "hungry");
}

#[test]
fn test_sensitive_offenders() {
    let mut t = BackgroundActivity::new();
    for _ in 0..5 {
        t.observe(event("creeper", ActivityType::CameraAccess, false));
    }
    t.observe(event("normal", ActivityType::FileRead, false));
    let offenders = t.sensitive_offenders(3);
    assert_eq!(offenders.len(), 1);
    assert_eq!(offenders[0].app_id, "creeper");
}

#[test]
fn test_background_events_for() {
    let mut t = BackgroundActivity::new();
    t.observe(event("app", ActivityType::NetworkRequest, false));
    t.observe(event("app", ActivityType::NetworkRequest, true));
    assert_eq!(t.background_events_for("app").len(), 1);
}

#[test]
fn test_by_activity_breakdown() {
    let mut t = BackgroundActivity::new();
    t.observe(event("app", ActivityType::NetworkRequest, false));
    t.observe(event("app", ActivityType::FileWrite, false));
    let stats = t.stats_for("app").unwrap();
    assert_eq!(stats.by_activity.len(), 2);
}

#[test]
fn summary_details() {
    let mut t = BackgroundActivity::default();
    let at = |ts: i64, a: ActivityType, present: bool| BackgroundEvent { timestamp: ts, ..event("x", a, present) };
    t.observe(at(50, ActivityType::FileWrite, true));
    t.observe(at(40, ActivityType::FileWrite, false));
    t.observe(at(30, ActivityType::NetworkRequest, false));
    t.observe(at(60, ActivityType::FileWrite, false));
    let s = t.stats_for("x").unwrap();
    assert_eq!(s.total_events, 3);
    assert_eq!(s.first_seen, 30);
    assert_eq!(s.last_seen, 60);
    assert_eq!(s.network_bytes, 1000);
    assert_eq!(s.by_activity, vec![("FileWrite".to_string(), 2), ("NetworkRequest".to_string(), 1)]);
    assert_eq!(t.event_count(), 4);
    assert_eq!(t.app_count(), 1);
}
