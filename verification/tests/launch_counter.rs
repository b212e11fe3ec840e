use appguard::launch_counter::{LaunchCounter, LaunchEvent, LaunchStats};

const DAY: i64 = 86_400_000;
const HOUR: i64 = 3_600_000;

fn now_ms() -> i64 {
    std::time::SystemTime::now().duration_since(std::time::UNIX_EPOCH).unwrap().as_millis() as i64
}

fn launch(app: &str) -> LaunchEvent {
    LaunchEvent { app_id: app.into(), timestamp: now_ms(), from_autostart: false }
}

fn launch_at(app: &str, t: i64) -> LaunchEvent {
    LaunchEvent { app_id: app.into(), timestamp: t, from_autostart: false }
}

#[test]
fn test_record_first_launch() {
    let mut c = LaunchCounter::new();
    c.record(launch("firefox"));
    assert_eq!(c.stats_for("firefox").unwrap().total_launches, 1);
}

#[test]
fn test_record_multiple() {
    let mut c = LaunchCounter::new();
    for _ in 0..5 {
        c.record(launch("firefox"));
    }
    assert_eq!(c.stats_for("firefox").unwrap().total_launches, 5);
}

#[test]
fn launch_counter_test_top_apps() {
    let mut c = LaunchCounter::new();
    for _ in 0..10 {
        c.record(launch("firefox"));
    }
    for _ in 0..5 {
        c.record(launch("chrome"));
    }
    for _ in 0..2 {
        c.record(launch("vim"));
    }
    let top = c.top_apps(2);
    assert_eq!(top[0].app_id, "firefox");
    assert_eq!(top[1].app_id, "chrome");
}

#[test]
fn test_autostart_filter() {
    let mut c = LaunchCounter::new();
    let mut auto = launch("daemon");
    auto.from_autostart = true;
    c.record(auto);
    c.record(launch("firefox"));
    assert_eq!(c.autostart_apps().len(), 1);
}

#[test]
fn test_app_count() {
    let mut c = LaunchCounter::new();
    c.record(launch("a"));
    c.record(launch("b"));
    c.record(launch("a"));
    assert_eq!(c.app_count(), 2);
}

#[test]
fn test_dormant_apps() {
    let mut c = LaunchCounter::new();
    let mut old = launch("ancient");
    old.timestamp = now_ms() - 60 * DAY;
    c.record(old);
    c.record(launch("current"));
    let dormant = c.dormant_apps(30);
    assert_eq!(dormant.len(), 1);
    assert_eq!(dormant[0].app_id, "ancient");
}

#[test]
fn test_peak_hour() {
    let mut c = LaunchCounter::new();
    c.record(launch("app"));
    let stats = c.stats_for("app").unwrap();
    assert!(stats.peak_hour() < 24);
}

#[test]
fn test_total_events() {
    let mut c = LaunchCounter::new();
    c.record(launch("a"));
    c.record(launch("b"));
    assert_eq!(c.total_events(), 2);
}

#[test]
fn hours_and_weekdays_are_utc() {
    // 1970-01-01 was a Thursday; 1969-12-31T23:00Z a Wednesday.
    let s = LaunchStats::new(&launch_at("a", 5 * HOUR + 1));
    assert_eq!(s.by_hour[5], 1);
    assert_eq!(s.by_weekday[3], 1);
    let t = LaunchStats::new(&launch_at("a", -1));
    assert_eq!(t.by_hour[23], 1);
    assert_eq!(t.by_weekday[2], 1);
    // 2024-03-04 (a Monday) at 10:30Z.
    let u = LaunchStats::new(&launch_at("a", 1_709_548_200_000));
    assert_eq!(u.by_hour[10], 1);
    assert_eq!(u.by_weekday[0], 1);
}

#[test]
fn peak_hour_prefers_the_latest_tie() {
    let mut s = LaunchStats::new(&launch_at("a", 3 * HOUR));
    s.record(&launch_at("a", 7 * HOUR));
    assert_eq!(s.peak_hour(), 7);
    s.record(&launch_at("a", 3 * HOUR + 5));
    assert_eq!(s.peak_hour(), 3);
    assert_eq!(s.total_launches, 3);
    assert_eq!(s.first_launch, 3 * HOUR);
    assert_eq!(s.last_launch, 7 * HOUR);
}

#[test]
fn work_apps_and_observed_days() {
    let mut c = LaunchCounter::new();
    // Monday, Tuesday and Wednesday of the week of 2024-03-04.
    for d in 0..3 {
        c.record(launch_at("office", 1_709_548_200_000 + d * DAY));
    }
    // Saturday and Sunday.
    c.record(launch_at("game", 1_709_548_200_000 + 5 * DAY));
    c.record(launch_at("game", 1_709_548_200_000 + 6 * DAY));
    let work = c.work_apps();
    assert_eq!(work.len(), 1);
    assert_eq!(work[0].app_id, "office");
    let office = c.stats_for("office").unwrap();
    assert_eq!(office.days_observed_at(office.first_launch), 1);
    assert_eq!(office.days_observed_at(office.first_launch + 10 * DAY + 5), 10);
    assert_eq!(c.dormant_apps_at(1, 1_709_548_200_000 + 7 * DAY).len(), 1);
}
