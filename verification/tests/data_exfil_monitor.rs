use appguard::data_exfil_monitor::{AppBaseline, UploadEvent};

#[test]
fn baseline_starts_empty() {
    let b = AppBaseline::new("app", 60_000);
    assert_eq!(b.event_count(), 0);
    assert_eq!(b.total_bytes, 0);
    assert_eq!(b.app_id, "app");
    assert_eq!(b.window_ms, 60_000);
}

#[test]
fn record_at_accumulates_inside_the_window() {
    let mut b = AppBaseline::new("app", 1_000);
    b.record_at(100, 10_000);
    b.record_at(200, 10_500);
    assert_eq!(b.event_count(), 2);
    assert_eq!(b.total_bytes, 300);
}

#[test]
fn record_at_drops_uploads_older_than_the_window() {
    let mut b = AppBaseline::new("app", 1_000);
    b.record_at(100, 10_000);
    b.record_at(200, 11_000);
    assert_eq!(b.event_count(), 2);
    b.record_at(400, 11_001);
    assert_eq!(b.event_count(), 2);
    assert_eq!(b.total_bytes, 600);
    assert_eq!(b.events[0].bytes, 200);
}

#[test]
fn prune_recounts_the_total() {
    let mut b = AppBaseline::new("app", 50);
    b.events.push(UploadEvent { bytes: 7, at: 0 });
    b.events.push(UploadEvent { bytes: 9, at: 100 });
    b.total_bytes = 16;
    b.prune(120);
    assert_eq!(b.event_count(), 1);
    assert_eq!(b.total_bytes, 9);
}

#[test]
fn record_now_keeps_the_upload() {
    let mut b = AppBaseline::new("app", 60_000);
    b.record(1234);
    assert_eq!(b.event_count(), 1);
    assert_eq!(b.total_bytes, 1234);
}
