use appguard::data_attribution::AttributionTracker;

#[test]
fn test_record_write() {
    let mut tracker = AttributionTracker::new();
    tracker.record_write("/etc/test", "firefox");
    let r = tracker.get("/etc/test").unwrap();
    assert_eq!(r.last_writer, "firefox");
    assert_eq!(r.creator, "firefox");
    assert_eq!(r.write_count, 1);
}

#[test]
fn test_record_read() {
    let mut tracker = AttributionTracker::new();
    tracker.record_write("/file", "firefox");
    tracker.record_read("/file", "vim");
    let r = tracker.get("/file").unwrap();
    assert_eq!(r.last_reader, "vim");
}

#[test]
fn test_creator_unchanged() {
    let mut tracker = AttributionTracker::new();
    tracker.record_write("/file", "firefox");
    tracker.record_write("/file", "vim");
    let r = tracker.get("/file").unwrap();
    assert_eq!(r.creator, "firefox");
    assert_eq!(r.last_writer, "vim");
}

#[test]
fn test_files_by_writer() {
    let mut tracker = AttributionTracker::new();
    tracker.record_write("/a", "firefox");
    tracker.record_write("/b", "firefox");
    tracker.record_write("/c", "vim");
    assert_eq!(tracker.files_by_writer("firefox").len(), 2);
}

#[test]
fn test_shared_files() {
    let mut tracker = AttributionTracker::new();
    tracker.record_write("/shared", "firefox");
    tracker.record_write("/shared", "vim");
    tracker.record_write("/private", "firefox");
    assert_eq!(tracker.shared_files().len(), 1);
}

#[test]
fn test_write_count() {
    let mut tracker = AttributionTracker::new();
    for _ in 0..5 {
        tracker.record_write("/file", "firefox");
    }
    assert_eq!(tracker.get("/file").unwrap().write_count, 5);
}

#[test]
fn test_record_count() {
    let mut tracker = AttributionTracker::new();
    tracker.record_write("/a", "firefox");
    tracker.record_write("/b", "vim");
    assert_eq!(tracker.record_count(), 2);
}

#[test]
fn read_of_an_unwritten_file_is_ignored() {
    let mut tracker = AttributionTracker::new();
    tracker.record_read("/nowhere", "vim");
    assert_eq!(tracker.record_count(), 0);
    assert!(tracker.get("/nowhere").is_none());
}

#[test]
fn readers_and_writers_are_listed_once_each() {
    let mut tracker = AttributionTracker::new();
    tracker.record_write_at("/f", "a", 1);
    tracker.record_write_at("/f/", "a", 2);
    tracker.record_read_at("/f", "b", 3);
    tracker.record_read_at("/f", "b", 4);
    let r = tracker.get("/f").unwrap();
    assert_eq!(r.all_writers, vec!["a".to_string()]);
    assert_eq!(r.all_readers, vec!["b".to_string()]);
    assert_eq!(r.write_count, 2);
    assert_eq!(r.read_count, 2);
    assert_eq!(r.created_at, 1);
    assert_eq!(r.last_written, 2);
    assert_eq!(r.last_read, 4);
    assert_eq!(tracker.files_by_reader("b").len(), 1);
    assert_eq!(tracker.shared_files().len(), 0);
}
