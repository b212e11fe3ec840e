use appguard::resource_quota::{LoggedViolation, Resource, ViolationLog, QUOTA_HISTORY_LIMIT};

fn logged(app: &str, resource: Resource, detail: u32) -> LoggedViolation<u32> {
    LoggedViolation { app_id: app.to_string(), resource, detail }
}

#[test]
fn quota_log_starts_empty() {
    let log: ViolationLog<u32> = ViolationLog::new();
    assert_eq!(log.violation_count(), 0);
    assert!(log.violations_for("app").is_empty());
    assert!(log.top_violators(3).is_empty());
}

#[test]
fn quota_log_filters_by_app_and_resource() {
    let mut log = ViolationLog::new();
    log.extend(vec![
        logged("a", Resource::Cpu, 1),
        logged("b", Resource::Memory, 2),
        logged("a", Resource::Memory, 3),
    ]);
    let for_a: Vec<u32> = log.violations_for("a").iter().map(|v| v.detail).collect();
    assert_eq!(for_a, vec![1, 3]);
    let mem: Vec<u32> = log.violations_by_resource(Resource::Memory).iter().map(|v| v.detail).collect();
    assert_eq!(mem, vec![2, 3]);
    assert_eq!(log.violations_by_resource(Resource::Threads).len(), 0);
}

#[test]
fn quota_log_top_violators_counts() {
    let mut log = ViolationLog::new();
    for _ in 0..5 {
        log.extend(vec![logged("heavy", Resource::Cpu, 0)]);
    }
    log.extend(vec![logged("light", Resource::Cpu, 0)]);
    let top = log.top_violators(2);
    assert_eq!(top.len(), 2);
    assert_eq!(top[0], ("heavy".to_string(), 5));
    assert_eq!(top[1], ("light".to_string(), 1));
    assert_eq!(log.top_violators(1).len(), 1);
}

#[test]
fn quota_log_drops_oldest_beyond_limit() {
    let mut log = ViolationLog::new();
    let batch: Vec<LoggedViolation<u32>> =
        (0..(QUOTA_HISTORY_LIMIT as u32 + 3)).map(|i| logged("app", Resource::Network, i)).collect();
    log.extend(batch);
    assert_eq!(log.violation_count(), QUOTA_HISTORY_LIMIT);
    let kept = log.violations_for("app");
    assert_eq!(kept[0].detail, 3);
    assert_eq!(kept[kept.len() - 1].detail, QUOTA_HISTORY_LIMIT as u32 + 2);
    log.extend(vec![logged("new", Resource::Threads, 7)]);
    assert_eq!(log.violation_count(), QUOTA_HISTORY_LIMIT);
    assert_eq!(log.violations_for("app")[0].detail, 4);
    assert_eq!(log.violations_for("new").len(), 1);
}
