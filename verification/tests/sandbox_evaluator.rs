use appguard::sandbox_evaluator::{AppPermissions, Grade, SandboxEvaluator, SandboxKind};

#[test]
fn test_no_sandbox() {
    let ev = SandboxEvaluator::new();
    let report = ev.evaluate("firefox", &[], &AppPermissions::default());
    assert_eq!(report.grade, Grade::F);
    assert!(report.warnings.iter().any(|w| w.contains("without any sandbox")));
}

#[test]
fn test_flatpak_basic() {
    let ev = SandboxEvaluator::new();
    let report = ev.evaluate("app", &[SandboxKind::Flatpak], &AppPermissions::default());
    assert_eq!(report.grade, Grade::B);
}

#[test]
fn test_layered_defense_bonus() {
    let ev = SandboxEvaluator::new();
    let single = ev.evaluate("a", &[SandboxKind::Flatpak], &AppPermissions::default());
    let layered = ev.evaluate(
        "b",
        &[SandboxKind::Flatpak, SandboxKind::Seccomp, SandboxKind::AppArmor],
        &AppPermissions::default(),
    );
    assert!(layered.score > single.score);
}

#[test]
fn test_permission_penalties() {
    let ev = SandboxEvaluator::new();
    let safe = ev.evaluate("a", &[SandboxKind::Flatpak], &AppPermissions::default());
    let risky = ev.evaluate(
        "b",
        &[SandboxKind::Flatpak],
        &AppPermissions {
            network: true,
            filesystem: true,
            devices: true,
            dbus_system: true,
            x11_display: false,
            pulseaudio: false,
        },
    );
    assert!(risky.score < safe.score);
    assert!(risky.warnings.len() >= 4);
}

#[test]
fn test_grade_from_score() {
    assert_eq!(Grade::from_score(90), Grade::A);
    assert_eq!(Grade::from_score(75), Grade::B);
    assert_eq!(Grade::from_score(60), Grade::C);
    assert_eq!(Grade::from_score(45), Grade::D);
    assert_eq!(Grade::from_score(20), Grade::F);
}

#[test]
fn test_rank_worst() {
    let ev = SandboxEvaluator::new();
    let reports = vec![
        ev.evaluate("good", &[SandboxKind::Bubblewrap], &AppPermissions::default()),
        ev.evaluate("bad", &[], &AppPermissions::default()),
        ev.evaluate("mid", &[SandboxKind::Snap], &AppPermissions::default()),
    ];
    let ranked = ev.rank_worst(&reports);
    assert_eq!(ranked[0], "bad");
}

#[test]
fn test_grade_distribution() {
    let ev = SandboxEvaluator::new();
    let reports = vec![
        ev.evaluate("a", &[SandboxKind::Bubblewrap, SandboxKind::Seccomp], &AppPermissions::default()),
        ev.evaluate("b", &[], &AppPermissions::default()),
    ];
    let dist = ev.grade_distribution(&reports);
    assert!(dist.iter().map(|(_, n)| *n).sum::<usize>() == 2);
}

#[test]
fn test_dbus_warning() {
    let ev = SandboxEvaluator::new();
    let report = ev.evaluate("app", &[SandboxKind::Flatpak], &AppPermissions { dbus_system: true, ..Default::default() });
    assert!(report.warnings.iter().any(|w| w.contains("dbus")));
}

#[test]
fn grade_boundaries_are_inclusive() {
    assert_eq!(Grade::from_score(100), Grade::A);
    assert_eq!(Grade::from_score(0), Grade::F);
}
