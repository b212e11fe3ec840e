use appguard::install_tracker::{FlagType, InstallEvent, InstallSource, InstallTracker};

fn now_ms() -> i64 {
    std::time::SystemTime::now().duration_since(std::time::UNIX_EPOCH).unwrap().as_millis() as i64
}

fn event(app: &str, source: InstallSource, signed: bool) -> InstallEvent {
    InstallEvent {
        app_id: app.into(),
        app_name: format!("{} app", app),
        version: "1.0".into(),
        installed_at: now_ms(),
        source,
        installer_path: None,
        required_admin: false,
        file_count: 100,
        total_bytes: 10_000_000,
        signed,
        signer: if signed { Some("Trusted Inc".into()) } else { None },
    }
}

#[test]
fn test_unsigned_installer_flagged() {
    let mut t = InstallTracker::new();
    let flags = t.record(event("malware", InstallSource::OfficialRepo, false));
    assert!(flags.iter().any(|f| f.flag_type == FlagType::UnsignedInstaller));
}

#[test]
fn test_untrusted_source_flagged() {
    let mut t = InstallTracker::new();
    let flags = t.record(event("sketchy", InstallSource::DirectDownload, true));
    assert!(flags.iter().any(|f| f.flag_type == FlagType::UntrustedSource));
}

#[test]
fn test_batch_install_detected() {
    let mut t = InstallTracker::new();
    t.record(event("a", InstallSource::OfficialRepo, true));
    t.record(event("b", InstallSource::OfficialRepo, true));
    t.record(event("c", InstallSource::OfficialRepo, true));
    let flags = t.record(event("d", InstallSource::OfficialRepo, true));
    assert!(flags.iter().any(|f| f.flag_type == FlagType::BatchInstall));
}

#[test]
fn test_trusted_signer_no_flag() {
    let mut t = InstallTracker::new();
    t.trust_signer("Trusted Inc");
    let flags = t.record(event("firefox", InstallSource::OfficialRepo, true));
    assert!(!flags.iter().any(|f| f.flag_type == FlagType::SuspiciousSigner));
}

#[test]
fn test_untrusted_signer_flag() {
    let mut t = InstallTracker::new();
    t.trust_signer("Trusted Inc");
    let mut e = event("shady", InstallSource::OfficialRepo, true);
    e.signer = Some("Unknown Signer".into());
    let flags = t.record(e);
    assert!(flags.iter().any(|f| f.flag_type == FlagType::SuspiciousSigner));
}

#[test]
fn install_tracker_test_by_source() {
    let mut t = InstallTracker::new();
    t.record(event("a", InstallSource::OfficialRepo, true));
    t.record(event("b", InstallSource::DirectDownload, true));
    assert_eq!(t.by_source(&InstallSource::OfficialRepo).len(), 1);
}

#[test]
fn install_tracker_test_total_bytes() {
    let mut t = InstallTracker::new();
    t.record(event("a", InstallSource::OfficialRepo, true));
    t.record(event("b", InstallSource::OfficialRepo, true));
    assert_eq!(t.total_bytes(), 20_000_000);
}

#[test]
fn install_tracker_test_recent() {
    let mut t = InstallTracker::new();
    t.record(event("a", InstallSource::OfficialRepo, true));
    assert_eq!(t.recent(7).len(), 1);
}

#[test]
fn test_risk_scores() {
    assert!(InstallSource::DirectDownload.risk_permille() > InstallSource::OfficialRepo.risk_permille());
    assert!(InstallSource::Unknown.risk_permille() > 700);
}

#[test]
fn test_admin_required() {
    let mut t = InstallTracker::new();
    let mut e = event("sudo_app", InstallSource::OfficialRepo, true);
    e.required_admin = true;
    t.record(e);
    t.record(event("normal", InstallSource::OfficialRepo, true));
    assert_eq!(t.admin_required().len(), 1);
}

#[test]
fn flag_details_at_fixed_time() {
    let mut t = InstallTracker::new();
    let mut e = event("x", InstallSource::SideloadedApk, false);
    e.installed_at = 1_000_000;
    let flags = t.record_at(e, 1_000_000);
    assert_eq!(flags.len(), 2);
    assert_eq!(flags[0].detail, "unsigned installer for x app");
    assert_eq!(flags[0].confidence_permille, 800);
    assert_eq!(flags[1].detail, "source SideloadedApk is untrusted");
    assert_eq!(flags[1].confidence_permille, 750);
    assert_eq!(t.flag_count(), 2);
    assert_eq!(t.flags_by_type(&FlagType::UntrustedSource).len(), 1);
}

#[test]
fn batch_detail_counts_installs() {
    let mut t = InstallTracker::new();
    for i in 0..3 {
        let mut e = event(&format!("a{i}"), InstallSource::OfficialRepo, true);
        e.installed_at = 1_000_000;
        t.record_at(e, 1_000_000);
    }
    let mut e = event("d", InstallSource::OfficialRepo, true);
    e.installed_at = 1_000_000;
    let flags = t.record_at(e, 1_100_000);
    assert_eq!(flags.len(), 1);
    assert_eq!(flags[0].detail, "4+ installs in 5 minutes");
    assert_eq!(t.recent_at(1, 1_000_000 + 86_400_000).len(), 0);
}
