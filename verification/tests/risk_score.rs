use appguard::risk_score::{RiskFactors, RiskLevel, RiskScorer};

#[test]
fn test_low_risk_clean_app() {
    let scorer = RiskScorer::new();
    let factors = RiskFactors { permission_count: 2, ..Default::default() };
    let assessment = scorer.score("clean", factors);
    assert_eq!(assessment.level, RiskLevel::Low);
}

#[test]
fn test_critical_risk_root_app() {
    let scorer = RiskScorer::new();
    let factors = RiskFactors {
        permission_count: 15,
        critical_permissions: 5,
        network_access: true,
        external_network_destinations: 20,
        screen_capture: true,
        keyboard_input: true,
        root_required: true,
        ..Default::default()
    };
    let assessment = scorer.score("malware", factors);
    assert_eq!(assessment.level, RiskLevel::Critical);
    assert!(assessment.score >= 75);
}

#[test]
fn test_medium_risk_normal_app() {
    let scorer = RiskScorer::new();
    let factors = RiskFactors {
        permission_count: 8,
        critical_permissions: 1,
        network_access: true,
        background_capable: true,
        autostart: true,
        ..Default::default()
    };
    let assessment = scorer.score("normal", factors);
    assert!(assessment.level >= RiskLevel::Medium);
}

#[test]
fn test_explanation_generated() {
    let scorer = RiskScorer::new();
    let factors = RiskFactors { critical_permissions: 3, screen_capture: true, ..Default::default() };
    let assessment = scorer.score("app", factors);
    assert!(!assessment.explanation.is_empty());
}

#[test]
fn test_score_capped_at_100() {
    let scorer = RiskScorer::new();
    let factors = RiskFactors {
        permission_count: 100,
        critical_permissions: 100,
        network_access: true,
        background_capable: true,
        autostart: true,
        system_paths_accessed: 100,
        external_network_destinations: 100,
        clipboard_access: true,
        screen_capture: true,
        keyboard_input: true,
        root_required: true,
        unknown_publisher: true,
    };
    let assessment = scorer.score("evil", factors);
    assert_eq!(assessment.score, 100);
}

#[test]
fn test_risk_level_ordering() {
    assert!(RiskLevel::Critical > RiskLevel::High);
    assert!(RiskLevel::High > RiskLevel::Medium);
    assert!(RiskLevel::Medium > RiskLevel::Low);
}

#[test]
fn risk_score_of_no_factors_is_zero() {
    let scorer = RiskScorer::new();
    let assessment = scorer.score("idle", RiskFactors::default());
    assert_eq!(assessment.score, 0);
    assert_eq!(assessment.level, RiskLevel::Low);
    assert_eq!(assessment.app_id, "idle");
}
