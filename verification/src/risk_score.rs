//! Risk scoring — composite application risk assessment.

use vstd::prelude::*;
use crate::text::{decimal, u64_to_decimal, concat2};

verus! {

/// Risk factors for an application.
#[derive(Debug, Clone, Copy)]
pub struct RiskFactors {
    pub permission_count: u32,
    pub critical_permissions: u32,
    pub network_access: bool,
    pub background_capable: bool,
    pub autostart: bool,
    pub system_paths_accessed: u32,
    pub external_network_destinations: u32,
    pub clipboard_access: bool,
    pub screen_capture: bool,
    pub keyboard_input: bool,
    pub root_required: bool,
    pub unknown_publisher: bool,
}

impl Default for RiskFactors {
    fn default() -> (r: Self)
        ensures
            r == no_risk_factors(),
    {
        RiskFactors {
            permission_count: 0,
            critical_permissions: 0,
            network_access: false,
            background_capable: false,
            autostart: false,
            system_paths_accessed: 0,
            external_network_destinations: 0,
            clipboard_access: false,
            screen_capture: false,
            keyboard_input: false,
            root_required: false,
            unknown_publisher: false,
        }
    }
}

/// The factors of an application with no risk at all.
pub open spec fn no_risk_factors() -> RiskFactors {
    RiskFactors {
        permission_count: 0,
        critical_permissions: 0,
        network_access: false,
        background_capable: false,
        autostart: false,
        system_paths_accessed: 0,
        external_network_destinations: 0,
        clipboard_access: false,
        screen_capture: false,
        keyboard_input: false,
        root_required: false,
        unknown_publisher: false,
    }
}

/// Risk level.
#[derive(Debug, Clone, Copy, PartialEq, Eq, PartialOrd, Ord)]
pub enum RiskLevel {
    Low,
    Medium,
    High,
    Critical,
}

/// Risk assessment result.
#[derive(Debug, Clone)]
pub struct RiskAssessment {
    pub app_id: String,
    /// Score from 0 to 100.
    pub score: u32,
    pub level: RiskLevel,
    pub factors: RiskFactors,
    pub explanation: Vec<String>,
}

/// Risk scorer.
pub struct RiskScorer;

/// `b` points when `c` holds, none otherwise.
#[verifier::opaque]
pub open spec fn points_if(c: bool, b: int) -> int {
    if c { b } else { 0 }
}

/// The smaller of two integers.
pub open spec fn min_int(a: int, b: int) -> int {
    if a <= b { a } else { b }
}

/// The uncapped sum of risk points of a set of factors.
pub open spec fn risk_points(f: RiskFactors) -> int {
    min_int(f.permission_count as int, 20)
        + f.critical_permissions * 10
        + points_if(f.network_access, 5)
        + points_if(f.external_network_destinations > 10, 10)
        + points_if(f.background_capable, 5)
        + points_if(f.autostart, 10)
        + min_int(f.system_paths_accessed * 2, 20)
        + points_if(f.clipboard_access, 5)
        + points_if(f.screen_capture, 15)
        + points_if(f.keyboard_input, 15)
        + points_if(f.root_required, 20)
        + points_if(f.unknown_publisher, 10)
}

/// The risk score: the points, capped at 100.
pub open spec fn risk_score_of(f: RiskFactors) -> int {
    min_int(risk_points(f), 100)
}

/// The level of a score: 75 and up is critical, 50 high, 25 medium.
pub open spec fn risk_level_for(score: int) -> RiskLevel {
    if score >= 75 {
        RiskLevel::Critical
    } else if score >= 50 {
        RiskLevel::High
    } else if score >= 25 {
        RiskLevel::Medium
    } else {
        RiskLevel::Low
    }
}

/// `s` followed by `m` when `c` holds.
pub open spec fn push_if(s: Seq<Seq<char>>, c: bool, m: Seq<char>) -> Seq<Seq<char>> {
    if c { s.push(m) } else { s }
}

/// The explanation lines of an assessment, in order.
pub open spec fn risk_explanation(f: RiskFactors) -> Seq<Seq<char>> {
    let e1 = push_if(
        Seq::empty(),
        f.permission_count > 10,
        "High permission count: "@ + decimal(f.permission_count as nat),
    );
    let e2 = push_if(
        e1,
        f.critical_permissions > 0,
        decimal(f.critical_permissions as nat) + " critical permissions"@,
    );
    let e3 = push_if(
        e2,
        f.external_network_destinations > 10,
        decimal(f.external_network_destinations as nat) + " external destinations"@,
    );
    let e4 = push_if(e3, f.autostart, "Autostart enabled"@);
    let e5 = push_if(
        e4,
        f.system_paths_accessed > 5,
        decimal(f.system_paths_accessed as nat) + " system paths accessed"@,
    );
    let e6 = push_if(e5, f.screen_capture, "Screen capture capability"@);
    let e7 = push_if(e6, f.keyboard_input, "Keyboard input access"@);
    let e8 = push_if(e7, f.root_required, "Requires root privileges"@);
    push_if(e8, f.unknown_publisher, "Unknown publisher"@)
}

/// The characters of each string of a sequence.
pub open spec fn strings_view(v: Seq<String>) -> Seq<Seq<char>> {
    v.map_values(|s: String| s@)
}

fn push_line_if(v: &mut Vec<String>, c: bool, s: String)
    ensures
        strings_view(final(v)@) == push_if(strings_view(old(v)@), c, s@),
{
    if c {
        v.push(s);
        proof {
            assert(strings_view(v@) =~= strings_view(old(v)@).push(s@));
        }
    }
}

fn explanation_lines(f: RiskFactors) -> (r: Vec<String>)
    ensures
        strings_view(r@) == risk_explanation(f),
{
    let mut e: Vec<String> = Vec::new();
    proof {
        assert(strings_view(e@) =~= Seq::empty());
    }
    push_line_if(
        &mut e,
        f.permission_count > 10,
        concat2("High permission count: ", u64_to_decimal(f.permission_count as u64).as_str()),
    );
    push_line_if(
        &mut e,
        f.critical_permissions > 0,
        concat2(u64_to_decimal(f.critical_permissions as u64).as_str(), " critical permissions"),
    );
    push_line_if(
        &mut e,
        f.external_network_destinations > 10,
        concat2(
            u64_to_decimal(f.external_network_destinations as u64).as_str(),
            " external destinations",
        ),
    );
    push_line_if(&mut e, f.autostart, String::from_str("Autostart enabled"));
    push_line_if(
        &mut e,
        f.system_paths_accessed > 5,
        concat2(u64_to_decimal(f.system_paths_accessed as u64).as_str(), " system paths accessed"),
    );
    push_line_if(&mut e, f.screen_capture, String::from_str("Screen capture capability"));
    push_line_if(&mut e, f.keyboard_input, String::from_str("Keyboard input access"));
    push_line_if(&mut e, f.root_required, String::from_str("Requires root privileges"));
    push_line_if(&mut e, f.unknown_publisher, String::from_str("Unknown publisher"));
    e
}

fn pts(c: bool, b: u64) -> (r: u64)
    ensures
        r == points_if(c, b as int),
        r <= b,
{
    proof {
        reveal(points_if);
    }
    if c { b } else { 0 }
}

fn capped_points(f: RiskFactors) -> (r: u32)
    ensures
        r == risk_score_of(f),
{
    let pc: u64 = if f.permission_count < 20 { f.permission_count as u64 } else { 20 };
    let sys2: u64 = (f.system_paths_accessed as u64) * 2;
    let sys: u64 = if sys2 < 20 { sys2 } else { 20 };
    let cp: u64 = (f.critical_permissions as u64) * 10;
    let a1 = pts(f.network_access, 5);
    let a2 = pts(f.external_network_destinations > 10, 10);
    let a3 = pts(f.background_capable, 5);
    let a4 = pts(f.autostart, 10);
    let a5 = pts(f.clipboard_access, 5);
    let a6 = pts(f.screen_capture, 15);
    let a7 = pts(f.keyboard_input, 15);
    let a8 = pts(f.root_required, 20);
    let a9 = pts(f.unknown_publisher, 10);
    let small: u64 = a1 + a2 + a3 + a4 + a5 + a6 + a7 + a8 + a9;
    let total: u64 = pc + cp + sys + small;
    assert(total == risk_points(f));
    if total < 100 { total as u32 } else { 100 }
}

impl RiskScorer {
    pub fn new() -> (r: Self) {
        RiskScorer
    }

    /// Compute the risk assessment of an application from its factors.
    pub fn score(&self, app_id: &str, factors: RiskFactors) -> (r: RiskAssessment)
        requires
            risk_points(factors) <= u32::MAX,
            factors.system_paths_accessed * 2 <= u32::MAX,
        ensures
            r.app_id@ == app_id@,
            r.score == risk_score_of(factors),
            r.level == risk_level_for(r.score as int),
            r.factors == factors,
            strings_view(r.explanation@) == risk_explanation(factors),
    {
        let score = capped_points(factors);
        let explanation = explanation_lines(factors);
        let level = if score >= 75 {
            RiskLevel::Critical
        } else if score >= 50 {
            RiskLevel::High
        } else if score >= 25 {
            RiskLevel::Medium
        } else {
            RiskLevel::Low
        };
        RiskAssessment { app_id: String::from_str(app_id), score, level, factors, explanation }
    }
}

impl Default for RiskScorer {
    fn default() -> (r: Self) {
        RiskScorer
    }
}

/// The rank of a level: 0 for `Low` up to 3 for `Critical`.
pub open spec fn level_rank(l: RiskLevel) -> nat {
    match l {
        RiskLevel::Low => 0,
        RiskLevel::Medium => 1,
        RiskLevel::High => 2,
        RiskLevel::Critical => 3,
    }
}

/// Factors `g` are at least as risky as `f`: every flag of `f` is set in
/// `g` and every count of `f` is at most that of `g`.
pub open spec fn dominates(g: RiskFactors, f: RiskFactors) -> bool {
    &&& f.permission_count <= g.permission_count
    &&& f.critical_permissions <= g.critical_permissions
    &&& f.system_paths_accessed <= g.system_paths_accessed
    &&& f.external_network_destinations <= g.external_network_destinations
    &&& (f.network_access ==> g.network_access)
    &&& (f.background_capable ==> g.background_capable)
    &&& (f.autostart ==> g.autostart)
    &&& (f.clipboard_access ==> g.clipboard_access)
    &&& (f.screen_capture ==> g.screen_capture)
    &&& (f.keyboard_input ==> g.keyboard_input)
    &&& (f.root_required ==> g.root_required)
    &&& (f.unknown_publisher ==> g.unknown_publisher)
}

/// Every score lies between 0 and 100.
pub proof fn lemma_score_in_range(f: RiskFactors)
    ensures
        0 <= risk_score_of(f) <= 100,
{
    reveal(points_if);
}

/// An application with no risk factors scores 0 and is rated low.
pub proof fn lemma_no_factors_low()
    ensures
        risk_score_of(no_risk_factors()) == 0,
        risk_level_for(risk_score_of(no_risk_factors())) == RiskLevel::Low,
{
    reveal(points_if);
}

/// More risk factors never lower the score.
pub proof fn lemma_score_monotone(f: RiskFactors, g: RiskFactors)
    requires
        dominates(g, f),
    ensures
        risk_score_of(f) <= risk_score_of(g),
{
    reveal(points_if);
    assert(f.critical_permissions * 10 <= g.critical_permissions * 10);
    assert(f.system_paths_accessed * 2 <= g.system_paths_accessed * 2);
}

/// A higher score never gets a lower level.
pub proof fn lemma_level_monotone(a: int, b: int)
    requires
        a <= b,
    ensures
        level_rank(risk_level_for(a)) <= level_rank(risk_level_for(b)),
{
}

} // verus!
