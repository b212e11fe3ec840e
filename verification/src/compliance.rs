//! Compliance checker — verifies apps meet privacy/security policies.

use vstd::prelude::*;
use crate::permissions::{Permission, PermissionView, perm_views, permission_listed};
use crate::text::{copy_string, concat4, u64_to_decimal, decimal};

verus! {

#[derive(Debug, Clone)]
pub struct ComplianceRule {
    pub name: String,
    pub description: String,
    pub severity: ComplianceSeverity,
    pub check: ComplianceCheck,
}

#[derive(Debug, Clone, Copy, PartialEq, Eq, PartialOrd, Ord, Structural)]
pub enum ComplianceSeverity {
    Info,
    Warning,
    Violation,
    Critical,
}

#[derive(Debug, Clone, Copy, PartialEq, Eq, Structural)]
pub enum ComplianceCheck {
    NoBackgroundCamera,
    NoBackgroundMicrophone,
    NoBackgroundLocation,
    MaxPermissions(usize),
    RequireNetworkPolicy,
    NoAutostartWithoutApproval,
}

#[derive(Debug, Clone)]
pub struct ComplianceViolation {
    pub app_id: String,
    pub rule_name: String,
    pub severity: ComplianceSeverity,
    pub details: String,
}

/// A compliance violation as plain data.
pub struct ComplianceViolationView {
    pub app_id: Seq<char>,
    pub rule_name: Seq<char>,
    pub severity: ComplianceSeverity,
    pub details: Seq<char>,
}

impl View for ComplianceViolation {
    type V = ComplianceViolationView;

    open spec fn view(&self) -> ComplianceViolationView {
        ComplianceViolationView {
            app_id: self.app_id@,
            rule_name: self.rule_name@,
            severity: self.severity,
            details: self.details@,
        }
    }
}

/// What a rule reports of an application, if anything: the details of
/// the violation.
pub open spec fn rule_finding(
    check: ComplianceCheck,
    perms: Seq<Permission>,
    has_bg_access: bool,
    has_autostart: bool,
) -> Option<Seq<char>> {
    match check {
        ComplianceCheck::NoBackgroundCamera => if has_bg_access && perm_views(perms).contains(PermissionView::Camera) {
            Some("Camera used in background"@)
        } else {
            None
        },
        ComplianceCheck::NoBackgroundMicrophone => if has_bg_access && perm_views(perms).contains(
            PermissionView::Microphone,
        ) {
            Some("Microphone used in background"@)
        } else {
            None
        },
        ComplianceCheck::NoBackgroundLocation => if has_bg_access && perm_views(perms).contains(
            PermissionView::Location,
        ) {
            Some("Location accessed in background"@)
        } else {
            None
        },
        ComplianceCheck::MaxPermissions(max) => if perms.len() > max {
            Some(decimal(perms.len()) + " permissions (max: "@ + decimal(max as nat) + ")"@)
        } else {
            None
        },
        ComplianceCheck::RequireNetworkPolicy => None,
        ComplianceCheck::NoAutostartWithoutApproval => if has_autostart {
            Some("Autostart without explicit approval"@)
        } else {
            None
        },
    }
}

/// The violations that a list of rules reports, in rule order.
pub open spec fn findings(
    rules: Seq<ComplianceRule>,
    app_id: Seq<char>,
    perms: Seq<Permission>,
    has_bg_access: bool,
    has_autostart: bool,
) -> Seq<ComplianceViolationView>
    decreases rules.len(),
{
    if rules.len() == 0 {
        Seq::empty()
    } else {
        let prev = findings(rules.drop_last(), app_id, perms, has_bg_access, has_autostart);
        let rule = rules.last();
        match rule_finding(rule.check, perms, has_bg_access, has_autostart) {
            Some(d) => prev.push(
                ComplianceViolationView { app_id, rule_name: rule.name@, severity: rule.severity, details: d },
            ),
            None => prev,
        }
    }
}

/// A rule with the given name, description, severity and check.
pub open spec fn rule_is(
    r: ComplianceRule,
    name: Seq<char>,
    description: Seq<char>,
    severity: ComplianceSeverity,
    check: ComplianceCheck,
) -> bool {
    r.name@ == name && r.description@ == description && r.severity == severity && r.check == check
}

/// The built-in rule list.
pub open spec fn is_default_rules(s: Seq<ComplianceRule>) -> bool {
    &&& s.len() == 5
    &&& rule_is(s[0], "no-bg-camera"@, "No background camera access"@, ComplianceSeverity::Critical, ComplianceCheck::NoBackgroundCamera)
    &&& rule_is(s[1], "no-bg-mic"@, "No background microphone access"@, ComplianceSeverity::Critical, ComplianceCheck::NoBackgroundMicrophone)
    &&& rule_is(s[2], "no-bg-location"@, "No background location access"@, ComplianceSeverity::Violation, ComplianceCheck::NoBackgroundLocation)
    &&& rule_is(s[3], "max-permissions"@, "Max 10 permissions per app"@, ComplianceSeverity::Warning, ComplianceCheck::MaxPermissions(10))
    &&& rule_is(s[4], "no-unapproved-autostart"@, "No autostart without approval"@, ComplianceSeverity::Warning, ComplianceCheck::NoAutostartWithoutApproval)
}

fn rule(name: &str, description: &str, severity: ComplianceSeverity, check: ComplianceCheck) -> (r: ComplianceRule)
    ensures
        rule_is(r, name@, description@, severity, check),
{
    ComplianceRule { name: String::from_str(name), description: String::from_str(description), severity, check }
}

/// The built-in rules.
pub fn default_rules() -> (r: Vec<ComplianceRule>)
    ensures
        is_default_rules(r@),
{
    let mut v: Vec<ComplianceRule> = Vec::new();
    v.push(rule("no-bg-camera", "No background camera access", ComplianceSeverity::Critical, ComplianceCheck::NoBackgroundCamera));
    v.push(rule("no-bg-mic", "No background microphone access", ComplianceSeverity::Critical, ComplianceCheck::NoBackgroundMicrophone));
    v.push(rule("no-bg-location", "No background location access", ComplianceSeverity::Violation, ComplianceCheck::NoBackgroundLocation));
    v.push(rule("max-permissions", "Max 10 permissions per app", ComplianceSeverity::Warning, ComplianceCheck::MaxPermissions(10)));
    v.push(rule("no-unapproved-autostart", "No autostart without approval", ComplianceSeverity::Warning, ComplianceCheck::NoAutostartWithoutApproval));
    v
}

fn finding_of(
    check: ComplianceCheck,
    permissions: &[Permission],
    has_bg_access: bool,
    has_autostart: bool,
) -> (r: Option<String>)
    ensures
        match r {
            Some(d) => rule_finding(check, permissions@, has_bg_access, has_autostart) == Some(d@),
            None => rule_finding(check, permissions@, has_bg_access, has_autostart) is None,
        },
{
    match check {
        ComplianceCheck::NoBackgroundCamera => if has_bg_access && permission_listed(permissions, &Permission::Camera) {
            Some(String::from_str("Camera used in background"))
        } else {
            None
        },
        ComplianceCheck::NoBackgroundMicrophone => if has_bg_access && permission_listed(permissions, &Permission::Microphone) {
            Some(String::from_str("Microphone used in background"))
        } else {
            None
        },
        ComplianceCheck::NoBackgroundLocation => if has_bg_access && permission_listed(permissions, &Permission::Location) {
            Some(String::from_str("Location accessed in background"))
        } else {
            None
        },
        ComplianceCheck::MaxPermissions(max) => if permissions.len() > max {
            let n = u64_to_decimal(permissions.len() as u64);
            let m = u64_to_decimal(max as u64);
            Some(concat4(n.as_str(), " permissions (max: ", m.as_str(), ")"))
        } else {
            None
        },
        ComplianceCheck::RequireNetworkPolicy => None,
        ComplianceCheck::NoAutostartWithoutApproval => if has_autostart {
            Some(String::from_str("Autostart without explicit approval"))
        } else {
            None
        },
    }
}

pub struct ComplianceChecker {
    rules: Vec<ComplianceRule>,
}

impl ComplianceChecker {
    /// The rules, in the order they are applied.
    pub closed spec fn rules(&self) -> Seq<ComplianceRule> {
        self.rules@
    }

    pub fn new() -> (r: Self)
        ensures
            is_default_rules(r.rules()),
    {
        Self { rules: default_rules() }
    }

    /// The violations of an application's profile, in rule order.
    pub fn check_app(
        &self,
        app_id: &str,
        permissions: &[Permission],
        has_bg_access: bool,
        has_autostart: bool,
    ) -> (r: Vec<ComplianceViolation>)
        ensures
            r@.map_values(|v: ComplianceViolation| v@) == findings(
                self.rules(),
                app_id@,
                permissions@,
                has_bg_access,
                has_autostart,
            ),
    {
        let mut violations: Vec<ComplianceViolation> = Vec::new();
        let mut i: usize = 0;
        assert(self.rules@.take(0) =~= Seq::<ComplianceRule>::empty());
        assert(violations@.map_values(|v: ComplianceViolation| v@) =~= Seq::<ComplianceViolationView>::empty());
        while i < self.rules.len()
            invariant
                i <= self.rules@.len(),
                violations@.map_values(|v: ComplianceViolation| v@) == findings(
                    self.rules@.take(i as int),
                    app_id@,
                    permissions@,
                    has_bg_access,
                    has_autostart,
                ),
            decreases self.rules@.len() - i,
        {
            let ghost before = violations@.map_values(|v: ComplianceViolation| v@);
            proof {
                assert(self.rules@.take(i + 1).drop_last() =~= self.rules@.take(i as int));
                assert(self.rules@.take(i + 1).last() == self.rules@[i as int]);
            }
            let rule = &self.rules[i];
            match finding_of(rule.check, permissions, has_bg_access, has_autostart) {
                Some(details) => {
                    violations.push(ComplianceViolation {
                        app_id: String::from_str(app_id),
                        rule_name: copy_string(&rule.name),
                        severity: rule.severity,
                        details,
                    });
                    assert(violations@.map_values(|v: ComplianceViolation| v@) =~= before.push(
                        violations@[violations@.len() - 1]@,
                    ));
                },
                None => {},
            }
            i = i + 1;
        }
        assert(self.rules@.take(self.rules@.len() as int) =~= self.rules@);
        violations
    }

    pub fn rule_count(&self) -> (r: usize)
        ensures
            r == self.rules().len(),
    {
        self.rules.len()
    }
}

impl Default for ComplianceChecker {
    fn default() -> (r: Self)
        ensures
            is_default_rules(r.rules()),
    {
        Self::new()
    }
}

} // verus!
