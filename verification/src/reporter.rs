//! Data export and reporting — compiles reports from the usage tracker,
//! the permission auditor and the network auditor, and renders them as
//! text and HTML.

use vstd::prelude::*;
use crate::clock::{Timestamp, now_millis, instant_text, format_instant};
use crate::permissions::{Permission, PermissionView, PermissionAuditor, PermissionAudit, AccessView, perm_views, used_of, unused_of, background_of, risk_of};
use crate::tracker::{AppUsage, UsageTracker, usage_values, candidate_at, installed_sum, days_since_at, archive_order};
use crate::network_audit::{AppConnection, NetworkAuditor, dest_of, dest_str, suspicious_conn, conn_values};
use crate::ranking::{Scored, scores_fit, sort_desc, lemma_map_same_multiset};
use crate::text::{copy_string, concat3, u64_to_decimal, i64_to_decimal, decimal, signed_decimal, join, join_strings, texts, fixed_text, format_fixed};

verus! {

/// Risk summary for a single application.
#[derive(Debug, Clone)]
pub struct AppRiskSummary {
    pub app_id: String,
    pub display_name: String,
    /// Risk in percent, 0 to 100.
    pub risk_percent: u64,
    pub high_risk_permissions: Vec<String>,
    pub background_access_count: usize,
    pub suspicious_connections: usize,
}

/// Summary of an unused / archive-candidate application.
#[derive(Debug, Clone)]
pub struct UnusedAppSummary {
    pub app_id: String,
    pub display_name: String,
    pub days_inactive: i64,
    pub reclaimable_bytes: u64,
}

/// A permission violation (granted but never exercised, or background use).
#[derive(Debug, Clone)]
pub struct PermissionViolation {
    pub app_id: String,
    pub permission: String,
    pub kind: ViolationKind,
}

#[derive(Debug, Clone, Copy, PartialEq, Eq, Structural)]
pub enum ViolationKind {
    /// Permission granted but never used — candidate for revocation.
    UnusedGrant,
    /// Permission exercised while app was in background.
    BackgroundAccess,
}

/// A suspicious or anomalous network event.
#[derive(Debug, Clone)]
pub struct NetworkAnomaly {
    pub app_id: String,
    pub destination: String,
    pub reason: String,
}

/// Comprehensive report compiled from all data sources.
#[derive(Debug, Clone)]
pub struct AppGuardReport {
    pub generated_at: Timestamp,
    pub total_apps: u32,
    pub high_risk_apps: Vec<AppRiskSummary>,
    pub unused_apps: Vec<UnusedAppSummary>,
    pub permission_violations: Vec<PermissionViolation>,
    pub network_anomalies: Vec<NetworkAnomaly>,
    pub reclaimable_space_bytes: u64,
    pub recommendations: Vec<String>,
}

/// A risk summary as plain data.
pub struct RiskSummaryView {
    pub app_id: Seq<char>,
    pub display_name: Seq<char>,
    pub risk_percent: u64,
    pub high_risk_permissions: Seq<Seq<char>>,
    pub background_access_count: usize,
    pub suspicious_connections: usize,
}

impl View for AppRiskSummary {
    type V = RiskSummaryView;

    open spec fn view(&self) -> RiskSummaryView {
        RiskSummaryView {
            app_id: self.app_id@,
            display_name: self.display_name@,
            risk_percent: self.risk_percent,
            high_risk_permissions: texts(self.high_risk_permissions@),
            background_access_count: self.background_access_count,
            suspicious_connections: self.suspicious_connections,
        }
    }
}

/// An unused-application summary as plain data.
pub struct UnusedView {
    pub app_id: Seq<char>,
    pub display_name: Seq<char>,
    pub days_inactive: i64,
    pub reclaimable_bytes: u64,
}

impl View for UnusedAppSummary {
    type V = UnusedView;

    open spec fn view(&self) -> UnusedView {
        UnusedView {
            app_id: self.app_id@,
            display_name: self.display_name@,
            days_inactive: self.days_inactive,
            reclaimable_bytes: self.reclaimable_bytes,
        }
    }
}

/// A permission violation as plain data.
pub struct PermissionViolationView {
    pub app_id: Seq<char>,
    pub permission: Seq<char>,
    pub kind: ViolationKind,
}

impl View for PermissionViolation {
    type V = PermissionViolationView;

    open spec fn view(&self) -> PermissionViolationView {
        PermissionViolationView { app_id: self.app_id@, permission: self.permission@, kind: self.kind }
    }
}

/// A network anomaly as plain data.
pub struct AnomalyView {
    pub app_id: Seq<char>,
    pub destination: Seq<char>,
    pub reason: Seq<char>,
}

impl View for NetworkAnomaly {
    type V = AnomalyView;

    open spec fn view(&self) -> AnomalyView {
        AnomalyView { app_id: self.app_id@, destination: self.destination@, reason: self.reason@ }
    }
}

/// The six permissions that make an application high-risk.
pub open spec fn high_risk(p: PermissionView) -> bool {
    match p {
        PermissionView::Camera | PermissionView::Microphone | PermissionView::Location
        | PermissionView::DeviceAdmin | PermissionView::Accessibility | PermissionView::InstallApps => true,
        _ => false,
    }
}

/// Is the permission one of the six high-risk ones?
pub fn is_high_risk_permission(p: &Permission) -> (r: bool)
    ensures
        r == high_risk(p@),
{
    matches!(
        p,
        Permission::Camera | Permission::Microphone | Permission::Location | Permission::DeviceAdmin
            | Permission::Accessibility | Permission::InstallApps
    )
}

/// The display name of a permission: its variant name, or `Custom(name)`.
pub open spec fn permission_text(p: PermissionView) -> Seq<char> {
    match p {
        PermissionView::Camera => "Camera"@,
        PermissionView::Microphone => "Microphone"@,
        PermissionView::Location => "Location"@,
        PermissionView::Contacts => "Contacts"@,
        PermissionView::Calendar => "Calendar"@,
        PermissionView::Storage => "Storage"@,
        PermissionView::Phone => "Phone"@,
        PermissionView::Sms => "Sms"@,
        PermissionView::Notifications => "Notifications"@,
        PermissionView::BackgroundActivity => "BackgroundActivity"@,
        PermissionView::NetworkAccess => "NetworkAccess"@,
        PermissionView::Bluetooth => "Bluetooth"@,
        PermissionView::Usb => "Usb"@,
        PermissionView::Accessibility => "Accessibility"@,
        PermissionView::DeviceAdmin => "DeviceAdmin"@,
        PermissionView::SystemAlert => "SystemAlert"@,
        PermissionView::InstallApps => "InstallApps"@,
        PermissionView::Custom(name) => "Custom("@ + name + ")"@,
    }
}

/// The display name of a permission.
pub fn format_permission(p: &Permission) -> (r: String)
    ensures
        r@ == permission_text(p@),
{
    match p {
        Permission::Camera => String::from_str("Camera"),
        Permission::Microphone => String::from_str("Microphone"),
        Permission::Location => String::from_str("Location"),
        Permission::Contacts => String::from_str("Contacts"),
        Permission::Calendar => String::from_str("Calendar"),
        Permission::Storage => String::from_str("Storage"),
        Permission::Phone => String::from_str("Phone"),
        Permission::Sms => String::from_str("Sms"),
        Permission::Notifications => String::from_str("Notifications"),
        Permission::BackgroundActivity => String::from_str("BackgroundActivity"),
        Permission::NetworkAccess => String::from_str("NetworkAccess"),
        Permission::Bluetooth => String::from_str("Bluetooth"),
        Permission::Usb => String::from_str("Usb"),
        Permission::Accessibility => String::from_str("Accessibility"),
        Permission::DeviceAdmin => String::from_str("DeviceAdmin"),
        Permission::SystemAlert => String::from_str("SystemAlert"),
        Permission::InstallApps => String::from_str("InstallApps"),
        Permission::Custom(name) => concat3("Custom(", name.as_str(), ")"),
    }
}

/// A byte count for people: `B` below a kibibyte, else KB, MB or GB
/// (powers of 1024) with one decimal, rounded to the nearest, ties to
/// even.
pub open spec fn bytes_text(b: nat) -> Seq<char> {
    if b >= 1073741824 {
        fixed_text(b, 1073741824, 1) + " GB"@
    } else if b >= 1048576 {
        fixed_text(b, 1048576, 1) + " MB"@
    } else if b >= 1024 {
        fixed_text(b, 1024, 1) + " KB"@
    } else {
        decimal(b) + " B"@
    }
}

/// A byte count for people.
pub fn format_bytes(bytes: u64) -> (r: String)
    ensures
        r@ == bytes_text(bytes as nat),
{
    if bytes >= 1073741824 {
        format_fixed(bytes, 1073741824, 1, " GB")
    } else if bytes >= 1048576 {
        format_fixed(bytes, 1048576, 1, " MB")
    } else if bytes >= 1024 {
        format_fixed(bytes, 1024, 1, " KB")
    } else {
        let mut s = u64_to_decimal(bytes);
        s.append(" B");
        s
    }
}

/// The HTML form of one character.
pub open spec fn escape_char(c: char) -> Seq<char> {
    if c == '&' {
        "&amp;"@
    } else if c == '<' {
        "&lt;"@
    } else if c == '>' {
        "&gt;"@
    } else if c == '"' {
        "&quot;"@
    } else {
        seq![c]
    }
}

/// Text with `&`, `<`, `>` and `"` replaced by their HTML entities.
pub open spec fn escaped(s: Seq<char>) -> Seq<char>
    decreases s.len(),
{
    if s.len() == 0 {
        Seq::empty()
    } else {
        escaped(s.drop_last()) + escape_char(s.last())
    }
}

/// Escaped text holds no `<`, `>` or `"`: nothing in it can open or
/// close markup or an attribute.
pub proof fn lemma_escaped_has_no_markup(s: Seq<char>)
    ensures
        forall|i: int|
            0 <= i < escaped(s).len() ==> #[trigger] escaped(s)[i] != '<' && escaped(s)[i] != '>' && escaped(s)[i]
                != '"',
    decreases s.len(),
{
    if s.len() > 0 {
        lemma_escaped_has_no_markup(s.drop_last());
        reveal_strlit("&amp;");
        reveal_strlit("&lt;");
        reveal_strlit("&gt;");
        reveal_strlit("&quot;");
        let a = escaped(s.drop_last());
        let b = escape_char(s.last());
        assert forall|i: int| 0 <= i < escaped(s).len() implies #[trigger] escaped(s)[i] != '<' && escaped(s)[i]
            != '>' && escaped(s)[i] != '"' by {
            if i < a.len() {
                assert(escaped(s)[i] == a[i]);
            } else {
                assert(escaped(s)[i] == b[i - a.len()]);
            }
        }
    }
}

/// Text without `&`, `<`, `>` or `"` is left as it is.
pub proof fn lemma_escaped_plain(s: Seq<char>)
    requires
        forall|i: int| 0 <= i < s.len() ==> #[trigger] s[i] != '&' && s[i] != '<' && s[i] != '>' && s[i] != '"',
    ensures
        escaped(s) == s,
    decreases s.len(),
{
    if s.len() > 0 {
        lemma_escaped_plain(s.drop_last());
        assert(s.drop_last() + seq![s.last()] =~= s);
    }
}

/// Escape text for HTML.
pub fn escape_html(s: &str) -> (r: String)
    ensures
        r@ == escaped(s@),
{
    let n = s.unicode_len();
    let mut out = String::from_str("");
    let mut i: usize = 0;
    proof {
        reveal_strlit("");
        assert(s@.take(0) =~= Seq::<char>::empty());
    }
    while i < n
        invariant
            n == s@.len(),
            i <= n,
            out@ == escaped(s@.take(i as int)),
        decreases n - i,
    {
        let c = s.get_char(i);
        proof {
            assert(s@.take(i + 1).drop_last() =~= s@.take(i as int));
            assert(s@.take(i + 1).last() == c);
        }
        if c == '&' {
            out.append("&amp;");
        } else if c == '<' {
            out.append("&lt;");
        } else if c == '>' {
            out.append("&gt;");
        } else if c == '"' {
            out.append("&quot;");
        } else {
            let one = s.substring_char(i, i + 1);
            assert(one@ =~= seq![c]);
            out.append(one);
        }
        i = i + 1;
    }
    assert(s@.take(n as int) =~= s@);
    out
}

/// The view of a risk summary.
pub open spec fn risk_view_of() -> spec_fn(AppRiskSummary) -> RiskSummaryView {
    |h: AppRiskSummary| h@
}

/// The views of risk summaries.
pub open spec fn risk_views(s: Seq<AppRiskSummary>) -> Seq<RiskSummaryView> {
    s.map_values(risk_view_of())
}

/// The views of unused-application summaries.
pub open spec fn unused_views(s: Seq<UnusedAppSummary>) -> Seq<UnusedView> {
    s.map_values(|u: UnusedAppSummary| u@)
}

/// The views of permission violations.
pub open spec fn violation_views(s: Seq<PermissionViolation>) -> Seq<PermissionViolationView> {
    s.map_values(|v: PermissionViolation| v@)
}

/// The views of network anomalies.
pub open spec fn anomaly_views(s: Seq<NetworkAnomaly>) -> Seq<AnomalyView> {
    s.map_values(|a: NetworkAnomaly| a@)
}

/// The advice for a suspicious connection.
pub open spec fn urgent_text() -> spec_fn(AnomalyView) -> Seq<char> {
    |a: AnomalyView| "URGENT: Investigate "@ + a.app_id + " -- it connected to suspicious destination "@ + a.destination
}

/// A high-risk application with background accesses.
pub open spec fn has_background() -> spec_fn(RiskSummaryView) -> bool {
    |h: RiskSummaryView| h.background_access_count > 0
}

/// The advice for a high-risk application with background accesses.
pub open spec fn background_text() -> spec_fn(RiskSummaryView) -> Seq<char> {
    |h: RiskSummaryView|
        "Review background activity for "@ + h.display_name + " (risk "@ + decimal(h.risk_percent as nat) + "%, "@
            + decimal(h.background_access_count as nat) + " background accesses)"@
}

/// A high-risk application scoring above 50 without background accesses.
pub open spec fn needs_audit() -> spec_fn(RiskSummaryView) -> bool {
    |h: RiskSummaryView| h.risk_percent > 50 && h.background_access_count == 0
}

/// The advice for an application whose grants deserve an audit.
pub open spec fn audit_text() -> spec_fn(RiskSummaryView) -> Seq<char> {
    |h: RiskSummaryView|
        "Audit permissions for "@ + h.display_name + " -- risk score "@ + decimal(h.risk_percent as nat)
            + "% with permissions: "@ + join(h.high_risk_permissions, ", "@)
}

/// A grant that was never used.
pub open spec fn is_unused_grant() -> spec_fn(PermissionViolationView) -> bool {
    |v: PermissionViolationView| v.kind == ViolationKind::UnusedGrant
}

/// The prioritized advice of a report: suspicious connections first, then
/// high-risk applications with background activity, then other
/// high-risk applications scoring above 50, then unused grants, then
/// reclaimable space.
pub open spec fn recommendations_of(
    high: Seq<RiskSummaryView>,
    unused_count: nat,
    violations: Seq<PermissionViolationView>,
    anomalies: Seq<AnomalyView>,
    reclaimable: u64,
) -> Seq<Seq<char>> {
    let grants = violations.filter(is_unused_grant()).len();
    anomalies.map_values(urgent_text()) + high.filter(has_background()).map_values(background_text())
        + high.filter(needs_audit()).map_values(audit_text()) + (if grants > 0 {
        seq!["Revoke "@ + decimal(grants) + " unused permission grant(s) to reduce attack surface"@]
    } else {
        Seq::empty()
    }) + (if reclaimable > 0 {
        seq!["Archive "@ + decimal(unused_count) + " unused app(s) to reclaim "@ + bytes_text(reclaimable as nat)]
    } else {
        Seq::empty()
    })
}

fn push_urgent(recs: &mut Vec<String>, anomalies: &[NetworkAnomaly])
    ensures
        texts(final(recs)@) == texts(old(recs)@) + anomaly_views(anomalies@).map_values(urgent_text()),
{
    let ghost start = texts(recs@);
    let mut i: usize = 0;
    while i < anomalies.len()
        invariant
            i <= anomalies@.len(),
            texts(recs@) == start + anomaly_views(anomalies@).take(i as int).map_values(urgent_text()),
        decreases anomalies@.len() - i,
    {
        let a = &anomalies[i];
        let mut t = String::from_str("URGENT: Investigate ");
        t.append(a.app_id.as_str());
        t.append(" -- it connected to suspicious destination ");
        t.append(a.destination.as_str());
        let ghost before = texts(recs@);
        recs.push(t);
        proof {
            assert(anomaly_views(anomalies@).take(i + 1) =~= anomaly_views(anomalies@).take(i as int).push(a@));
            assert(texts(recs@) =~= before.push(t@));
            assert(anomaly_views(anomalies@).take(i + 1).map_values(urgent_text()) =~= anomaly_views(anomalies@).take(
                i as int,
            ).map_values(urgent_text()).push(urgent_text()(a@)));
        }
        i = i + 1;
    }
    assert(anomaly_views(anomalies@).take(anomalies@.len() as int) =~= anomaly_views(anomalies@));
}

fn push_background(recs: &mut Vec<String>, high_risk: &[AppRiskSummary])
    ensures
        texts(final(recs)@) == texts(old(recs)@) + risk_views(high_risk@).filter(has_background()).map_values(
            background_text(),
        ),
{
    let ghost start = texts(recs@);
    let ghost hv = risk_views(high_risk@);
    let mut i: usize = 0;
    proof {
        crate::keyed::lemma_filter_take_zero(hv, has_background());
        assert(hv.take(0).filter(has_background()).map_values(background_text()) =~= Seq::<Seq<char>>::empty());
    }
    while i < high_risk.len()
        invariant
            i <= high_risk@.len(),
            hv == risk_views(high_risk@),
            texts(recs@) == start + hv.take(i as int).filter(has_background()).map_values(background_text()),
        decreases high_risk@.len() - i,
    {
        let h = &high_risk[i];
        proof {
            assert(hv.take(i + 1) =~= hv.take(i as int).push(h@));
            crate::keyed::lemma_filter_map_push(hv.take(i as int), h@, has_background(), background_text());
        }
        if h.background_access_count > 0 {
            let mut t = String::from_str("Review background activity for ");
            t.append(h.display_name.as_str());
            t.append(" (risk ");
            let r = u64_to_decimal(h.risk_percent);
            t.append(r.as_str());
            t.append("%, ");
            let b = u64_to_decimal(h.background_access_count as u64);
            t.append(b.as_str());
            t.append(" background accesses)");
            let ghost before = texts(recs@);
            recs.push(t);
            assert(texts(recs@) =~= before.push(t@));
        }
        i = i + 1;
    }
    assert(hv.take(high_risk@.len() as int) =~= hv);
}

fn push_audit(recs: &mut Vec<String>, high_risk: &[AppRiskSummary])
    ensures
        texts(final(recs)@) == texts(old(recs)@) + risk_views(high_risk@).filter(needs_audit()).map_values(
            audit_text(),
        ),
{
    let ghost start = texts(recs@);
    let ghost hv = risk_views(high_risk@);
    let mut i: usize = 0;
    proof {
        crate::keyed::lemma_filter_take_zero(hv, needs_audit());
        assert(hv.take(0).filter(needs_audit()).map_values(audit_text()) =~= Seq::<Seq<char>>::empty());
    }
    while i < high_risk.len()
        invariant
            i <= high_risk@.len(),
            hv == risk_views(high_risk@),
            texts(recs@) == start + hv.take(i as int).filter(needs_audit()).map_values(audit_text()),
        decreases high_risk@.len() - i,
    {
        let h = &high_risk[i];
        proof {
            assert(hv.take(i + 1) =~= hv.take(i as int).push(h@));
            crate::keyed::lemma_filter_map_push(hv.take(i as int), h@, needs_audit(), audit_text());
        }
        if h.risk_percent > 50 && h.background_access_count == 0 {
            let mut t = String::from_str("Audit permissions for ");
            t.append(h.display_name.as_str());
            t.append(" -- risk score ");
            let r = u64_to_decimal(h.risk_percent);
            t.append(r.as_str());
            t.append("% with permissions: ");
            let j = join_strings(&h.high_risk_permissions, ", ");
            t.append(j.as_str());
            let ghost before = texts(recs@);
            recs.push(t);
            assert(texts(recs@) =~= before.push(t@));
        }
        i = i + 1;
    }
    assert(hv.take(high_risk@.len() as int) =~= hv);
}

fn unused_grant_count(violations: &[PermissionViolation]) -> (r: usize)
    ensures
        r == violation_views(violations@).filter(is_unused_grant()).len(),
{
    let ghost vv = violation_views(violations@);
    let mut n: usize = 0;
    let mut i: usize = 0;
    proof {
        crate::keyed::lemma_filter_take_zero(vv, is_unused_grant());
    }
    while i < violations.len()
        invariant
            i <= violations@.len(),
            vv == violation_views(violations@),
            n == vv.take(i as int).filter(is_unused_grant()).len(),
        decreases violations@.len() - i,
    {
        proof {
            assert(vv.take(i + 1) =~= vv.take(i as int).push(violations@[i as int]@));
            vv.take(i as int).lemma_filter_push(violations@[i as int]@, is_unused_grant());
            vv.take(i as int).lemma_filter_len(is_unused_grant());
        }
        if violations[i].kind == ViolationKind::UnusedGrant {
            n = n + 1;
        }
        i = i + 1;
    }
    assert(vv.take(violations@.len() as int) =~= vv);
    n
}

/// Build prioritized recommendations (highest-priority first).
pub fn build_recommendations(
    high_risk: &[AppRiskSummary],
    unused: &[UnusedAppSummary],
    violations: &[PermissionViolation],
    anomalies: &[NetworkAnomaly],
    reclaimable: u64,
) -> (r: Vec<String>)
    ensures
        texts(r@) == recommendations_of(
            risk_views(high_risk@),
            unused@.len(),
            violation_views(violations@),
            anomaly_views(anomalies@),
            reclaimable,
        ),
{
    let mut recs: Vec<String> = Vec::new();
    assert(texts(recs@) =~= Seq::<Seq<char>>::empty());
    push_urgent(&mut recs, anomalies);
    push_background(&mut recs, high_risk);
    push_audit(&mut recs, high_risk);
    let ghost so_far = texts(recs@);
    let grants = unused_grant_count(violations);
    if grants > 0 {
        let mut t = String::from_str("Revoke ");
        let g = u64_to_decimal(grants as u64);
        t.append(g.as_str());
        t.append(" unused permission grant(s) to reduce attack surface");
        recs.push(t);
    }
    let ghost with_revoke = texts(recs@);
    assert(with_revoke =~= so_far + (if grants > 0 {
        seq!["Revoke "@ + decimal(grants as nat) + " unused permission grant(s) to reduce attack surface"@]
    } else {
        Seq::<Seq<char>>::empty()
    }));
    if reclaimable > 0 {
        let mut t = String::from_str("Archive ");
        let n = u64_to_decimal(unused.len() as u64);
        t.append(n.as_str());
        t.append(" unused app(s) to reclaim ");
        let b = format_bytes(reclaimable);
        t.append(b.as_str());
        recs.push(t);
    }
    assert(texts(recs@) =~= with_revoke + (if reclaimable > 0 {
        seq!["Archive "@ + decimal(unused@.len()) + " unused app(s) to reclaim "@ + bytes_text(reclaimable as nat)]
    } else {
        Seq::<Seq<char>>::empty()
    }));
    recs
}

impl Scored for AppRiskSummary {
    open spec fn score(&self) -> int {
        self.risk_percent as int
    }

    fn score_value(&self) -> (v: u64) {
        self.risk_percent
    }
}

/// The risk of an application under the auditor, in percent.
pub open spec fn app_risk(aud: PermissionAuditor, app: Seq<char>) -> nat {
    risk_of(aud.granted_to(app), background_of(aud.accesses(), app).len())
}

/// The suspicious connections of an application.
pub open spec fn suspicious_of(net: NetworkAuditor, app: Seq<char>) -> Seq<AppConnection> {
    net.connections().filter(suspicious_conn(net.suspicious_list(), app))
}

/// An application worth listing as high-risk: risk above 30 percent, or a
/// suspicious connection.
pub open spec fn flagged(aud: PermissionAuditor, net: NetworkAuditor) -> spec_fn(AppUsage) -> bool {
    |u: AppUsage| app_risk(aud, u.app_id@) > 30 || suspicious_of(net, u.app_id@).len() > 0
}

/// A high-risk permission.
pub open spec fn high_risk_fn() -> spec_fn(PermissionView) -> bool {
    |p: PermissionView| high_risk(p)
}

/// The display name of a permission.
pub open spec fn permission_text_fn() -> spec_fn(PermissionView) -> Seq<char> {
    |p: PermissionView| permission_text(p)
}

/// The risk summary of an application.
pub open spec fn summary_of(aud: PermissionAuditor, net: NetworkAuditor) -> spec_fn(AppUsage) -> RiskSummaryView {
    |u: AppUsage|
        RiskSummaryView {
            app_id: u.app_id@,
            display_name: u.display_name@,
            risk_percent: app_risk(aud, u.app_id@) as u64,
            high_risk_permissions: aud.granted_to(u.app_id@).filter(high_risk_fn()).map_values(permission_text_fn()),
            background_access_count: background_of(aud.accesses(), u.app_id@).len() as usize,
            suspicious_connections: suspicious_of(net, u.app_id@).len() as usize,
        }
}

/// The summary of an archive candidate at `now`.
pub open spec fn unused_summary_of(now: Timestamp) -> spec_fn(AppUsage) -> UnusedView {
    |u: AppUsage|
        UnusedView {
            app_id: u.app_id@,
            display_name: u.display_name@,
            days_inactive: days_since_at(u, now) as i64,
            reclaimable_bytes: u.installed_size_bytes,
        }
}

/// The violation for a grant that was never used.
pub open spec fn unused_grant_of(app: Seq<char>) -> spec_fn(PermissionView) -> PermissionViolationView {
    |p: PermissionView| PermissionViolationView { app_id: app, permission: permission_text(p), kind: ViolationKind::UnusedGrant }
}

/// The violation for a background access.
pub open spec fn background_violation_of(app: Seq<char>) -> spec_fn(AccessView) -> PermissionViolationView {
    |a: AccessView|
        PermissionViolationView {
            app_id: app,
            permission: permission_text(a.permission),
            kind: ViolationKind::BackgroundAccess,
        }
}

/// The violations of one application: its unused grants, then its
/// background accesses.
pub open spec fn app_violations(aud: PermissionAuditor, app: Seq<char>) -> Seq<PermissionViolationView> {
    unused_of(aud.granted_to(app), used_of(aud.accesses(), app)).map_values(unused_grant_of(app))
        + background_of(aud.accesses(), app).map_values(background_violation_of(app))
}

/// The violations of a list of applications, application by application.
pub open spec fn all_violations(aud: PermissionAuditor, us: Seq<AppUsage>) -> Seq<PermissionViolationView>
    decreases us.len(),
{
    if us.len() == 0 {
        Seq::empty()
    } else {
        all_violations(aud, us.drop_last()) + app_violations(aud, us.last().app_id@)
    }
}

/// The anomaly reported for a suspicious connection.
pub open spec fn anomaly_of(app: Seq<char>) -> spec_fn(AppConnection) -> AnomalyView {
    |c: AppConnection|
        AnomalyView { app_id: app, destination: dest_of(c), reason: "Connection to known-suspicious destination"@ }
}

/// The anomalies of a list of applications, application by application.
pub open spec fn all_anomalies(net: NetworkAuditor, us: Seq<AppUsage>) -> Seq<AnomalyView>
    decreases us.len(),
{
    if us.len() == 0 {
        Seq::empty()
    } else {
        all_anomalies(net, us.drop_last()) + suspicious_of(net, us.last().app_id@).map_values(
            anomaly_of(us.last().app_id@),
        )
    }
}

fn risk_summary_for(auditor: &PermissionAuditor, network: &NetworkAuditor, u: &AppUsage) -> (r: Option<AppRiskSummary>)
    requires
        auditor.wf(),
    ensures
        match r {
            Some(h) => flagged(*auditor, *network)(*u) && h@ == summary_of(*auditor, *network)(*u),
            None => !flagged(*auditor, *network)(*u),
        },
{
    let audit = auditor.audit_app(u.app_id.as_str());
    let suspicious = network.check_suspicious(u.app_id.as_str());
    proof {
        assert(conn_values(suspicious@).len() == suspicious@.len());
    }
    if audit.risk_percent > 30 || suspicious.len() > 0 {
        let ghost g = perm_views(audit.granted_permissions@);
        let mut hr: Vec<String> = Vec::new();
        let mut i: usize = 0;
        proof {
            crate::keyed::lemma_filter_take_zero(g, high_risk_fn());
            assert(texts(hr@) =~= g.take(0).filter(high_risk_fn()).map_values(permission_text_fn()));
        }
        while i < audit.granted_permissions.len()
            invariant
                i <= audit.granted_permissions@.len(),
                g == perm_views(audit.granted_permissions@),
                texts(hr@) == g.take(i as int).filter(high_risk_fn()).map_values(permission_text_fn()),
            decreases audit.granted_permissions@.len() - i,
        {
            let p = &audit.granted_permissions[i];
            proof {
                assert(g.take(i + 1) =~= g.take(i as int).push(p@));
                crate::keyed::lemma_filter_map_push(g.take(i as int), p@, high_risk_fn(), permission_text_fn());
            }
            if is_high_risk_permission(p) {
                let t = format_permission(p);
                let ghost before = texts(hr@);
                hr.push(t);
                assert(texts(hr@) =~= before.push(t@));
            }
            i = i + 1;
        }
        assert(g.take(g.len() as int) =~= g);
        assert(audit.background_accesses@.map_values(|a: crate::permissions::PermissionAccess| a@).len()
            == audit.background_accesses@.len());
        Some(AppRiskSummary {
            app_id: copy_string(&u.app_id),
            display_name: copy_string(&u.display_name),
            risk_percent: audit.risk_percent,
            high_risk_permissions: hr,
            background_access_count: audit.background_accesses.len(),
            suspicious_connections: suspicious.len(),
        })
    } else {
        None
    }
}

fn push_app_violations(out: &mut Vec<PermissionViolation>, auditor: &PermissionAuditor, app_id: &String)
    requires
        auditor.wf(),
    ensures
        violation_views(final(out)@) == violation_views(old(out)@) + app_violations(*auditor, app_id@),
{
    let audit = auditor.audit_app(app_id.as_str());
    let ghost start = violation_views(out@);
    let ghost un = perm_views(audit.unused_permissions@);
    let mut i: usize = 0;
    while i < audit.unused_permissions.len()
        invariant
            i <= audit.unused_permissions@.len(),
            un == perm_views(audit.unused_permissions@),
            violation_views(out@) == start + un.take(i as int).map_values(unused_grant_of(app_id@)),
        decreases audit.unused_permissions@.len() - i,
    {
        let p = &audit.unused_permissions[i];
        let v = PermissionViolation { app_id: copy_string(app_id), permission: format_permission(p), kind: ViolationKind::UnusedGrant };
        let ghost before = violation_views(out@);
        out.push(v);
        proof {
            assert(violation_views(out@) =~= before.push(v@));
            assert(un.take(i + 1).map_values(unused_grant_of(app_id@)) =~= un.take(i as int).map_values(
                unused_grant_of(app_id@),
            ).push(unused_grant_of(app_id@)(p@)));
        }
        i = i + 1;
    }
    assert(un.take(un.len() as int) =~= un);
    let ghost mid = violation_views(out@);
    let ghost bg = audit.background_accesses@.map_values(|a: crate::permissions::PermissionAccess| a@);
    let mut j: usize = 0;
    while j < audit.background_accesses.len()
        invariant
            j <= audit.background_accesses@.len(),
            bg == audit.background_accesses@.map_values(|a: crate::permissions::PermissionAccess| a@),
            violation_views(out@) == mid + bg.take(j as int).map_values(background_violation_of(app_id@)),
        decreases audit.background_accesses@.len() - j,
    {
        let a = &audit.background_accesses[j];
        let v = PermissionViolation {
            app_id: copy_string(app_id),
            permission: format_permission(&a.permission),
            kind: ViolationKind::BackgroundAccess,
        };
        let ghost before = violation_views(out@);
        out.push(v);
        proof {
            assert(bg[j as int] == a@);
            assert(violation_views(out@) =~= before.push(v@));
            assert(bg.take(j + 1).map_values(background_violation_of(app_id@)) =~= bg.take(j as int).map_values(
                background_violation_of(app_id@),
            ).push(background_violation_of(app_id@)(a@)));
        }
        j = j + 1;
    }
    assert(bg.take(bg.len() as int) =~= bg);
}

fn push_app_anomalies(out: &mut Vec<NetworkAnomaly>, network: &NetworkAuditor, app_id: &String)
    ensures
        anomaly_views(final(out)@) == anomaly_views(old(out)@) + suspicious_of(*network, app_id@).map_values(
            anomaly_of(app_id@),
        ),
{
    let conns = network.check_suspicious(app_id.as_str());
    let ghost start = anomaly_views(out@);
    let ghost cs = conn_values(conns@);
    let mut i: usize = 0;
    while i < conns.len()
        invariant
            i <= conns@.len(),
            cs == conn_values(conns@),
            cs.len() == conns@.len(),
            anomaly_views(out@) == start + cs.take(i as int).map_values(anomaly_of(app_id@)),
        decreases conns@.len() - i,
    {
        let c = conns[i];
        let a = NetworkAnomaly {
            app_id: copy_string(app_id),
            destination: String::from_str(dest_str(c)),
            reason: String::from_str("Connection to known-suspicious destination"),
        };
        let ghost before = anomaly_views(out@);
        out.push(a);
        proof {
            assert(cs[i as int] == *c);
            assert(anomaly_views(out@) =~= before.push(a@));
            assert(cs.take(i + 1).map_values(anomaly_of(app_id@)) =~= cs.take(i as int).map_values(anomaly_of(app_id@)).push(
                anomaly_of(app_id@)(*c),
            ));
        }
        i = i + 1;
    }
    assert(cs.take(cs.len() as int) =~= cs);
}

fn high_risk_list(apps: &Vec<&AppUsage>, auditor: &PermissionAuditor, network: &NetworkAuditor) -> (r: Vec<AppRiskSummary>)
    requires
        auditor.wf(),
    ensures
        risk_views(r@).to_multiset() == usage_values(apps@).filter(flagged(*auditor, *network)).map_values(
            summary_of(*auditor, *network),
        ).to_multiset(),
        forall|i: int, j: int| 0 <= i < j < r@.len() ==> r@[i].risk_percent >= r@[j].risk_percent,
{
    let ghost us = usage_values(apps@);
    let ghost pred = flagged(*auditor, *network);
    let ghost f = summary_of(*auditor, *network);
    let mut list: Vec<AppRiskSummary> = Vec::new();
    let mut i: usize = 0;
    proof {
        crate::keyed::lemma_filter_take_zero(us, pred);
        assert(risk_views(list@) =~= us.take(0).filter(pred).map_values(f));
    }
    while i < apps.len()
        invariant
            i <= apps@.len(),
            auditor.wf(),
            us == usage_values(apps@),
            pred == flagged(*auditor, *network),
            f == summary_of(*auditor, *network),
            risk_views(list@) == us.take(i as int).filter(pred).map_values(f),
        decreases apps@.len() - i,
    {
        let u = apps[i];
        proof {
            assert(us[i as int] == *u);
            assert(us.take(i + 1) =~= us.take(i as int).push(*u));
            crate::keyed::lemma_filter_map_push(us.take(i as int), *u, pred, f);
        }
        match risk_summary_for(auditor, network, u) {
            Some(h) => {
                let ghost before = risk_views(list@);
                list.push(h);
                assert(risk_views(list@) =~= before.push(h@));
            },
            None => {},
        }
        i = i + 1;
    }
    assert(us.take(us.len() as int) =~= us);
    let ghost lv = list@;
    let sorted = sort_desc(list);
    proof {
        lemma_map_same_multiset(sorted@, lv, risk_view_of());
        assert forall|a: int, b: int| 0 <= a < b < sorted@.len() implies sorted@[a].risk_percent >= sorted@[b].risk_percent by {
            assert(sorted@[a].score() >= sorted@[b].score());
        }
    }
    sorted
}

fn unused_list(tracker: &UsageTracker, now: Timestamp) -> (r: Vec<UnusedAppSummary>)
    ensures
        unused_views(r@) == archive_order(tracker.usages(), tracker.threshold(), now).map_values(unused_summary_of(now)),
{
    let cands = tracker.archive_candidates_at(now);
    let ghost c = usage_values(cands@);
    let mut out: Vec<UnusedAppSummary> = Vec::new();
    let mut i: usize = 0;
    while i < cands.len()
        invariant
            i <= cands@.len(),
            c == usage_values(cands@),
            c.len() == cands@.len(),
            unused_views(out@) == c.take(i as int).map_values(unused_summary_of(now)),
        decreases cands@.len() - i,
    {
        let u = cands[i];
        let s = UnusedAppSummary {
            app_id: copy_string(&u.app_id),
            display_name: copy_string(&u.display_name),
            days_inactive: u.days_since_last_use_at(now),
            reclaimable_bytes: u.installed_size_bytes,
        };
        let ghost before = unused_views(out@);
        out.push(s);
        proof {
            assert(c[i as int] == *u);
            assert(unused_views(out@) =~= before.push(s@));
            assert(c.take(i + 1).map_values(unused_summary_of(now)) =~= c.take(i as int).map_values(
                unused_summary_of(now),
            ).push(unused_summary_of(now)(*u)));
        }
        i = i + 1;
    }
    proof {
        assert(c.take(c.len() as int) =~= c);
    }
    out
}

fn violations_list(apps: &Vec<&AppUsage>, auditor: &PermissionAuditor) -> (r: Vec<PermissionViolation>)
    requires
        auditor.wf(),
    ensures
        violation_views(r@) == all_violations(*auditor, usage_values(apps@)),
{
    let ghost us = usage_values(apps@);
    let mut out: Vec<PermissionViolation> = Vec::new();
    let mut i: usize = 0;
    assert(violation_views(out@) =~= all_violations(*auditor, us.take(0)));
    while i < apps.len()
        invariant
            i <= apps@.len(),
            auditor.wf(),
            us == usage_values(apps@),
            violation_views(out@) == all_violations(*auditor, us.take(i as int)),
        decreases apps@.len() - i,
    {
        let u = apps[i];
        proof {
            assert(us[i as int] == *u);
            assert(us.take(i + 1).drop_last() =~= us.take(i as int));
        }
        push_app_violations(&mut out, auditor, &u.app_id);
        i = i + 1;
    }
    assert(us.take(us.len() as int) =~= us);
    out
}

fn anomalies_list(apps: &Vec<&AppUsage>, network: &NetworkAuditor) -> (r: Vec<NetworkAnomaly>)
    ensures
        anomaly_views(r@) == all_anomalies(*network, usage_values(apps@)),
{
    let ghost us = usage_values(apps@);
    let mut out: Vec<NetworkAnomaly> = Vec::new();
    let mut i: usize = 0;
    assert(anomaly_views(out@) =~= all_anomalies(*network, us.take(0)));
    while i < apps.len()
        invariant
            i <= apps@.len(),
            us == usage_values(apps@),
            anomaly_views(out@) == all_anomalies(*network, us.take(i as int)),
        decreases apps@.len() - i,
    {
        let u = apps[i];
        proof {
            assert(us[i as int] == *u);
            assert(us.take(i + 1).drop_last() =~= us.take(i as int));
        }
        push_app_anomalies(&mut out, network, &u.app_id);
        i = i + 1;
    }
    assert(us.take(us.len() as int) =~= us);
    out
}

/// Compiles reports from the various subsystems.
pub struct AppGuardReporter;

impl AppGuardReporter {
    /// Compile a full report from all data sources at the given instant.
    pub fn generate_report_at(
        tracker: &UsageTracker,
        auditor: &PermissionAuditor,
        network: &NetworkAuditor,
        now: Timestamp,
    ) -> (r: AppGuardReport)
        requires
            auditor.wf(),
            installed_sum(tracker.usages().filter(candidate_at(tracker.threshold(), now))) <= u64::MAX,
        ensures
            r.generated_at == now,
            r.total_apps == tracker.usages().len() as u32,
            risk_views(r.high_risk_apps@).to_multiset() == tracker.usages().filter(flagged(*auditor, *network)).map_values(
                summary_of(*auditor, *network),
            ).to_multiset(),
            forall|i: int, j: int|
                0 <= i < j < r.high_risk_apps@.len() ==> r.high_risk_apps@[i].risk_percent >= r.high_risk_apps@[j].risk_percent,
            unused_views(r.unused_apps@) == archive_order(tracker.usages(), tracker.threshold(), now).map_values(
                unused_summary_of(now),
            ),
            violation_views(r.permission_violations@) == all_violations(*auditor, tracker.usages()),
            anomaly_views(r.network_anomalies@) == all_anomalies(*network, tracker.usages()),
            r.reclaimable_space_bytes == installed_sum(tracker.usages().filter(candidate_at(tracker.threshold(), now))),
            texts(r.recommendations@) == recommendations_of(
                risk_views(r.high_risk_apps@),
                r.unused_apps@.len(),
                violation_views(r.permission_violations@),
                anomaly_views(r.network_anomalies@),
                r.reclaimable_space_bytes,
            ),
    {
        let all_apps = tracker.all_apps();
        let total_apps = all_apps.len() as u32;
        let high_risk_apps = high_risk_list(&all_apps, auditor, network);
        let unused_apps = unused_list(tracker, now);
        let permission_violations = violations_list(&all_apps, auditor);
        let network_anomalies = anomalies_list(&all_apps, network);
        let reclaimable_space_bytes = tracker.reclaimable_space_at(now);
        let recommendations = build_recommendations(
            high_risk_apps.as_slice(),
            unused_apps.as_slice(),
            permission_violations.as_slice(),
            network_anomalies.as_slice(),
            reclaimable_space_bytes,
        );
        proof {
            assert(usage_values(all_apps@).len() == all_apps@.len());
        }
        AppGuardReport {
            generated_at: now,
            total_apps,
            high_risk_apps,
            unused_apps,
            permission_violations,
            network_anomalies,
            reclaimable_space_bytes,
            recommendations,
        }
    }

    /// Compile a full report from all data sources now.
    pub fn generate_report(tracker: &UsageTracker, auditor: &PermissionAuditor, network: &NetworkAuditor) -> (r: AppGuardReport)
        requires
            auditor.wf(),
            forall|now: Timestamp|
                #[trigger] installed_sum(tracker.usages().filter(candidate_at(tracker.threshold(), now))) <= u64::MAX,
        ensures
            r.total_apps == tracker.usages().len() as u32,
            risk_views(r.high_risk_apps@).to_multiset() == tracker.usages().filter(flagged(*auditor, *network)).map_values(
                summary_of(*auditor, *network),
            ).to_multiset(),
            forall|i: int, j: int|
                0 <= i < j < r.high_risk_apps@.len() ==> r.high_risk_apps@[i].risk_percent >= r.high_risk_apps@[j].risk_percent,
            unused_views(r.unused_apps@) == archive_order(tracker.usages(), tracker.threshold(), r.generated_at).map_values(
                unused_summary_of(r.generated_at),
            ),
            violation_views(r.permission_violations@) == all_violations(*auditor, tracker.usages()),
            anomaly_views(r.network_anomalies@) == all_anomalies(*network, tracker.usages()),
            r.reclaimable_space_bytes == installed_sum(
                tracker.usages().filter(candidate_at(tracker.threshold(), r.generated_at)),
            ),
            texts(r.recommendations@) == recommendations_of(
                risk_views(r.high_risk_apps@),
                r.unused_apps@.len(),
                violation_views(r.permission_violations@),
                anomaly_views(r.network_anomalies@),
                r.reclaimable_space_bytes,
            ),
    {
        let now = now_millis();
        assert(installed_sum(tracker.usages().filter(candidate_at(tracker.threshold(), now))) <= u64::MAX);
        Self::generate_report_at(tracker, auditor, network, now)
    }
}

/// The texts of the items of `s`, one after another.
pub open spec fn lines<T>(s: Seq<T>, f: spec_fn(T) -> Seq<char>) -> Seq<char>
    decreases s.len(),
{
    if s.len() == 0 {
        Seq::empty()
    } else {
        lines(s.drop_last(), f) + f(s.last())
    }
}

/// One more item adds its text.
pub proof fn lemma_lines_push<T>(s: Seq<T>, i: int, f: spec_fn(T) -> Seq<char>)
    requires
        0 <= i < s.len(),
    ensures
        lines(s.take(i + 1), f) == lines(s.take(i), f) + f(s[i]),
{
    assert(s.take(i + 1).drop_last() =~= s.take(i));
}

/// The recommendations numbered from 1, one per line.
pub open spec fn numbered(s: Seq<Seq<char>>) -> Seq<char>
    decreases s.len(),
{
    if s.len() == 0 {
        Seq::empty()
    } else {
        numbered(s.drop_last()) + "  "@ + decimal(s.len()) + ". "@ + s.last() + "\n"@
    }
}

/// A line that appears only when `cond` holds.
pub open spec fn line_if(cond: bool, text: Seq<char>) -> Seq<char> {
    if cond {
        text
    } else {
        Seq::empty()
    }
}

/// The text entry of a high-risk application.
pub open spec fn risk_text() -> spec_fn(RiskSummaryView) -> Seq<char> {
    |h: RiskSummaryView|
        "  ["@ + decimal(h.risk_percent as nat) + "%] "@ + h.display_name + " ("@ + h.app_id + ")\n"@
            + line_if(
            h.high_risk_permissions.len() > 0,
            "        Permissions: "@ + join(h.high_risk_permissions, ", "@) + "\n"@,
        ) + line_if(
            h.background_access_count > 0,
            "        Background accesses: "@ + decimal(h.background_access_count as nat) + "\n"@,
        ) + line_if(
            h.suspicious_connections > 0,
            "        Suspicious connections: "@ + decimal(h.suspicious_connections as nat) + "\n"@,
        )
}

/// The text entry of an unused application.
pub open spec fn unused_text() -> spec_fn(UnusedView) -> Seq<char> {
    |u: UnusedView|
        "  "@ + u.display_name + " ("@ + u.app_id + ") -- "@ + signed_decimal(u.days_inactive as int)
            + " days inactive, "@ + bytes_text(u.reclaimable_bytes as nat) + " reclaimable\n"@
}

/// The label of a violation kind.
pub open spec fn kind_label(k: ViolationKind) -> Seq<char> {
    match k {
        ViolationKind::UnusedGrant => "unused grant"@,
        ViolationKind::BackgroundAccess => "background access"@,
    }
}

/// The text entry of a permission violation.
pub open spec fn violation_text() -> spec_fn(PermissionViolationView) -> Seq<char> {
    |v: PermissionViolationView| "  "@ + v.app_id + " -- "@ + v.permission + " ("@ + kind_label(v.kind) + ")\n"@
}

/// The text entry of a network anomaly.
pub open spec fn anomaly_text() -> spec_fn(AnomalyView) -> Seq<char> {
    |a: AnomalyView| "  "@ + a.app_id + " -> "@ + a.destination + " ("@ + a.reason + ")\n"@
}

/// A section heading with its item count.
pub open spec fn heading(title: Seq<char>, n: nat) -> Seq<char> {
    "--- "@ + title + " ("@ + decimal(n) + ") ---\n"@
}

/// The text rendering of a report.
pub open spec fn text_report(r: AppGuardReport) -> Seq<char> {
    "=== PlausiDen AppGuard Report ===\nGenerated: "@ + instant_text(r.generated_at) + "\nTotal apps tracked: "@
        + decimal(r.total_apps as nat) + "\n\n"@
        + heading("High-Risk Applications"@, r.high_risk_apps@.len()) + lines(risk_views(r.high_risk_apps@), risk_text())
        + "\n"@
        + heading("Unused Applications"@, r.unused_apps@.len()) + lines(unused_views(r.unused_apps@), unused_text())
        + "\n"@
        + heading("Permission Violations"@, r.permission_violations@.len()) + lines(
        violation_views(r.permission_violations@),
        violation_text(),
    ) + "\n"@
        + heading("Network Anomalies"@, r.network_anomalies@.len()) + lines(anomaly_views(r.network_anomalies@), anomaly_text())
        + "\n"@
        + "Reclaimable space: "@ + bytes_text(r.reclaimable_space_bytes as nat) + "\n\n"@
        + heading("Recommendations"@, r.recommendations@.len()) + numbered(texts(r.recommendations@))
}

fn push_heading(out: &mut String, title: &str, n: usize)
    ensures
        final(out)@ == old(out)@ + heading(title@, n as nat),
{
    out.append("--- ");
    out.append(title);
    out.append(" (");
    let d = u64_to_decimal(n as u64);
    out.append(d.as_str());
    out.append(") ---\n");
}

fn risk_entry(h: &AppRiskSummary) -> (r: String)
    ensures
        r@ == risk_text()(h@),
{
    let mut t = String::from_str("  [");
    let p = u64_to_decimal(h.risk_percent);
    t.append(p.as_str());
    t.append("%] ");
    t.append(h.display_name.as_str());
    t.append(" (");
    t.append(h.app_id.as_str());
    t.append(")\n");
    let ghost head = t@;
    if h.high_risk_permissions.len() > 0 {
        t.append("        Permissions: ");
        let j = join_strings(&h.high_risk_permissions, ", ");
        t.append(j.as_str());
        t.append("\n");
    }
    let ghost with_perms = t@;
    if h.background_access_count > 0 {
        t.append("        Background accesses: ");
        let b = u64_to_decimal(h.background_access_count as u64);
        t.append(b.as_str());
        t.append("\n");
    }
    let ghost with_bg = t@;
    if h.suspicious_connections > 0 {
        t.append("        Suspicious connections: ");
        let c = u64_to_decimal(h.suspicious_connections as u64);
        t.append(c.as_str());
        t.append("\n");
    }
    proof {
        assert(texts(h.high_risk_permissions@).len() == h.high_risk_permissions@.len());
        assert(with_perms =~= head + line_if(
            h@.high_risk_permissions.len() > 0,
            "        Permissions: "@ + join(h@.high_risk_permissions, ", "@) + "\n"@,
        ));
        assert(with_bg =~= with_perms + line_if(
            h.background_access_count > 0,
            "        Background accesses: "@ + decimal(h.background_access_count as nat) + "\n"@,
        ));
        assert(t@ =~= with_bg + line_if(
            h.suspicious_connections > 0,
            "        Suspicious connections: "@ + decimal(h.suspicious_connections as nat) + "\n"@,
        ));
    }
    t
}

fn unused_entry(u: &UnusedAppSummary) -> (r: String)
    ensures
        r@ == unused_text()(u@),
{
    let mut t = String::from_str("  ");
    t.append(u.display_name.as_str());
    t.append(" (");
    t.append(u.app_id.as_str());
    t.append(") -- ");
    let d = i64_to_decimal(u.days_inactive);
    t.append(d.as_str());
    t.append(" days inactive, ");
    let b = format_bytes(u.reclaimable_bytes);
    t.append(b.as_str());
    t.append(" reclaimable\n");
    t
}

fn kind_str(k: ViolationKind) -> (r: &'static str)
    ensures
        r@ == kind_label(k),
{
    match k {
        ViolationKind::UnusedGrant => "unused grant",
        ViolationKind::BackgroundAccess => "background access",
    }
}

fn violation_entry(v: &PermissionViolation) -> (r: String)
    ensures
        r@ == violation_text()(v@),
{
    let mut t = String::from_str("  ");
    t.append(v.app_id.as_str());
    t.append(" -- ");
    t.append(v.permission.as_str());
    t.append(" (");
    t.append(kind_str(v.kind));
    t.append(")\n");
    t
}

fn anomaly_entry(a: &NetworkAnomaly) -> (r: String)
    ensures
        r@ == anomaly_text()(a@),
{
    let mut t = String::from_str("  ");
    t.append(a.app_id.as_str());
    t.append(" -> ");
    t.append(a.destination.as_str());
    t.append(" (");
    t.append(a.reason.as_str());
    t.append(")\n");
    t
}

impl AppGuardReport {
    fn text_high_risk(&self, out: &mut String)
        ensures
            final(out)@ == old(out)@ + lines(risk_views(self.high_risk_apps@), risk_text()),
    {
        let ghost start = out@;
        let ghost vs = risk_views(self.high_risk_apps@);
        let mut i: usize = 0;
        assert(vs.take(0) =~= Seq::<RiskSummaryView>::empty());
        while i < self.high_risk_apps.len()
            invariant
                i <= self.high_risk_apps@.len(),
                vs == risk_views(self.high_risk_apps@),
                out@ == start + lines(vs.take(i as int), risk_text()),
            decreases self.high_risk_apps@.len() - i,
        {
            proof {
                lemma_lines_push(vs, i as int, risk_text());
            }
            let e = risk_entry(&self.high_risk_apps[i]);
            out.append(e.as_str());
            assert(out@ =~= start + lines(vs.take(i + 1), risk_text()));
            i = i + 1;
        }
        assert(vs.take(vs.len() as int) =~= vs);
    }

    fn text_unused(&self, out: &mut String)
        ensures
            final(out)@ == old(out)@ + lines(unused_views(self.unused_apps@), unused_text()),
    {
        let ghost start = out@;
        let ghost vs = unused_views(self.unused_apps@);
        let mut i: usize = 0;
        assert(vs.take(0) =~= Seq::<UnusedView>::empty());
        while i < self.unused_apps.len()
            invariant
                i <= self.unused_apps@.len(),
                vs == unused_views(self.unused_apps@),
                out@ == start + lines(vs.take(i as int), unused_text()),
            decreases self.unused_apps@.len() - i,
        {
            proof {
                lemma_lines_push(vs, i as int, unused_text());
            }
            let e = unused_entry(&self.unused_apps[i]);
            out.append(e.as_str());
            assert(out@ =~= start + lines(vs.take(i + 1), unused_text()));
            i = i + 1;
        }
        assert(vs.take(vs.len() as int) =~= vs);
    }

    fn text_violations(&self, out: &mut String)
        ensures
            final(out)@ == old(out)@ + lines(violation_views(self.permission_violations@), violation_text()),
    {
        let ghost start = out@;
        let ghost vs = violation_views(self.permission_violations@);
        let mut i: usize = 0;
        assert(vs.take(0) =~= Seq::<PermissionViolationView>::empty());
        while i < self.permission_violations.len()
            invariant
                i <= self.permission_violations@.len(),
                vs == violation_views(self.permission_violations@),
                out@ == start + lines(vs.take(i as int), violation_text()),
            decreases self.permission_violations@.len() - i,
        {
            proof {
                lemma_lines_push(vs, i as int, violation_text());
            }
            let e = violation_entry(&self.permission_violations[i]);
            out.append(e.as_str());
            assert(out@ =~= start + lines(vs.take(i + 1), violation_text()));
            i = i + 1;
        }
        assert(vs.take(vs.len() as int) =~= vs);
    }

    fn text_anomalies(&self, out: &mut String)
        ensures
            final(out)@ == old(out)@ + lines(anomaly_views(self.network_anomalies@), anomaly_text()),
    {
        let ghost start = out@;
        let ghost vs = anomaly_views(self.network_anomalies@);
        let mut i: usize = 0;
        assert(vs.take(0) =~= Seq::<AnomalyView>::empty());
        while i < self.network_anomalies.len()
            invariant
                i <= self.network_anomalies@.len(),
                vs == anomaly_views(self.network_anomalies@),
                out@ == start + lines(vs.take(i as int), anomaly_text()),
            decreases self.network_anomalies@.len() - i,
        {
            proof {
                lemma_lines_push(vs, i as int, anomaly_text());
            }
            let e = anomaly_entry(&self.network_anomalies[i]);
            out.append(e.as_str());
            assert(out@ =~= start + lines(vs.take(i + 1), anomaly_text()));
            i = i + 1;
        }
        assert(vs.take(vs.len() as int) =~= vs);
    }

    fn text_recommendations(&self, out: &mut String)
        ensures
            final(out)@ == old(out)@ + numbered(texts(self.recommendations@)),
    {
        let ghost start = out@;
        let ghost vs = texts(self.recommendations@);
        let mut i: usize = 0;
        assert(vs.take(0) =~= Seq::<Seq<char>>::empty());
        while i < self.recommendations.len()
            invariant
                i <= self.recommendations@.len(),
                vs == texts(self.recommendations@),
                out@ == start + numbered(vs.take(i as int)),
            decreases self.recommendations@.len() - i,
        {
            proof {
                assert(vs.take(i + 1).drop_last() =~= vs.take(i as int));
                assert(vs.take(i + 1).last() == self.recommendations@[i as int]@);
            }
            out.append("  ");
            let n = u64_to_decimal((i as u64) + 1);
            out.append(n.as_str());
            out.append(". ");
            out.append(self.recommendations[i].as_str());
            out.append("\n");
            assert(out@ =~= start + numbered(vs.take(i + 1)));
            i = i + 1;
        }
        assert(vs.take(vs.len() as int) =~= vs);
    }

    /// Render the report as human-readable text.
    pub fn render_text(&self) -> (r: String)
        ensures
            r@ == text_report(*self),
    {
        let mut out = String::from_str("=== PlausiDen AppGuard Report ===\nGenerated: ");
        let date = format_instant(self.generated_at);
        out.append(date.as_str());
        out.append("\nTotal apps tracked: ");
        let n = u64_to_decimal(self.total_apps as u64);
        out.append(n.as_str());
        out.append("\n\n");
        push_heading(&mut out, "High-Risk Applications", self.high_risk_apps.len());
        self.text_high_risk(&mut out);
        out.append("\n");
        push_heading(&mut out, "Unused Applications", self.unused_apps.len());
        self.text_unused(&mut out);
        out.append("\n");
        push_heading(&mut out, "Permission Violations", self.permission_violations.len());
        self.text_violations(&mut out);
        out.append("\n");
        push_heading(&mut out, "Network Anomalies", self.network_anomalies.len());
        self.text_anomalies(&mut out);
        out.append("\n");
        out.append("Reclaimable space: ");
        let b = format_bytes(self.reclaimable_space_bytes);
        out.append(b.as_str());
        out.append("\n\n");
        push_heading(&mut out, "Recommendations", self.recommendations.len());
        self.text_recommendations(&mut out);
        assert(out@ =~= text_report(*self));
        out
    }

    /// The prioritized action items of the report, in order.
    pub fn top_recommendations(&self) -> (r: Vec<&str>)
        ensures
            r@.len() == self.recommendations@.len(),
            forall|i: int| 0 <= i < r@.len() ==> (#[trigger] r@[i])@ == self.recommendations@[i]@,
    {
        let mut r: Vec<&str> = Vec::new();
        let mut i: usize = 0;
        while i < self.recommendations.len()
            invariant
                i <= self.recommendations@.len(),
                r@.len() == i,
                forall|j: int| 0 <= j < i ==> (#[trigger] r@[j])@ == self.recommendations@[j]@,
            decreases self.recommendations@.len() - i,
        {
            r.push(self.recommendations[i].as_str());
            i = i + 1;
        }
        r
    }
}

/// The document head of the HTML report, with its inline style sheet.
pub const HTML_HEAD: &'static str = "<!DOCTYPE html>\n<html lang=\"en\">\n<head>\n<meta charset=\"utf-8\">\n<meta name=\"viewport\" content=\"width=device-width, initial-scale=1\">\n<title>PlausiDen AppGuard Report</title>\n<style>\n  * { box-sizing: border-box; margin: 0; padding: 0; }\n  body { font-family: system-ui, -apple-system, sans-serif; background: #0d1117; color: #c9d1d9; padding: 2rem; line-height: 1.6; }\n  h1 { color: #58a6ff; margin-bottom: 0.3rem; }\n  .meta { color: #8b949e; margin-bottom: 2rem; }\n  section { background: #161b22; border: 1px solid #30363d; border-radius: 8px; padding: 1.2rem; margin-bottom: 1.5rem; }\n  h2 { color: #58a6ff; font-size: 1.1rem; margin-bottom: 0.8rem; border-bottom: 1px solid #21262d; padding-bottom: 0.4rem; }\n  table { width: 100%; border-collapse: collapse; }\n  th { text-align: left; color: #8b949e; font-weight: 600; padding: 0.4rem 0.6rem; border-bottom: 1px solid #30363d; }\n  td { padding: 0.4rem 0.6rem; border-bottom: 1px solid #21262d; }\n  .risk-high { color: #f85149; font-weight: bold; }\n  .risk-med  { color: #d29922; font-weight: bold; }\n  .risk-low  { color: #3fb950; }\n  .badge { display: inline-block; padding: 0.1rem 0.5rem; border-radius: 12px; font-size: 0.8rem; }\n  .badge-warn { background: #d292221a; color: #d29922; border: 1px solid #d2992244; }\n  .badge-danger { background: #f851491a; color: #f85149; border: 1px solid #f8514944; }\n  .badge-info { background: #58a6ff1a; color: #58a6ff; border: 1px solid #58a6ff44; }\n  ol.recs { padding-left: 1.5rem; }\n  ol.recs li { margin-bottom: 0.4rem; }\n  .stat { display: inline-block; background: #21262d; border-radius: 6px; padding: 0.6rem 1rem; margin: 0.3rem; text-align: center; }\n  .stat .num { font-size: 1.5rem; font-weight: bold; color: #58a6ff; display: block; }\n  .stat .label { font-size: 0.8rem; color: #8b949e; }\n  .empty { color: #484f58; font-style: italic; }\n</style>\n</head>\n<body>\n";

/// A section of the HTML report.
pub open spec fn html_section(id: Seq<char>, title: Seq<char>, body: Seq<char>) -> Seq<char> {
    "<section id=\""@ + id + "\">\n<h2>"@ + title + "</h2>\n"@ + body + "</section>\n\n"@
}

/// The body of a section: a note when there is nothing to list, else the
/// rows between an opening and a closing tag.
pub open spec fn section_body(n: nat, note: Seq<char>, open: Seq<char>, rows: Seq<char>, close: Seq<char>) -> Seq<char> {
    if n == 0 {
        "<p class=\"empty\">"@ + note + "</p>\n"@
    } else {
        open + rows + close
    }
}

/// A figure of the statistics bar.
pub open spec fn stat(num: Seq<char>, label: Seq<char>) -> Seq<char> {
    "  <span class=\"stat\"><span class=\"num\">"@ + num + "</span><span class=\"label\">"@ + label + "</span></span>\n"@
}

/// The colour class of a risk figure.
pub open spec fn risk_class(risk_percent: u64) -> Seq<char> {
    if risk_percent > 70 {
        "risk-high"@
    } else if risk_percent > 40 {
        "risk-med"@
    } else {
        "risk-low"@
    }
}

/// The escaped texts of a list.
pub open spec fn escaped_all(s: Seq<Seq<char>>) -> Seq<Seq<char>> {
    s.map_values(|t: Seq<char>| escaped(t))
}

/// The table row of a high-risk application.
pub open spec fn risk_row() -> spec_fn(RiskSummaryView) -> Seq<char> {
    |h: RiskSummaryView|
        "<tr><td>"@ + escaped(h.display_name) + "<br><small>"@ + escaped(h.app_id) + "</small></td><td class=\""@
            + risk_class(h.risk_percent) + "\">"@ + decimal(h.risk_percent as nat) + "%</td><td>"@ + join(
            escaped_all(h.high_risk_permissions),
            ", "@,
        ) + "</td><td>"@ + decimal(h.background_access_count as nat) + "</td><td>"@ + decimal(
            h.suspicious_connections as nat,
        ) + "</td></tr>\n"@
}

/// The table row of an unused application.
pub open spec fn unused_row() -> spec_fn(UnusedView) -> Seq<char> {
    |u: UnusedView|
        "<tr><td>"@ + escaped(u.display_name) + "<br><small>"@ + escaped(u.app_id) + "</small></td><td>"@
            + signed_decimal(u.days_inactive as int) + "</td><td>"@ + bytes_text(u.reclaimable_bytes as nat)
            + "</td></tr>\n"@
}

/// The badge class of a violation kind.
pub open spec fn badge_class(k: ViolationKind) -> Seq<char> {
    match k {
        ViolationKind::UnusedGrant => "badge-warn"@,
        ViolationKind::BackgroundAccess => "badge-danger"@,
    }
}

/// The table row of a permission violation.
pub open spec fn violation_row() -> spec_fn(PermissionViolationView) -> Seq<char> {
    |v: PermissionViolationView|
        "<tr><td>"@ + escaped(v.app_id) + "</td><td>"@ + escaped(v.permission) + "</td><td><span class=\"badge "@
            + badge_class(v.kind) + "\">"@ + kind_label(v.kind) + "</span></td></tr>\n"@
}

/// The table row of a network anomaly.
pub open spec fn anomaly_row() -> spec_fn(AnomalyView) -> Seq<char> {
    |a: AnomalyView|
        "<tr><td>"@ + escaped(a.app_id) + "</td><td>"@ + escaped(a.destination) + "</td><td>"@ + escaped(a.reason)
            + "</td></tr>\n"@
}

/// The list item of a recommendation.
pub open spec fn recommendation_item() -> spec_fn(Seq<char>) -> Seq<char> {
    |t: Seq<char>| "  <li>"@ + escaped(t) + "</li>\n"@
}

/// The HTML rendering of a report.
pub open spec fn html_report(r: AppGuardReport) -> Seq<char> {
    HTML_HEAD@ + "<h1>PlausiDen AppGuard Report</h1>\n<p class=\"meta\">Generated: "@ + instant_text(r.generated_at)
        + "</p>\n"@ + "<div>\n"@ + stat(decimal(r.total_apps as nat), "Apps Tracked"@) + stat(
        decimal(r.high_risk_apps@.len()),
        "High Risk"@,
    ) + stat(decimal(r.unused_apps@.len()), "Unused"@) + stat(decimal(r.permission_violations@.len()), "Violations"@)
        + stat(bytes_text(r.reclaimable_space_bytes as nat), "Reclaimable"@) + "</div>\n\n"@ + html_section(
        "high-risk"@,
        "High-Risk Applications"@,
        section_body(
            r.high_risk_apps@.len(),
            "No high-risk applications detected."@,
            "<table><tr><th>App</th><th>Risk</th><th>Permissions</th><th>Background</th><th>Suspicious</th></tr>\n"@,
            lines(risk_views(r.high_risk_apps@), risk_row()),
            "</table>\n"@,
        ),
    ) + html_section(
        "unused"@,
        "Unused Applications"@,
        section_body(
            r.unused_apps@.len(),
            "No unused applications detected."@,
            "<table><tr><th>App</th><th>Days Inactive</th><th>Reclaimable</th></tr>\n"@,
            lines(unused_views(r.unused_apps@), unused_row()),
            "</table>\n"@,
        ),
    ) + html_section(
        "violations"@,
        "Permission Violations"@,
        section_body(
            r.permission_violations@.len(),
            "No permission violations detected."@,
            "<table><tr><th>App</th><th>Permission</th><th>Kind</th></tr>\n"@,
            lines(violation_views(r.permission_violations@), violation_row()),
            "</table>\n"@,
        ),
    ) + html_section(
        "network"@,
        "Network Anomalies"@,
        section_body(
            r.network_anomalies@.len(),
            "No network anomalies detected."@,
            "<table><tr><th>App</th><th>Destination</th><th>Reason</th></tr>\n"@,
            lines(anomaly_views(r.network_anomalies@), anomaly_row()),
            "</table>\n"@,
        ),
    ) + html_section(
        "recommendations"@,
        "Recommendations"@,
        section_body(
            r.recommendations@.len(),
            "No recommendations at this time."@,
            "<ol class=\"recs\">\n"@,
            lines(texts(r.recommendations@), recommendation_item()),
            "</ol>\n"@,
        ),
    ) + "</body>\n</html>\n"@
}

fn push_stat(out: &mut String, num: &str, label: &str)
    ensures
        final(out)@ == old(out)@ + stat(num@, label@),
{
    out.append("  <span class=\"stat\"><span class=\"num\">");
    out.append(num);
    out.append("</span><span class=\"label\">");
    out.append(label);
    out.append("</span></span>\n");
}

fn join_escaped(v: &Vec<String>) -> (r: String)
    ensures
        r@ == join(escaped_all(texts(v@)), ", "@),
{
    let mut out = String::from_str("");
    proof {
        reveal_strlit("");
    }
    let mut i: usize = 0;
    while i < v.len()
        invariant
            i <= v@.len(),
            out@ == join(escaped_all(texts(v@.take(i as int))), ", "@),
        decreases v@.len() - i,
    {
        proof {
            assert(escaped_all(texts(v@.take(i + 1))).drop_last() =~= escaped_all(texts(v@.take(i as int))));
            assert(escaped_all(texts(v@.take(i + 1))).last() == escaped(v@[i as int]@));
            if i == 0 {
                assert(escaped_all(texts(v@.take(1)))[0] == escaped(v@[0]@));
            }
        }
        if i > 0 {
            out.append(", ");
        }
        let e = escape_html(v[i].as_str());
        out.append(e.as_str());
        i = i + 1;
    }
    assert(v@.take(v@.len() as int) =~= v@);
    out
}

fn risk_class_str(risk_percent: u64) -> (r: &'static str)
    ensures
        r@ == risk_class(risk_percent),
{
    if risk_percent > 70 {
        "risk-high"
    } else if risk_percent > 40 {
        "risk-med"
    } else {
        "risk-low"
    }
}

fn risk_row_of(h: &AppRiskSummary) -> (r: String)
    ensures
        r@ == risk_row()(h@),
{
    let mut t = String::from_str("<tr><td>");
    let n = escape_html(h.display_name.as_str());
    t.append(n.as_str());
    t.append("<br><small>");
    let a = escape_html(h.app_id.as_str());
    t.append(a.as_str());
    t.append("</small></td><td class=\"");
    t.append(risk_class_str(h.risk_percent));
    t.append("\">");
    let p = u64_to_decimal(h.risk_percent);
    t.append(p.as_str());
    t.append("%</td><td>");
    let j = join_escaped(&h.high_risk_permissions);
    t.append(j.as_str());
    t.append("</td><td>");
    let b = u64_to_decimal(h.background_access_count as u64);
    t.append(b.as_str());
    t.append("</td><td>");
    let c = u64_to_decimal(h.suspicious_connections as u64);
    t.append(c.as_str());
    t.append("</td></tr>\n");
    t
}

fn unused_row_of(u: &UnusedAppSummary) -> (r: String)
    ensures
        r@ == unused_row()(u@),
{
    let mut t = String::from_str("<tr><td>");
    let n = escape_html(u.display_name.as_str());
    t.append(n.as_str());
    t.append("<br><small>");
    let a = escape_html(u.app_id.as_str());
    t.append(a.as_str());
    t.append("</small></td><td>");
    let d = i64_to_decimal(u.days_inactive);
    t.append(d.as_str());
    t.append("</td><td>");
    let b = format_bytes(u.reclaimable_bytes);
    t.append(b.as_str());
    t.append("</td></tr>\n");
    t
}

fn badge_str(k: ViolationKind) -> (r: &'static str)
    ensures
        r@ == badge_class(k),
{
    match k {
        ViolationKind::UnusedGrant => "badge-warn",
        ViolationKind::BackgroundAccess => "badge-danger",
    }
}

fn violation_row_of(v: &PermissionViolation) -> (r: String)
    ensures
        r@ == violation_row()(v@),
{
    let mut t = String::from_str("<tr><td>");
    let a = escape_html(v.app_id.as_str());
    t.append(a.as_str());
    t.append("</td><td>");
    let p = escape_html(v.permission.as_str());
    t.append(p.as_str());
    t.append("</td><td><span class=\"badge ");
    t.append(badge_str(v.kind));
    t.append("\">");
    t.append(kind_str(v.kind));
    t.append("</span></td></tr>\n");
    t
}

fn anomaly_row_of(x: &NetworkAnomaly) -> (r: String)
    ensures
        r@ == anomaly_row()(x@),
{
    let mut t = String::from_str("<tr><td>");
    let a = escape_html(x.app_id.as_str());
    t.append(a.as_str());
    t.append("</td><td>");
    let d = escape_html(x.destination.as_str());
    t.append(d.as_str());
    t.append("</td><td>");
    let r = escape_html(x.reason.as_str());
    t.append(r.as_str());
    t.append("</td></tr>\n");
    t
}

fn push_section_start(out: &mut String, id: &str, title: &str)
    ensures
        final(out)@ == old(out)@ + "<section id=\""@ + id@ + "\">\n<h2>"@ + title@ + "</h2>\n"@,
{
    out.append("<section id=\"");
    out.append(id);
    out.append("\">\n<h2>");
    out.append(title);
    out.append("</h2>\n");
}

fn push_note(out: &mut String, note: &str)
    ensures
        final(out)@ == old(out)@ + "<p class=\"empty\">"@ + note@ + "</p>\n"@,
{
    out.append("<p class=\"empty\">");
    out.append(note);
    out.append("</p>\n");
}

impl AppGuardReport {
    fn html_risk_rows(&self, out: &mut String)
        ensures
            final(out)@ == old(out)@ + lines(risk_views(self.high_risk_apps@), risk_row()),
    {
        let ghost start = out@;
        let ghost vs = risk_views(self.high_risk_apps@);
        let mut i: usize = 0;
        assert(vs.take(0) =~= Seq::<RiskSummaryView>::empty());
        while i < self.high_risk_apps.len()
            invariant
                i <= self.high_risk_apps@.len(),
                vs == risk_views(self.high_risk_apps@),
                out@ == start + lines(vs.take(i as int), risk_row()),
            decreases self.high_risk_apps@.len() - i,
        {
            proof {
                lemma_lines_push(vs, i as int, risk_row());
            }
            let e = risk_row_of(&self.high_risk_apps[i]);
            out.append(e.as_str());
            assert(out@ =~= start + lines(vs.take(i + 1), risk_row()));
            i = i + 1;
        }
        assert(vs.take(vs.len() as int) =~= vs);
    }

    fn html_unused_rows(&self, out: &mut String)
        ensures
            final(out)@ == old(out)@ + lines(unused_views(self.unused_apps@), unused_row()),
    {
        let ghost start = out@;
        let ghost vs = unused_views(self.unused_apps@);
        let mut i: usize = 0;
        assert(vs.take(0) =~= Seq::<UnusedView>::empty());
        while i < self.unused_apps.len()
            invariant
                i <= self.unused_apps@.len(),
                vs == unused_views(self.unused_apps@),
                out@ == start + lines(vs.take(i as int), unused_row()),
            decreases self.unused_apps@.len() - i,
        {
            proof {
                lemma_lines_push(vs, i as int, unused_row());
            }
            let e = unused_row_of(&self.unused_apps[i]);
            out.append(e.as_str());
            assert(out@ =~= start + lines(vs.take(i + 1), unused_row()));
            i = i + 1;
        }
        assert(vs.take(vs.len() as int) =~= vs);
    }

    fn html_violation_rows(&self, out: &mut String)
        ensures
            final(out)@ == old(out)@ + lines(violation_views(self.permission_violations@), violation_row()),
    {
        let ghost start = out@;
        let ghost vs = violation_views(self.permission_violations@);
        let mut i: usize = 0;
        assert(vs.take(0) =~= Seq::<PermissionViolationView>::empty());
        while i < self.permission_violations.len()
            invariant
                i <= self.permission_violations@.len(),
                vs == violation_views(self.permission_violations@),
                out@ == start + lines(vs.take(i as int), violation_row()),
            decreases self.permission_violations@.len() - i,
        {
            proof {
                lemma_lines_push(vs, i as int, violation_row());
            }
            let e = violation_row_of(&self.permission_violations[i]);
            out.append(e.as_str());
            assert(out@ =~= start + lines(vs.take(i + 1), violation_row()));
            i = i + 1;
        }
        assert(vs.take(vs.len() as int) =~= vs);
    }

    fn html_anomaly_rows(&self, out: &mut String)
        ensures
            final(out)@ == old(out)@ + lines(anomaly_views(self.network_anomalies@), anomaly_row()),
    {
        let ghost start = out@;
        let ghost vs = anomaly_views(self.network_anomalies@);
        let mut i: usize = 0;
        assert(vs.take(0) =~= Seq::<AnomalyView>::empty());
        while i < self.network_anomalies.len()
            invariant
                i <= self.network_anomalies@.len(),
                vs == anomaly_views(self.network_anomalies@),
                out@ == start + lines(vs.take(i as int), anomaly_row()),
            decreases self.network_anomalies@.len() - i,
        {
            proof {
                lemma_lines_push(vs, i as int, anomaly_row());
            }
            let e = anomaly_row_of(&self.network_anomalies[i]);
            out.append(e.as_str());
            assert(out@ =~= start + lines(vs.take(i + 1), anomaly_row()));
            i = i + 1;
        }
        assert(vs.take(vs.len() as int) =~= vs);
    }

    fn html_recommendation_items(&self, out: &mut String)
        ensures
            final(out)@ == old(out)@ + lines(texts(self.recommendations@), recommendation_item()),
    {
        let ghost start = out@;
        let ghost vs = texts(self.recommendations@);
        let mut i: usize = 0;
        assert(vs.take(0) =~= Seq::<Seq<char>>::empty());
        while i < self.recommendations.len()
            invariant
                i <= self.recommendations@.len(),
                vs == texts(self.recommendations@),
                out@ == start + lines(vs.take(i as int), recommendation_item()),
            decreases self.recommendations@.len() - i,
        {
            proof {
                lemma_lines_push(vs, i as int, recommendation_item());
                assert(vs[i as int] == self.recommendations@[i as int]@);
            }
            out.append("  <li>");
            let e = escape_html(self.recommendations[i].as_str());
            out.append(e.as_str());
            out.append("</li>\n");
            assert(out@ =~= start + lines(vs.take(i + 1), recommendation_item()));
            i = i + 1;
        }
        assert(vs.take(vs.len() as int) =~= vs);
    }

    fn html_head_and_stats(&self, out: &mut String)
        ensures
            final(out)@ == old(out)@ + HTML_HEAD@ + "<h1>PlausiDen AppGuard Report</h1>\n<p class=\"meta\">Generated: "@
                + instant_text(self.generated_at) + "</p>\n"@ + "<div>\n"@ + stat(decimal(self.total_apps as nat), "Apps Tracked"@)
                + stat(decimal(self.high_risk_apps@.len()), "High Risk"@) + stat(decimal(self.unused_apps@.len()), "Unused"@)
                + stat(decimal(self.permission_violations@.len()), "Violations"@) + stat(
                bytes_text(self.reclaimable_space_bytes as nat),
                "Reclaimable"@,
            ) + "</div>\n\n"@,
    {
        let ghost start = out@;
        out.append(HTML_HEAD);
        out.append("<h1>PlausiDen AppGuard Report</h1>\n<p class=\"meta\">Generated: ");
        let date = format_instant(self.generated_at);
        out.append(date.as_str());
        out.append("</p>\n");
        out.append("<div>\n");
        let n = u64_to_decimal(self.total_apps as u64);
        push_stat(out, n.as_str(), "Apps Tracked");
        let h = u64_to_decimal(self.high_risk_apps.len() as u64);
        push_stat(out, h.as_str(), "High Risk");
        let u = u64_to_decimal(self.unused_apps.len() as u64);
        push_stat(out, u.as_str(), "Unused");
        let v = u64_to_decimal(self.permission_violations.len() as u64);
        push_stat(out, v.as_str(), "Violations");
        let b = format_bytes(self.reclaimable_space_bytes);
        push_stat(out, b.as_str(), "Reclaimable");
        out.append("</div>\n\n");
    }

    fn html_high_risk_section(&self, out: &mut String)
        ensures
            final(out)@ == old(out)@ + html_section(
                "high-risk"@,
                "High-Risk Applications"@,
                section_body(
                    self.high_risk_apps@.len(),
                    "No high-risk applications detected."@,
                    "<table><tr><th>App</th><th>Risk</th><th>Permissions</th><th>Background</th><th>Suspicious</th></tr>\n"@,
                    lines(risk_views(self.high_risk_apps@), risk_row()),
                    "</table>\n"@,
                ),
            ),
    {
        let ghost start = out@;
        push_section_start(out, "high-risk", "High-Risk Applications");
        if self.high_risk_apps.len() == 0 {
            push_note(out, "No high-risk applications detected.");
        } else {
            out.append("<table><tr><th>App</th><th>Risk</th><th>Permissions</th><th>Background</th><th>Suspicious</th></tr>\n");
            self.html_risk_rows(out);
            out.append("</table>\n");
        }
        out.append("</section>\n\n");
        assert(out@ =~= start + html_section(
            "high-risk"@,
            "High-Risk Applications"@,
            section_body(
                self.high_risk_apps@.len(),
                "No high-risk applications detected."@,
                "<table><tr><th>App</th><th>Risk</th><th>Permissions</th><th>Background</th><th>Suspicious</th></tr>\n"@,
                lines(risk_views(self.high_risk_apps@), risk_row()),
                "</table>\n"@,
            ),
        ));
    }

    fn html_unused_section(&self, out: &mut String)
        ensures
            final(out)@ == old(out)@ + html_section(
                "unused"@,
                "Unused Applications"@,
                section_body(
                    self.unused_apps@.len(),
                    "No unused applications detected."@,
                    "<table><tr><th>App</th><th>Days Inactive</th><th>Reclaimable</th></tr>\n"@,
                    lines(unused_views(self.unused_apps@), unused_row()),
                    "</table>\n"@,
                ),
            ),
    {
        let ghost start = out@;
        push_section_start(out, "unused", "Unused Applications");
        if self.unused_apps.len() == 0 {
            push_note(out, "No unused applications detected.");
        } else {
            out.append("<table><tr><th>App</th><th>Days Inactive</th><th>Reclaimable</th></tr>\n");
            self.html_unused_rows(out);
            out.append("</table>\n");
        }
        out.append("</section>\n\n");
        assert(out@ =~= start + html_section(
            "unused"@,
            "Unused Applications"@,
            section_body(
                self.unused_apps@.len(),
                "No unused applications detected."@,
                "<table><tr><th>App</th><th>Days Inactive</th><th>Reclaimable</th></tr>\n"@,
                lines(unused_views(self.unused_apps@), unused_row()),
                "</table>\n"@,
            ),
        ));
    }

    fn html_violations_section(&self, out: &mut String)
        ensures
            final(out)@ == old(out)@ + html_section(
                "violations"@,
                "Permission Violations"@,
                section_body(
                    self.permission_violations@.len(),
                    "No permission violations detected."@,
                    "<table><tr><th>App</th><th>Permission</th><th>Kind</th></tr>\n"@,
                    lines(violation_views(self.permission_violations@), violation_row()),
                    "</table>\n"@,
                ),
            ),
    {
        let ghost start = out@;
        push_section_start(out, "violations", "Permission Violations");
        if self.permission_violations.len() == 0 {
            push_note(out, "No permission violations detected.");
        } else {
            out.append("<table><tr><th>App</th><th>Permission</th><th>Kind</th></tr>\n");
            self.html_violation_rows(out);
            out.append("</table>\n");
        }
        out.append("</section>\n\n");
        assert(out@ =~= start + html_section(
            "violations"@,
            "Permission Violations"@,
            section_body(
                self.permission_violations@.len(),
                "No permission violations detected."@,
                "<table><tr><th>App</th><th>Permission</th><th>Kind</th></tr>\n"@,
                lines(violation_views(self.permission_violations@), violation_row()),
                "</table>\n"@,
            ),
        ));
    }

    fn html_network_section(&self, out: &mut String)
        ensures
            final(out)@ == old(out)@ + html_section(
                "network"@,
                "Network Anomalies"@,
                section_body(
                    self.network_anomalies@.len(),
                    "No network anomalies detected."@,
                    "<table><tr><th>App</th><th>Destination</th><th>Reason</th></tr>\n"@,
                    lines(anomaly_views(self.network_anomalies@), anomaly_row()),
                    "</table>\n"@,
                ),
            ),
    {
        let ghost start = out@;
        push_section_start(out, "network", "Network Anomalies");
        if self.network_anomalies.len() == 0 {
            push_note(out, "No network anomalies detected.");
        } else {
            out.append("<table><tr><th>App</th><th>Destination</th><th>Reason</th></tr>\n");
            self.html_anomaly_rows(out);
            out.append("</table>\n");
        }
        out.append("</section>\n\n");
        assert(out@ =~= start + html_section(
            "network"@,
            "Network Anomalies"@,
            section_body(
                self.network_anomalies@.len(),
                "No network anomalies detected."@,
                "<table><tr><th>App</th><th>Destination</th><th>Reason</th></tr>\n"@,
                lines(anomaly_views(self.network_anomalies@), anomaly_row()),
                "</table>\n"@,
            ),
        ));
    }

    fn html_recommendations_section(&self, out: &mut String)
        ensures
            final(out)@ == old(out)@ + html_section(
                "recommendations"@,
                "Recommendations"@,
                section_body(
                    self.recommendations@.len(),
                    "No recommendations at this time."@,
                    "<ol class=\"recs\">\n"@,
                    lines(texts(self.recommendations@), recommendation_item()),
                    "</ol>\n"@,
                ),
            ),
    {
        let ghost start = out@;
        push_section_start(out, "recommendations", "Recommendations");
        if self.recommendations.len() == 0 {
            push_note(out, "No recommendations at this time.");
        } else {
            out.append("<ol class=\"recs\">\n");
            self.html_recommendation_items(out);
            out.append("</ol>\n");
        }
        out.append("</section>\n\n");
        assert(out@ =~= start + html_section(
            "recommendations"@,
            "Recommendations"@,
            section_body(
                self.recommendations@.len(),
                "No recommendations at this time."@,
                "<ol class=\"recs\">\n"@,
                lines(texts(self.recommendations@), recommendation_item()),
                "</ol>\n"@,
            ),
        ));
    }

    /// Render a standalone HTML report with inline CSS.
    pub fn render_html(&self) -> (r: String)
        ensures
            r@ == html_report(*self),
    {
        let mut html = String::from_str("");
        proof {
            reveal_strlit("");
        }
        self.html_head_and_stats(&mut html);
        self.html_high_risk_section(&mut html);
        self.html_unused_section(&mut html);
        self.html_violations_section(&mut html);
        self.html_network_section(&mut html);
        self.html_recommendations_section(&mut html);
        html.append("</body>\n</html>\n");
        assert(html@ =~= html_report(*self));
        html
    }
}

} // verus!
