//! Sandbox evaluator — score application sandboxing effectiveness.

use vstd::prelude::*;
use crate::tally::{first_keys, key_total, is_count_tally, count_add, all_ones};

verus! {

/// Sandbox mechanism being used by an application.
#[derive(Debug, Clone, Copy, PartialEq, Eq, Hash, Structural)]
pub enum SandboxKind {
    NoSandbox,
    Flatpak,
    Snap,
    AppImage,
    Firejail,
    Bubblewrap,
    Docker,
    AppArmor,
    Selinux,
    Seccomp,
    Namespaces,
}

/// Letter grade of a sandbox score.
#[derive(Debug, Clone, Copy, PartialEq, Eq, Structural)]
pub enum Grade {
    /// 85 and up.
    A,
    /// 70 to 84.
    B,
    /// 55 to 69.
    C,
    /// 40 to 54.
    D,
    /// Below 40.
    F,
}

/// The grade of a score.
pub open spec fn grade_for(score: int) -> Grade {
    if score >= 85 {
        Grade::A
    } else if score >= 70 {
        Grade::B
    } else if score >= 55 {
        Grade::C
    } else if score >= 40 {
        Grade::D
    } else {
        Grade::F
    }
}

/// The name of a grade, as `{:?}` prints it.
pub open spec fn grade_name(g: Grade) -> Seq<char> {
    match g {
        Grade::A => "A"@,
        Grade::B => "B"@,
        Grade::C => "C"@,
        Grade::D => "D"@,
        Grade::F => "F"@,
    }
}

impl Grade {
    pub fn from_score(score: u8) -> (g: Self)
        ensures
            g == grade_for(score as int),
    {
        if score >= 85 {
            Grade::A
        } else if score >= 70 {
            Grade::B
        } else if score >= 55 {
            Grade::C
        } else if score >= 40 {
            Grade::D
        } else {
            Grade::F
        }
    }

    /// The name of the grade.
    pub fn name(&self) -> (s: &'static str)
        ensures
            s@ == grade_name(*self),
    {
        match self {
            Grade::A => "A",
            Grade::B => "B",
            Grade::C => "C",
            Grade::D => "D",
            Grade::F => "F",
        }
    }
}

/// Evaluated sandbox report for an application.
#[derive(Debug, Clone)]
pub struct SandboxReport {
    pub app_id: String,
    pub mechanisms: Vec<SandboxKind>,
    pub has_network: bool,
    pub has_filesystem_access: bool,
    pub has_device_access: bool,
    pub has_dbus_system: bool,
    /// Score from 0 to 100.
    pub score: u8,
    pub grade: Grade,
    pub warnings: Vec<String>,
}

/// Permissions an app has requested.
#[derive(Debug, Clone, Copy)]
pub struct AppPermissions {
    pub network: bool,
    pub filesystem: bool,
    pub devices: bool,
    pub dbus_system: bool,
    pub x11_display: bool,
    pub pulseaudio: bool,
}

impl Default for AppPermissions {
    fn default() -> (r: Self)
        ensures
            !r.network && !r.filesystem && !r.devices && !r.dbus_system && !r.x11_display
                && !r.pulseaudio,
    {
        AppPermissions {
            network: false,
            filesystem: false,
            devices: false,
            dbus_system: false,
            x11_display: false,
            pulseaudio: false,
        }
    }
}

/// Sandbox evaluator.
pub struct SandboxEvaluator;

/// The base score of a single mechanism.
pub open spec fn base_score(kind: SandboxKind) -> int {
    match kind {
        SandboxKind::NoSandbox => 0,
        SandboxKind::AppImage => 10,
        SandboxKind::AppArmor => 40,
        SandboxKind::Selinux => 45,
        SandboxKind::Seccomp => 30,
        SandboxKind::Namespaces => 40,
        SandboxKind::Firejail => 55,
        SandboxKind::Snap => 65,
        SandboxKind::Flatpak => 70,
        SandboxKind::Bubblewrap => 75,
        SandboxKind::Docker => 60,
    }
}

pub fn mechanism_base_score(kind: &SandboxKind) -> (r: i32)
    ensures
        r == base_score(*kind),
{
    match kind {
        SandboxKind::NoSandbox => 0,
        SandboxKind::AppImage => 10,
        SandboxKind::AppArmor => 40,
        SandboxKind::Selinux => 45,
        SandboxKind::Seccomp => 30,
        SandboxKind::Namespaces => 40,
        SandboxKind::Firejail => 55,
        SandboxKind::Snap => 65,
        SandboxKind::Flatpak => 70,
        SandboxKind::Bubblewrap => 75,
        SandboxKind::Docker => 60,
    }
}

/// The highest base score among the mechanisms, 0 when there are none.
pub open spec fn max_base(s: Seq<SandboxKind>) -> int
    decreases s.len(),
{
    if s.len() == 0 {
        0
    } else {
        let m = max_base(s.drop_last());
        let b = base_score(s.last());
        if b > m { b } else { m }
    }
}

/// The number of distinct mechanisms in `s`.
#[verifier::opaque]
pub open spec fn distinct_kinds(s: Seq<SandboxKind>) -> int {
    (if s.contains(SandboxKind::NoSandbox) { 1int } else { 0 })
        + (if s.contains(SandboxKind::Flatpak) { 1int } else { 0 })
        + (if s.contains(SandboxKind::Snap) { 1int } else { 0 })
        + (if s.contains(SandboxKind::AppImage) { 1int } else { 0 })
        + (if s.contains(SandboxKind::Firejail) { 1int } else { 0 })
        + (if s.contains(SandboxKind::Bubblewrap) { 1int } else { 0 })
        + (if s.contains(SandboxKind::Docker) { 1int } else { 0 })
        + (if s.contains(SandboxKind::AppArmor) { 1int } else { 0 })
        + (if s.contains(SandboxKind::Selinux) { 1int } else { 0 })
        + (if s.contains(SandboxKind::Seccomp) { 1int } else { 0 })
        + (if s.contains(SandboxKind::Namespaces) { 1int } else { 0 })
}

/// The score before clamping: strongest mechanism, layering bonuses and
/// permission penalties.
pub open spec fn raw_sandbox_score(s: Seq<SandboxKind>, p: AppPermissions) -> int {
    max_base(s) + (if distinct_kinds(s) >= 2 { 10int } else { 0 }) + (if distinct_kinds(s) >= 3 {
        5int
    } else {
        0
    }) - (if p.network { 5int } else { 0 }) - (if p.filesystem { 10int } else { 0 }) - (
    if p.devices {
        10int
    } else {
        0
    }) - (if p.dbus_system { 15int } else { 0 }) - (if p.x11_display { 5int } else { 0 })
}

/// The score clamped to 0..=100.
pub open spec fn sandbox_score(s: Seq<SandboxKind>, p: AppPermissions) -> int {
    let r = raw_sandbox_score(s, p);
    if r < 0 {
        0
    } else if r > 100 {
        100
    } else {
        r
    }
}

/// `s` followed by `m` when `c` holds.
pub open spec fn push_if(s: Seq<Seq<char>>, c: bool, m: Seq<char>) -> Seq<Seq<char>> {
    if c { s.push(m) } else { s }
}

/// The application runs without a sandbox: no mechanism, or only `None`.
pub open spec fn unsandboxed(s: Seq<SandboxKind>) -> bool {
    s.len() == 0 || (s.len() == 1 && s[0] == SandboxKind::NoSandbox)
}

/// The warnings of an evaluation, in order.
pub open spec fn sandbox_warnings(s: Seq<SandboxKind>, p: AppPermissions) -> Seq<Seq<char>> {
    let w1 = push_if(Seq::empty(), p.network, "network access granted"@);
    let w2 = push_if(w1, p.filesystem, "broad filesystem access granted"@);
    let w3 = push_if(w2, p.devices, "device access granted"@);
    let w4 = push_if(w3, p.dbus_system, "system dbus access granted (privilege risk)"@);
    let w5 = push_if(w4, p.x11_display, "X11 display allows keylogging of other windows"@);
    push_if(w5, unsandboxed(s), "application runs without any sandbox"@)
}

/// The characters of each string of a sequence.
pub open spec fn strings_view(v: Seq<String>) -> Seq<Seq<char>> {
    v.map_values(|s: String| s@)
}

fn push_line_if(v: &mut Vec<String>, c: bool, s: &str)
    ensures
        strings_view(final(v)@) == push_if(strings_view(old(v)@), c, s@),
{
    if c {
        v.push(String::from_str(s));
        proof {
            assert(strings_view(v@) =~= strings_view(old(v)@).push(s@));
        }
    }
}

fn contains_kind(s: &[SandboxKind], k: SandboxKind) -> (r: bool)
    ensures
        r == s@.contains(k),
{
    let mut i: usize = 0;
    while i < s.len()
        invariant
            i <= s@.len(),
            forall|j: int| 0 <= j < i ==> s@[j] != k,
        decreases s@.len() - i,
    {
        if s[i] == k {
            return true;
        }
        i = i + 1;
    }
    false
}

fn one_if(c: bool) -> (r: i32)
    ensures
        r == (if c { 1int } else { 0 }),
{
    if c { 1 } else { 0 }
}

fn count_distinct(s: &[SandboxKind]) -> (r: i32)
    ensures
        r == distinct_kinds(s@),
        0 <= r <= 11,
{
    reveal(distinct_kinds);
    one_if(contains_kind(s, SandboxKind::NoSandbox)) + one_if(contains_kind(s, SandboxKind::Flatpak))
        + one_if(contains_kind(s, SandboxKind::Snap)) + one_if(
        contains_kind(s, SandboxKind::AppImage),
    ) + one_if(contains_kind(s, SandboxKind::Firejail)) + one_if(
        contains_kind(s, SandboxKind::Bubblewrap),
    ) + one_if(contains_kind(s, SandboxKind::Docker)) + one_if(
        contains_kind(s, SandboxKind::AppArmor),
    ) + one_if(contains_kind(s, SandboxKind::Selinux)) + one_if(
        contains_kind(s, SandboxKind::Seccomp),
    ) + one_if(contains_kind(s, SandboxKind::Namespaces))
}

proof fn lemma_max_base_bounds(s: Seq<SandboxKind>)
    ensures
        0 <= max_base(s) <= 75,
    decreases s.len(),
{
    if s.len() > 0 {
        lemma_max_base_bounds(s.drop_last());
    }
}

fn strongest_base(s: &[SandboxKind]) -> (r: i32)
    ensures
        r == max_base(s@),
{
    let mut m: i32 = 0;
    let mut i: usize = 0;
    while i < s.len()
        invariant
            i <= s@.len(),
            m == max_base(s@.take(i as int)),
        decreases s@.len() - i,
    {
        proof {
            assert(s@.take(i + 1).drop_last() =~= s@.take(i as int));
            lemma_max_base_bounds(s@.take(i as int));
        }
        let b = mechanism_base_score(&s[i]);
        if b > m {
            m = b;
        }
        i = i + 1;
    }
    assert(s@.take(s@.len() as int) =~= s@);
    m
}

fn warnings_for(mechanisms: &[SandboxKind], perms: &AppPermissions) -> (r: Vec<String>)
    ensures
        strings_view(r@) == sandbox_warnings(mechanisms@, *perms),
{
    let mut w: Vec<String> = Vec::new();
    proof {
        assert(strings_view(w@) =~= Seq::empty());
    }
    push_line_if(&mut w, perms.network, "network access granted");
    push_line_if(&mut w, perms.filesystem, "broad filesystem access granted");
    push_line_if(&mut w, perms.devices, "device access granted");
    push_line_if(&mut w, perms.dbus_system, "system dbus access granted (privilege risk)");
    push_line_if(&mut w, perms.x11_display, "X11 display allows keylogging of other windows");
    let none_only = mechanisms.len() == 0 || (mechanisms.len() == 1 && mechanisms[0]
        == SandboxKind::NoSandbox);
    push_line_if(&mut w, none_only, "application runs without any sandbox");
    w
}

fn penalty(c: bool, p: i32) -> (r: i32)
    ensures
        r == (if c { p as int } else { 0 }),
{
    if c { p } else { 0 }
}

fn slice_to_vec(s: &[SandboxKind]) -> (r: Vec<SandboxKind>)
    ensures
        r@ == s@,
{
    let mut v: Vec<SandboxKind> = Vec::new();
    let mut i: usize = 0;
    while i < s.len()
        invariant
            i <= s@.len(),
            v@ == s@.take(i as int),
        decreases s@.len() - i,
    {
        v.push(s[i]);
        assert(v@ =~= s@.take(i + 1));
        i = i + 1;
    }
    assert(s@.take(s@.len() as int) =~= s@);
    v
}

/// `perm` lists every index of `n` items exactly once, ordered by score
/// and, among equal scores, by index.
pub open spec fn is_rank_order(scores: Seq<int>, perm: Seq<int>) -> bool {
    &&& perm.len() == scores.len()
    &&& forall|i: int| 0 <= i < perm.len() ==> 0 <= #[trigger] perm[i] < scores.len()
    &&& forall|a: int, b: int|
        0 <= a < b < perm.len() ==> scores[perm[a]] < scores[perm[b]] || (scores[perm[a]]
            == scores[perm[b]] && perm[a] < perm[b])
}

/// The scores of a list of reports.
pub open spec fn report_scores(reports: Seq<SandboxReport>) -> Seq<int> {
    reports.map_values(|r: SandboxReport| r.score as int)
}

/// The `(grade name, 1)` pairs of a list of reports.
pub open spec fn grade_pairs(reports: Seq<SandboxReport>) -> Seq<(Seq<char>, int)> {
    reports.map_values(|r: SandboxReport| (grade_name(r.grade), 1int))
}

fn clamped_score(mechanisms: &[SandboxKind], perms: &AppPermissions) -> (r: u8)
    ensures
        r == sandbox_score(mechanisms@, *perms),
{
    proof {
        lemma_max_base_bounds(mechanisms@);
    }
    let base = strongest_base(mechanisms);
    let unique = count_distinct(mechanisms);
    let bonus2: i32 = if unique >= 2 { 10 } else { 0 };
    let bonus3: i32 = if unique >= 3 { 5 } else { 0 };
    let pen: i32 = penalty(perms.network, 5) + penalty(perms.filesystem, 10) + penalty(
        perms.devices,
        10,
    ) + penalty(perms.dbus_system, 15) + penalty(perms.x11_display, 5);
    let score: i32 = base + bonus2 + bonus3 - pen;
    assert(score == raw_sandbox_score(mechanisms@, *perms));
    if score < 0 {
        0
    } else if score > 100 {
        100
    } else {
        score as u8
    }
}

impl SandboxEvaluator {
    pub fn new() -> (r: Self) {
        SandboxEvaluator
    }

    /// Evaluate an application's sandbox configuration.
    pub fn evaluate(&self, app_id: &str, mechanisms: &[SandboxKind], perms: &AppPermissions) -> (r:
        SandboxReport)
        ensures
            r.app_id@ == app_id@,
            r.mechanisms@ == mechanisms@,
            r.has_network == perms.network,
            r.has_filesystem_access == perms.filesystem,
            r.has_device_access == perms.devices,
            r.has_dbus_system == perms.dbus_system,
            r.score == sandbox_score(mechanisms@, *perms),
            r.grade == grade_for(r.score as int),
            strings_view(r.warnings@) == sandbox_warnings(mechanisms@, *perms),
    {
        let clamped = clamped_score(mechanisms, perms);
        let warnings = warnings_for(mechanisms, perms);
        SandboxReport {
            app_id: String::from_str(app_id),
            mechanisms: slice_to_vec(mechanisms),
            has_network: perms.network,
            has_filesystem_access: perms.filesystem,
            has_device_access: perms.devices,
            has_dbus_system: perms.dbus_system,
            score: clamped,
            grade: Grade::from_score(clamped),
            warnings,
        }
    }

    /// Rank multiple applications by sandbox score (worst first); reports
    /// with equal scores keep their order.
    pub fn rank_worst(&self, reports: &[SandboxReport]) -> (r: Vec<String>)
        ensures
            exists|perm: Seq<int>|
                is_rank_order(report_scores(reports@), perm) && r@.len() == perm.len() && forall|
                    i: int,
                | 0 <= i < perm.len() ==> (#[trigger] r@[i])@ == reports@[perm[i]].app_id@,
    {
        let ghost scores = report_scores(reports@);
        let mut order: Vec<usize> = Vec::new();
        let mut i: usize = 0;
        while i < reports.len()
            invariant
                i <= reports@.len(),
                scores == report_scores(reports@),
                order@.len() == i,
                forall|a: int| 0 <= a < order@.len() ==> #[trigger] order@[a] < i,
                forall|a: int, b: int|
                    0 <= a < b < order@.len() ==> scores[order@[a] as int] < scores[order@[b] as int]
                        || (scores[order@[a] as int] == scores[order@[b] as int] && order@[a] < order@[b]),
            decreases reports@.len() - i,
        {
            let s = reports[i].score;
            let mut p: usize = 0;
            while p < order.len() && reports[order[p]].score <= s
                invariant
                    p <= order@.len(),
                    i < reports@.len(),
                    s == reports@[i as int].score,
                    scores == report_scores(reports@),
                    forall|a: int| 0 <= a < order@.len() ==> #[trigger] order@[a] < i,
                    forall|a: int| 0 <= a < p ==> scores[order@[a] as int] <= s,
                    forall|a: int, b: int|
                        0 <= a < b < order@.len() ==> scores[order@[a] as int] < scores[order@[b] as int]
                            || (scores[order@[a] as int] == scores[order@[b] as int] && order@[a] < order@[b]),
                decreases order@.len() - p,
            {
                p = p + 1;
            }
            let ghost before = order@;
            order.insert(p, i);
            proof {
                assert(order@ =~= before.insert(p as int, i));
                assert forall|a: int| 0 <= a < order@.len() implies #[trigger] order@[a] < i + 1 by {
                    if a < p {
                        assert(order@[a] == before[a]);
                    } else if a > p {
                        assert(order@[a] == before[a - 1]);
                    }
                }
                assert forall|a: int, b: int|
                    0 <= a < b < order@.len() implies scores[order@[a] as int] < scores[order@[b] as int]
                        || (scores[order@[a] as int] == scores[order@[b] as int] && order@[a] < order@[b]) by {
                    if b < p {
                        assert(order@[a] == before[a] && order@[b] == before[b]);
                    } else if b == p {
                        assert(order@[a] == before[a]);
                        assert(scores[before[a] as int] <= s);
                    } else if a == p {
                        assert(order@[b] == before[b - 1]);
                        assert(scores[before[b - 1] as int] > s) by {
                            if p < before.len() {
                                assert(scores[before[p as int] as int] > s);
                                if b - 1 > p {
                                    assert(scores[before[p as int] as int] <= scores[before[b - 1] as int]);
                                }
                            }
                        }
                    } else if a < p {
                        assert(order@[a] == before[a] && order@[b] == before[b - 1]);
                    } else {
                        assert(order@[a] == before[a - 1] && order@[b] == before[b - 1]);
                    }
                }
            }
            i = i + 1;
        }
        let mut r: Vec<String> = Vec::new();
        let mut k: usize = 0;
        while k < order.len()
            invariant
                k <= order@.len(),
                order@.len() == reports@.len(),
                forall|a: int| 0 <= a < order@.len() ==> #[trigger] order@[a] < reports@.len(),
                r@.len() == k,
                forall|a: int| 0 <= a < k ==> (#[trigger] r@[a])@ == reports@[order@[a] as int].app_id@,
            decreases order@.len() - k,
        {
            r.push(reports[order[k]].app_id.clone());
            k = k + 1;
        }
        let ghost perm = order@.map_values(|x: usize| x as int);
        assert(is_rank_order(scores, perm));
        assert(forall|a: int| 0 <= a < perm.len() ==> (#[trigger] r@[a])@ == reports@[perm[a]].app_id@);
        r
    }

    /// Count reports by grade: one row per grade that occurs, named as
    /// `{:?}` prints it, in order of first occurrence.
    pub fn grade_distribution(&self, reports: &[SandboxReport]) -> (r: Vec<(String, usize)>)
        ensures
            is_count_tally(grade_pairs(reports@), r@),
    {
        let ghost pairs = grade_pairs(reports@);
        let mut t: Vec<(String, usize)> = Vec::new();
        let mut i: usize = 0;
        while i < reports.len()
            invariant
                i <= reports@.len(),
                pairs == grade_pairs(reports@),
                is_count_tally(pairs.take(i as int), t@),
            decreases reports@.len() - i,
        {
            proof {
                assert(pairs.take(i + 1) =~= pairs.take(i as int).push((grade_name(reports@[i as int].grade), 1)));
                assert(all_ones(pairs.take(i as int)));
            }
            count_add(&mut t, reports[i].grade.name(), Ghost(pairs.take(i as int)));
            i = i + 1;
        }
        assert(pairs.take(reports@.len() as int) =~= pairs);
        t
    }
}

impl Default for SandboxEvaluator {
    fn default() -> (r: Self) {
        SandboxEvaluator
    }
}

} // verus!

verus! {

/// The points that broad permissions take off a score: network 5, file
/// system 10, devices 10, system D-Bus 15, X11 display 5.
pub open spec fn permission_penalty(p: AppPermissions) -> int {
    (if p.network { 5int } else { 0 }) + (if p.filesystem { 10int } else { 0 }) + (if p.devices { 10int } else { 0 })
        + (if p.dbus_system { 15int } else { 0 }) + (if p.x11_display { 5int } else { 0 })
}

/// The points that layered mechanisms add: 10 for two distinct ones, 5
/// more for three or more.
pub open spec fn layering_bonus(s: Seq<SandboxKind>) -> int {
    (if distinct_kinds(s) >= 2 { 10int } else { 0 }) + (if distinct_kinds(s) >= 3 { 5int } else { 0 })
}

/// `x` held to 0..=100.
pub open spec fn clamp_percent(x: int) -> int {
    if x < 0 {
        0
    } else if x > 100 {
        100
    } else {
        x
    }
}

/// Every mechanism's base is at most the strongest, and some mechanism
/// (when there is one) has exactly the strongest base.
proof fn lemma_max_base(s: Seq<SandboxKind>)
    ensures
        max_base(s) >= 0,
        forall|i: int| 0 <= i < s.len() ==> max_base(s) >= base_score(#[trigger] s[i]),
        s.len() == 0 ==> max_base(s) == 0,
        s.len() > 0 ==> exists|i: int| 0 <= i < s.len() && max_base(s) == base_score(#[trigger] s[i]),
    decreases s.len(),
{
    if s.len() > 0 {
        let q = s.drop_last();
        lemma_max_base(q);
        assert forall|i: int| 0 <= i < s.len() implies max_base(s) >= base_score(#[trigger] s[i]) by {
            if i < q.len() {
                assert(s[i] == q[i]);
            }
        }
        if base_score(s.last()) > max_base(q) {
            assert(max_base(s) == base_score(s[s.len() - 1]));
        } else if q.len() > 0 {
            let j = choose|j: int| 0 <= j < q.len() && max_base(q) == base_score(#[trigger] q[j]);
            assert(s[j] == q[j]);
        } else {
            assert(max_base(s) == base_score(s[0]));
        }
    }
}

/// The strongest listed mechanism sets the base of the score: for every
/// listed mechanism, the score is at least its base plus the layering
/// bonus minus the permission penalties (held to 0..=100), and one listed
/// mechanism gives the score exactly; with no mechanism the base is 0.
pub proof fn lemma_strongest_base(s: Seq<SandboxKind>, p: AppPermissions)
    ensures
        forall|i: int|
            0 <= i < s.len() ==> sandbox_score(s, p) >= clamp_percent(
                base_score(#[trigger] s[i]) + layering_bonus(s) - permission_penalty(p),
            ),
        forall|i: int|
            0 <= i < s.len() ==> sandbox_score(s, p) >= clamp_percent(base_score(#[trigger] s[i]) - permission_penalty(p)),
        s.len() > 0 ==> exists|i: int|
            0 <= i < s.len() && sandbox_score(s, p) == clamp_percent(
                base_score(#[trigger] s[i]) + layering_bonus(s) - permission_penalty(p),
            ),
        s.len() == 0 ==> sandbox_score(s, p) == clamp_percent(layering_bonus(s) - permission_penalty(p)),
{
    lemma_max_base(s);
    assert(raw_sandbox_score(s, p) == max_base(s) + layering_bonus(s) - permission_penalty(p));
    assert(layering_bonus(s) >= 0);
    if s.len() > 0 {
        let j = choose|j: int| 0 <= j < s.len() && max_base(s) == base_score(#[trigger] s[j]);
        assert(sandbox_score(s, p) == clamp_percent(base_score(s[j]) + layering_bonus(s) - permission_penalty(p)));
    }
}

/// The score does not depend on the order in which the mechanisms are
/// listed.
pub proof fn lemma_score_order_free(s: Seq<SandboxKind>, t: Seq<SandboxKind>, p: AppPermissions)
    requires
        s.to_multiset() == t.to_multiset(),
    ensures
        sandbox_score(s, p) == sandbox_score(t, p),
{
    broadcast use vstd::seq_lib::group_to_multiset_ensures;
    assert forall|k: SandboxKind| s.contains(k) <==> #[trigger] t.contains(k) by {
        vstd::seq_lib::to_multiset_contains(s, k);
        vstd::seq_lib::to_multiset_contains(t, k);
    }
    reveal(distinct_kinds);
    assert(distinct_kinds(s) == distinct_kinds(t));
    lemma_max_base(s);
    lemma_max_base(t);
    if s.len() > 0 {
        let i = choose|i: int| 0 <= i < s.len() && max_base(s) == base_score(#[trigger] s[i]);
        assert(t.contains(s[i]));
        let j = choose|j: int| 0 <= j < t.len() && t[j] == s[i];
        assert(max_base(t) >= max_base(s));
    }
    if t.len() > 0 {
        let i = choose|i: int| 0 <= i < t.len() && max_base(t) == base_score(#[trigger] t[i]);
        assert(s.contains(t[i]));
        let j = choose|j: int| 0 <= j < s.len() && s[j] == t[i];
        assert(max_base(s) >= max_base(t));
    }
    if s.len() == 0 {
        assert(t.len() == s.to_multiset().len());
    }
    if t.len() == 0 {
        assert(s.len() == t.to_multiset().len());
    }
}

} // verus!
