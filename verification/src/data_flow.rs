//! Data flow tracking — monitors where app data goes and enforces policies.
//!
//! Tracks per-app file access, network connections, clipboard and screen
//! access, enforces per-app policies with an optional default-deny mode,
//! and computes the inputs of exfiltration-risk analytics.

use vstd::prelude::*;
use crate::clock::{Timestamp, now_millis};
use crate::keyed::{Keyed, with_key, position_of, distinct_by, seq_to_map, lemma_seq_to_map_dom, lemma_seq_to_map_get, lemma_seq_to_map_push, lemma_seq_to_map_update};
use crate::ranking::{Scored, is_top_n, top_n};
use crate::tally::{first_keys, key_total, is_tally, is_count_tally, count_add, all_ones, all_nonneg, lemma_key_total_prefix, totals_fit, tally_of};
use crate::text::{seq_starts_with, seq_contains_str, str_eq, starts_with, contains, concat3, u64_to_decimal, decimal, copy_string};

verus! {

/// A file access event recorded for an application.
#[derive(Debug, Clone)]
pub struct FileAccessEvent {
    pub app_id: String,
    pub path: String,
    pub access_kind: FileAccessKind,
    pub size_bytes: u64,
    pub timestamp: Timestamp,
}

#[derive(Debug, Clone, Copy, PartialEq, Eq, Hash, Structural)]
pub enum FileAccessKind {
    Read,
    Write,
}

/// A network connection event recorded for an application.
#[derive(Debug, Clone)]
pub struct NetworkEvent {
    pub app_id: String,
    pub destination: String,
    pub port: u16,
    pub bytes_sent: u64,
    pub bytes_received: u64,
    pub timestamp: Timestamp,
}

/// Clipboard access by an application.
#[derive(Debug, Clone)]
pub struct ClipboardEvent {
    pub app_id: String,
    pub access_kind: ClipboardAccessKind,
    pub timestamp: Timestamp,
}

#[derive(Debug, Clone, Copy, PartialEq, Eq, Hash, Structural)]
pub enum ClipboardAccessKind {
    Read,
    Write,
}

/// Screen capture / recording by an application.
#[derive(Debug, Clone)]
pub struct ScreenEvent {
    pub app_id: String,
    pub capture_kind: ScreenCaptureKind,
    pub timestamp: Timestamp,
}

#[derive(Debug, Clone, Copy, PartialEq, Eq, Hash, Structural)]
pub enum ScreenCaptureKind {
    Screenshot,
    Recording,
}

/// A data flow event of the coarse-grained stream.
#[derive(Debug, Clone)]
pub struct DataFlowEvent {
    pub app_id: String,
    pub data_type: DataType,
    pub destination: FlowDestination,
    pub bytes: u64,
    pub timestamp: Timestamp,
}

#[derive(Debug, Clone, Copy, PartialEq, Eq, Hash, Structural)]
pub enum DataType {
    Contacts,
    Photos,
    Location,
    Messages,
    Files,
    Clipboard,
    Keystrokes,
}

#[derive(Debug, Clone)]
pub enum FlowDestination {
    LocalFile(String),
    Network(String),
    Clipboard,
    SystemService(String),
}

impl Keyed for FileAccessEvent {
    open spec fn key(&self) -> Seq<char> {
        self.app_id@
    }

    fn key_str(&self) -> (k: &str) {
        self.app_id.as_str()
    }
}

impl Keyed for NetworkEvent {
    open spec fn key(&self) -> Seq<char> {
        self.app_id@
    }

    fn key_str(&self) -> (k: &str) {
        self.app_id.as_str()
    }
}

impl Keyed for ClipboardEvent {
    open spec fn key(&self) -> Seq<char> {
        self.app_id@
    }

    fn key_str(&self) -> (k: &str) {
        self.app_id.as_str()
    }
}

impl Keyed for ScreenEvent {
    open spec fn key(&self) -> Seq<char> {
        self.app_id@
    }

    fn key_str(&self) -> (k: &str) {
        self.app_id.as_str()
    }
}

impl Keyed for DataFlowEvent {
    open spec fn key(&self) -> Seq<char> {
        self.app_id@
    }

    fn key_str(&self) -> (k: &str) {
        self.app_id.as_str()
    }
}

/// A rule governing which data flows are permitted for an application.
#[derive(Debug, Clone)]
pub struct DataFlowPolicy {
    /// Application identifier the policy applies to.
    pub app_id: String,
    /// File path globs the app is allowed to read.
    pub allowed_read_globs: Vec<String>,
    /// File path globs the app is allowed to write.
    pub allowed_write_globs: Vec<String>,
    /// Host patterns the app may connect to (simple glob, e.g. `*.example.com`).
    pub allowed_hosts: Vec<String>,
    /// Whether clipboard access is permitted.
    pub clipboard_allowed: bool,
    /// Whether screen capture / recording is permitted.
    pub screen_capture_allowed: bool,
}

impl Keyed for DataFlowPolicy {
    open spec fn key(&self) -> Seq<char> {
        self.app_id@
    }

    fn key_str(&self) -> (k: &str) {
        self.app_id.as_str()
    }
}

/// The key of a policy: its application.
pub open spec fn flow_policy_key() -> spec_fn(DataFlowPolicy) -> Seq<char> {
    |p: DataFlowPolicy| p.app_id@
}

/// Top-level policy set with optional default-deny.
#[derive(Debug, Clone)]
pub struct PolicySet {
    /// Per-app policies, at most one per application.
    pub policies: Vec<DataFlowPolicy>,
    /// When true, any app without an explicit policy is denied everything.
    pub default_deny: bool,
}

impl PolicySet {
    /// At most one policy per application.
    pub open spec fn wf(&self) -> bool {
        distinct_by(self.policies@, flow_policy_key())
    }

    /// The policies, by application.
    pub open spec fn policy_map(&self) -> Map<Seq<char>, DataFlowPolicy> {
        seq_to_map(self.policies@, flow_policy_key())
    }

    pub fn new(default_deny: bool) -> (r: Self)
        ensures
            r.wf(),
            r.policy_map() == Map::<Seq<char>, DataFlowPolicy>::empty(),
            r.default_deny == default_deny,
    {
        Self { policies: Vec::new(), default_deny }
    }

    /// Add a policy, replacing any earlier one for the same application.
    pub fn add_policy(&mut self, policy: DataFlowPolicy)
        requires
            old(self).wf(),
        ensures
            final(self).wf(),
            final(self).policy_map() == old(self).policy_map().insert(policy.app_id@, policy),
            final(self).default_deny == old(self).default_deny,
    {
        let ghost before = self.policies@;
        match position_of(&self.policies, policy.app_id.as_str()) {
            Some(i) => {
                proof {
                    lemma_seq_to_map_update(before, flow_policy_key(), i as int, policy);
                }
                self.policies.set(i, policy);
            },
            None => {
                proof {
                    lemma_seq_to_map_push(before, flow_policy_key(), policy);
                }
                self.policies.push(policy);
                proof {
                    assert(distinct_by(self.policies@, flow_policy_key())) by {
                        assert forall|a: int, b: int|
                            0 <= a < self.policies@.len() && 0 <= b < self.policies@.len() && a != b
                            implies flow_policy_key()(self.policies@[a]) != flow_policy_key()(
                            self.policies@[b],
                        ) by {
                            if a < before.len() && b < before.len() {
                                assert(self.policies@[a] == before[a] && self.policies@[b] == before[b]);
                            } else if a < before.len() {
                                assert(self.policies@[a] == before[a]);
                            } else {
                                assert(self.policies@[b] == before[b]);
                            }
                        }
                    }
                }
            },
        }
    }

    /// The policy of an application, if it has one.
    pub fn policy_for(&self, app_id: &str) -> (r: Option<&DataFlowPolicy>)
        requires
            self.wf(),
        ensures
            match r {
                Some(p) => self.policy_map().contains_key(app_id@) && *p == self.policy_map()[app_id@],
                None => !self.policy_map().contains_key(app_id@),
            },
    {
        proof {
            lemma_seq_to_map_dom(self.policies@, flow_policy_key());
        }
        match position_of(&self.policies, app_id) {
            Some(i) => {
                proof {
                    lemma_seq_to_map_get(self.policies@, flow_policy_key(), i as int);
                }
                Some(&self.policies[i])
            },
            None => None,
        }
    }
}

/// Severity of a policy violation, driven by data sensitivity.
#[derive(Debug, Clone, Copy, PartialEq, Eq, PartialOrd, Ord, Hash, Structural)]
pub enum ViolationSeverity {
    Low,
    Medium,
    High,
    Critical,
}

/// Records a single policy violation.
#[derive(Debug, Clone)]
pub struct DataFlowViolation {
    pub app_id: String,
    pub action: String,
    pub resource: String,
    pub severity: ViolationSeverity,
    pub timestamp: Timestamp,
}

/// The plain content of a violation.
pub struct FlowViolationView {
    pub app_id: Seq<char>,
    pub action: Seq<char>,
    pub resource: Seq<char>,
    pub severity: ViolationSeverity,
    pub timestamp: Timestamp,
}

impl View for DataFlowViolation {
    type V = FlowViolationView;

    open spec fn view(&self) -> FlowViolationView {
        FlowViolationView {
            app_id: self.app_id@,
            action: self.action@,
            resource: self.resource@,
            severity: self.severity,
            timestamp: self.timestamp,
        }
    }
}

/// The glob language: `*` matches any run of characters (also none), `?`
/// exactly one character, and every other character itself.
pub open spec fn glob(p: Seq<char>, v: Seq<char>) -> bool
    decreases p.len() + v.len(),
{
    if p.len() == 0 {
        v.len() == 0
    } else if p[0] == '*' {
        glob(p.drop_first(), v) || (v.len() > 0 && glob(p, v.drop_first()))
    } else if v.len() == 0 {
        false
    } else if p[0] == '?' || p[0] == v[0] {
        glob(p.drop_first(), v.drop_first())
    } else {
        false
    }
}

fn chars_of(s: &str) -> (r: Vec<char>)
    ensures
        r@ == s@,
{
    let n = s.unicode_len();
    let mut v: Vec<char> = Vec::new();
    let mut i: usize = 0;
    while i < n
        invariant
            n == s@.len(),
            i <= n,
            v@ == s@.take(i as int),
        decreases n - i,
    {
        v.push(s.get_char(i));
        assert(v@ =~= s@.take(i + 1));
        i = i + 1;
    }
    assert(s@.take(n as int) =~= s@);
    v
}

fn glob_at(pat: &[char], val: &[char], i: usize, j: usize) -> (r: bool)
    requires
        i <= pat@.len(),
        j <= val@.len(),
    ensures
        r == glob(pat@.subrange(i as int, pat@.len() as int), val@.subrange(j as int, val@.len() as int)),
    decreases pat@.len() - i + val@.len() - j,
{
    let ghost p = pat@.subrange(i as int, pat@.len() as int);
    let ghost v = val@.subrange(j as int, val@.len() as int);
    if i == pat.len() {
        return j == val.len();
    }
    assert(p[0] == pat@[i as int]);
    assert(p.drop_first() =~= pat@.subrange(i + 1, pat@.len() as int));
    if pat[i] == '*' {
        if glob_at(pat, val, i + 1, j) {
            return true;
        }
        if j < val.len() {
            assert(v.drop_first() =~= val@.subrange(j + 1, val@.len() as int));
            return glob_at(pat, val, i, j + 1);
        }
        return false;
    }
    if j == val.len() {
        return false;
    }
    assert(v[0] == val@[j as int]);
    assert(v.drop_first() =~= val@.subrange(j + 1, val@.len() as int));
    if pat[i] == '?' || pat[i] == val[j] {
        glob_at(pat, val, i + 1, j + 1)
    } else {
        false
    }
}

/// Does the glob pattern (as characters) match the value?
pub fn glob_match_inner(pat: &[char], val: &[char]) -> (r: bool)
    ensures
        r == glob(pat@, val@),
{
    assert(pat@.subrange(0, pat@.len() as int) =~= pat@);
    assert(val@.subrange(0, val@.len() as int) =~= val@);
    glob_at(pat, val, 0, 0)
}

/// Basic glob matcher supporting `*` (any chars) and `?` (single char).
pub fn glob_matches(pattern: &str, value: &str) -> (r: bool)
    ensures
        r == glob(pattern@, value@),
{
    let pat = chars_of(pattern);
    let val = chars_of(value);
    glob_match_inner(pat.as_slice(), val.as_slice())
}

/// A path of system secrets.
pub open spec fn critical_path(p: Seq<char>) -> bool {
    seq_starts_with(p, "/etc/"@) || seq_starts_with(p, "/sys/"@) || seq_starts_with(p, "/proc/"@)
        || seq_contains_str(p, "/shadow"@) || seq_contains_str(p, "/passwd"@) || seq_contains_str(
        p,
        "/.ssh/"@,
    )
}

/// The severity of touching a path.
pub open spec fn path_severity(p: Seq<char>) -> ViolationSeverity {
    if critical_path(p) {
        ViolationSeverity::Critical
    } else if seq_starts_with(p, "/home/"@) || seq_starts_with(p, "/Users/"@) {
        ViolationSeverity::High
    } else if seq_starts_with(p, "/tmp/"@) || seq_starts_with(p, "/var/tmp/"@) {
        ViolationSeverity::Low
    } else {
        ViolationSeverity::Medium
    }
}

/// Determine severity from a file path.
pub fn severity_for_path(path: &str) -> (r: ViolationSeverity)
    ensures
        r == path_severity(path@),
{
    if starts_with(path, "/etc/") || starts_with(path, "/sys/") || starts_with(path, "/proc/")
        || contains(path, "/shadow") || contains(path, "/passwd") || contains(path, "/.ssh/") {
        ViolationSeverity::Critical
    } else if starts_with(path, "/home/") || starts_with(path, "/Users/") {
        ViolationSeverity::High
    } else if starts_with(path, "/tmp/") || starts_with(path, "/var/tmp/") {
        ViolationSeverity::Low
    } else {
        ViolationSeverity::Medium
    }
}

} // verus!

verus! {

/// The plain content of a violation, built from its parts.
pub open spec fn flow_violation(
    app_id: Seq<char>,
    action: Seq<char>,
    resource: Seq<char>,
    severity: ViolationSeverity,
    at: Timestamp,
) -> FlowViolationView {
    FlowViolationView { app_id, action, resource, severity, timestamp: at }
}

/// Some glob of the list matches the value.
pub open spec fn any_glob(globs: Seq<String>, v: Seq<char>) -> bool {
    exists|i: int| 0 <= i < globs.len() && glob((#[trigger] globs[i])@, v)
}

/// The action name of a file access.
pub open spec fn file_action(k: FileAccessKind) -> Seq<char> {
    match k {
        FileAccessKind::Read => "file_read"@,
        FileAccessKind::Write => "file_write"@,
    }
}

/// The resource named by a connection: `host:port`.
pub open spec fn endpoint(host: Seq<char>, port: u16) -> Seq<char> {
    host + ":"@ + decimal(port as nat)
}

/// The name of a capture kind.
pub open spec fn capture_name(k: ScreenCaptureKind) -> Seq<char> {
    match k {
        ScreenCaptureKind::Screenshot => "Screenshot"@,
        ScreenCaptureKind::Recording => "Recording"@,
    }
}

/// What the policies say of an application: `Some(Some(p))` when it has
/// policy `p`, `Some(None)` when it has none and is denied by default,
/// `None` when nothing is enforced on it.
pub open spec fn governing(ps: Option<PolicySet>, app: Seq<char>) -> Option<Option<DataFlowPolicy>> {
    match ps {
        None => None,
        Some(s) => if s.policy_map().contains_key(app) {
            Some(Some(s.policy_map()[app]))
        } else if s.default_deny {
            Some(None)
        } else {
            None
        },
    }
}

/// The violation that a file access incurs, if any.
pub open spec fn file_violation(ps: Option<PolicySet>, e: FileAccessEvent) -> Option<FlowViolationView> {
    let v = flow_violation(
        e.app_id@,
        file_action(e.access_kind),
        e.path@,
        path_severity(e.path@),
        e.timestamp,
    );
    match governing(ps, e.app_id@) {
        None => None,
        Some(None) => Some(v),
        Some(Some(p)) => {
            let globs = match e.access_kind {
                FileAccessKind::Read => p.allowed_read_globs@,
                FileAccessKind::Write => p.allowed_write_globs@,
            };
            if any_glob(globs, e.path@) {
                None
            } else {
                Some(v)
            }
        },
    }
}

/// The violation that a network connection incurs, if any.
pub open spec fn network_violation(ps: Option<PolicySet>, e: NetworkEvent) -> Option<FlowViolationView> {
    let v = flow_violation(
        e.app_id@,
        "network_connect"@,
        endpoint(e.destination@, e.port),
        ViolationSeverity::High,
        e.timestamp,
    );
    match governing(ps, e.app_id@) {
        None => None,
        Some(None) => Some(v),
        Some(Some(p)) => if any_glob(p.allowed_hosts@, e.destination@) {
            None
        } else {
            Some(v)
        },
    }
}

/// The violation that a clipboard access incurs, if any.
pub open spec fn clipboard_violation(ps: Option<PolicySet>, e: ClipboardEvent) -> Option<FlowViolationView> {
    let v = flow_violation(
        e.app_id@,
        "clipboard_access"@,
        "clipboard"@,
        ViolationSeverity::Medium,
        e.timestamp,
    );
    match governing(ps, e.app_id@) {
        None => None,
        Some(None) => Some(v),
        Some(Some(p)) => if p.clipboard_allowed {
            None
        } else {
            Some(v)
        },
    }
}

/// The violation that a screen capture incurs, if any.
pub open spec fn screen_violation(ps: Option<PolicySet>, e: ScreenEvent) -> Option<FlowViolationView> {
    let v = flow_violation(
        e.app_id@,
        "screen_capture"@,
        capture_name(e.capture_kind),
        ViolationSeverity::High,
        e.timestamp,
    );
    match governing(ps, e.app_id@) {
        None => None,
        Some(None) => Some(v),
        Some(Some(p)) => if p.screen_capture_allowed {
            None
        } else {
            Some(v)
        },
    }
}

/// A log after an event that may have incurred a violation.
pub open spec fn log_after(log: Seq<FlowViolationView>, v: Option<FlowViolationView>) -> Seq<FlowViolationView> {
    match v {
        Some(x) => log.push(x),
        None => log,
    }
}

/// The coarse-grained stream after recording `e` with room for `max`:
/// when it outgrows `max`, its oldest `max / 2` entries are dropped.
pub open spec fn stream_after(s: Seq<DataFlowEvent>, e: DataFlowEvent, max: nat) -> Seq<DataFlowEvent> {
    let t = s.push(e);
    if t.len() > max {
        t.subrange((max / 2) as int, t.len() as int)
    } else {
        t
    }
}

fn any_glob_matches(globs: &Vec<String>, value: &str) -> (r: bool)
    ensures
        r == any_glob(globs@, value@),
{
    let mut i: usize = 0;
    while i < globs.len()
        invariant
            i <= globs@.len(),
            forall|j: int| 0 <= j < i ==> !glob((#[trigger] globs@[j])@, value@),
        decreases globs@.len() - i,
    {
        if glob_matches(globs[i].as_str(), value) {
            return true;
        }
        i = i + 1;
    }
    false
}

fn violation_of(
    app_id: &String,
    action: &str,
    resource: String,
    severity: ViolationSeverity,
    at: Timestamp,
) -> (r: DataFlowViolation)
    ensures
        r@ == flow_violation(app_id@, action@, resource@, severity, at),
{
    DataFlowViolation {
        app_id: copy_string(app_id),
        action: String::from_str(action),
        resource,
        severity,
        timestamp: at,
    }
}

/// Full data-flow tracker: records events, enforces policies, produces analytics.
pub struct DataFlowTracker {
    events: Vec<DataFlowEvent>,
    max_events: usize,
    file_events: Vec<FileAccessEvent>,
    network_events: Vec<NetworkEvent>,
    clipboard_events: Vec<ClipboardEvent>,
    screen_events: Vec<ScreenEvent>,
    policy_set: Option<PolicySet>,
    violations: Vec<DataFlowViolation>,
}

impl DataFlowTracker {
    /// The attached policy set is well formed.
    pub closed spec fn wf(&self) -> bool {
        match self.policy_set {
            Some(ps) => ps.wf(),
            None => true,
        }
    }

    /// The coarse-grained event stream, oldest first.
    pub closed spec fn events(&self) -> Seq<DataFlowEvent> {
        self.events@
    }

    /// The room of the coarse-grained stream.
    pub closed spec fn max_events(&self) -> nat {
        self.max_events as nat
    }

    pub closed spec fn file_log(&self) -> Seq<FileAccessEvent> {
        self.file_events@
    }

    pub closed spec fn network_log(&self) -> Seq<NetworkEvent> {
        self.network_events@
    }

    pub closed spec fn clipboard_log(&self) -> Seq<ClipboardEvent> {
        self.clipboard_events@
    }

    pub closed spec fn screen_log(&self) -> Seq<ScreenEvent> {
        self.screen_events@
    }

    /// The attached policy set, if any.
    pub closed spec fn policies(&self) -> Option<PolicySet> {
        self.policy_set
    }

    /// The recorded violations, oldest first.
    pub closed spec fn violation_log(&self) -> Seq<FlowViolationView> {
        self.violations@.map_values(|v: DataFlowViolation| v@)
    }

    /// Everything but the violation log and the four granular logs is as in `o`.
    pub open spec fn same_setup(&self, o: &Self) -> bool {
        &&& self.wf()
        &&& self.events() == o.events()
        &&& self.max_events() == o.max_events()
        &&& self.policies() == o.policies()
    }

    pub fn new(max_events: usize) -> (r: Self)
        ensures
            r.wf(),
            r.events() == Seq::<DataFlowEvent>::empty(),
            r.max_events() == max_events,
            r.file_log() == Seq::<FileAccessEvent>::empty(),
            r.network_log() == Seq::<NetworkEvent>::empty(),
            r.clipboard_log() == Seq::<ClipboardEvent>::empty(),
            r.screen_log() == Seq::<ScreenEvent>::empty(),
            r.policies() is None,
            r.violation_log() == Seq::<FlowViolationView>::empty(),
    {
        let r = Self {
            events: Vec::new(),
            max_events,
            file_events: Vec::new(),
            network_events: Vec::new(),
            clipboard_events: Vec::new(),
            screen_events: Vec::new(),
            policy_set: None,
            violations: Vec::new(),
        };
        assert(r.violation_log() =~= Seq::<FlowViolationView>::empty());
        r
    }

    /// Attach a policy set for enforcement.
    pub fn set_policies(&mut self, ps: PolicySet)
        requires
            ps.wf(),
        ensures
            final(self).wf(),
            final(self).policies() == Some(ps),
            final(self).events() == old(self).events(),
            final(self).max_events() == old(self).max_events(),
            final(self).file_log() == old(self).file_log(),
            final(self).network_log() == old(self).network_log(),
            final(self).clipboard_log() == old(self).clipboard_log(),
            final(self).screen_log() == old(self).screen_log(),
            final(self).violation_log() == old(self).violation_log(),
    {
        self.policy_set = Some(ps);
    }

    /// Record a coarse-grained event; when the stream outgrows its room, the
    /// oldest half of the room is dropped.
    pub fn record(&mut self, event: DataFlowEvent)
        requires
            old(self).wf(),
        ensures
            final(self).events() == stream_after(old(self).events(), event, old(self).max_events()),
            final(self).max_events() == old(self).max_events(),
            final(self).policies() == old(self).policies(),
            final(self).wf(),
            final(self).file_log() == old(self).file_log(),
            final(self).network_log() == old(self).network_log(),
            final(self).clipboard_log() == old(self).clipboard_log(),
            final(self).screen_log() == old(self).screen_log(),
            final(self).violation_log() == old(self).violation_log(),
    {
        self.events.push(event);
        if self.events.len() > self.max_events {
            let half = self.max_events / 2;
            let rest = self.events.split_off(half);
            self.events = rest;
        }
    }

    fn check_file_policy(&self, evt: &FileAccessEvent) -> (r: Option<DataFlowViolation>)
        requires
            self.wf(),
        ensures
            match r {
                Some(v) => file_violation(self.policies(), *evt) == Some(v@),
                None => file_violation(self.policies(), *evt) is None,
            },
    {
        let ps = match &self.policy_set {
            Some(ps) => ps,
            None => return None,
        };
        let action = match evt.access_kind {
            FileAccessKind::Read => "file_read",
            FileAccessKind::Write => "file_write",
        };
        let refused = match ps.policy_for(evt.app_id.as_str()) {
            Some(pol) => {
                let globs = match evt.access_kind {
                    FileAccessKind::Read => &pol.allowed_read_globs,
                    FileAccessKind::Write => &pol.allowed_write_globs,
                };
                !any_glob_matches(globs, evt.path.as_str())
            },
            None => ps.default_deny,
        };
        if refused {
            Some(violation_of(&evt.app_id, action, copy_string(&evt.path), severity_for_path(evt.path.as_str()), evt.timestamp))
        } else {
            None
        }
    }

    fn check_network_policy(&self, evt: &NetworkEvent) -> (r: Option<DataFlowViolation>)
        requires
            self.wf(),
        ensures
            match r {
                Some(v) => network_violation(self.policies(), *evt) == Some(v@),
                None => network_violation(self.policies(), *evt) is None,
            },
    {
        let ps = match &self.policy_set {
            Some(ps) => ps,
            None => return None,
        };
        let refused = match ps.policy_for(evt.app_id.as_str()) {
            Some(pol) => !any_glob_matches(&pol.allowed_hosts, evt.destination.as_str()),
            None => ps.default_deny,
        };
        if refused {
            let port = u64_to_decimal(evt.port as u64);
            let resource = concat3(evt.destination.as_str(), ":", port.as_str());
            Some(violation_of(&evt.app_id, "network_connect", resource, ViolationSeverity::High, evt.timestamp))
        } else {
            None
        }
    }

    fn check_clipboard_policy(&self, evt: &ClipboardEvent) -> (r: Option<DataFlowViolation>)
        requires
            self.wf(),
        ensures
            match r {
                Some(v) => clipboard_violation(self.policies(), *evt) == Some(v@),
                None => clipboard_violation(self.policies(), *evt) is None,
            },
    {
        let ps = match &self.policy_set {
            Some(ps) => ps,
            None => return None,
        };
        let refused = match ps.policy_for(evt.app_id.as_str()) {
            Some(pol) => !pol.clipboard_allowed,
            None => ps.default_deny,
        };
        if refused {
            Some(violation_of(&evt.app_id, "clipboard_access", String::from_str("clipboard"), ViolationSeverity::Medium, evt.timestamp))
        } else {
            None
        }
    }

    fn check_screen_policy(&self, evt: &ScreenEvent) -> (r: Option<DataFlowViolation>)
        requires
            self.wf(),
        ensures
            match r {
                Some(v) => screen_violation(self.policies(), *evt) == Some(v@),
                None => screen_violation(self.policies(), *evt) is None,
            },
    {
        let ps = match &self.policy_set {
            Some(ps) => ps,
            None => return None,
        };
        let refused = match ps.policy_for(evt.app_id.as_str()) {
            Some(pol) => !pol.screen_capture_allowed,
            None => ps.default_deny,
        };
        if refused {
            let name = match evt.capture_kind {
                ScreenCaptureKind::Screenshot => String::from_str("Screenshot"),
                ScreenCaptureKind::Recording => String::from_str("Recording"),
            };
            Some(violation_of(&evt.app_id, "screen_capture", name, ViolationSeverity::High, evt.timestamp))
        } else {
            None
        }
    }

    fn push_violation(&mut self, v: Option<DataFlowViolation>)
        ensures
            final(self).violation_log() == log_after(old(self).violation_log(), match v {
                Some(x) => Some(x@),
                None => None,
            }),
            final(self).events() == old(self).events(),
            final(self).max_events() == old(self).max_events(),
            final(self).policies() == old(self).policies(),
            final(self).file_log() == old(self).file_log(),
            final(self).network_log() == old(self).network_log(),
            final(self).clipboard_log() == old(self).clipboard_log(),
            final(self).screen_log() == old(self).screen_log(),
    {
        if let Some(x) = v {
            let ghost xv = x@;
            self.violations.push(x);
            assert(self.violation_log() =~= old(self).violation_log().push(xv));
        }
    }

    /// Record a file access and check it against the policies.
    pub fn record_file_access(&mut self, evt: FileAccessEvent)
        requires
            old(self).wf(),
        ensures
            final(self).same_setup(old(self)),
            final(self).file_log() == old(self).file_log().push(evt),
            final(self).violation_log() == log_after(old(self).violation_log(), file_violation(old(self).policies(), evt)),
            final(self).network_log() == old(self).network_log(),
            final(self).clipboard_log() == old(self).clipboard_log(),
            final(self).screen_log() == old(self).screen_log(),
    {
        let v = self.check_file_policy(&evt);
        self.push_violation(v);
        self.file_events.push(evt);
    }

    /// Record a network connection and check it against the policies.
    pub fn record_network(&mut self, evt: NetworkEvent)
        requires
            old(self).wf(),
        ensures
            final(self).same_setup(old(self)),
            final(self).network_log() == old(self).network_log().push(evt),
            final(self).violation_log() == log_after(old(self).violation_log(), network_violation(old(self).policies(), evt)),
            final(self).file_log() == old(self).file_log(),
            final(self).clipboard_log() == old(self).clipboard_log(),
            final(self).screen_log() == old(self).screen_log(),
    {
        let v = self.check_network_policy(&evt);
        self.push_violation(v);
        self.network_events.push(evt);
    }

    /// Record a clipboard access and check it against the policies.
    pub fn record_clipboard(&mut self, evt: ClipboardEvent)
        requires
            old(self).wf(),
        ensures
            final(self).same_setup(old(self)),
            final(self).clipboard_log() == old(self).clipboard_log().push(evt),
            final(self).violation_log() == log_after(old(self).violation_log(), clipboard_violation(old(self).policies(), evt)),
            final(self).file_log() == old(self).file_log(),
            final(self).network_log() == old(self).network_log(),
            final(self).screen_log() == old(self).screen_log(),
    {
        let v = self.check_clipboard_policy(&evt);
        self.push_violation(v);
        self.clipboard_events.push(evt);
    }

    /// Record a screen capture and check it against the policies.
    pub fn record_screen(&mut self, evt: ScreenEvent)
        requires
            old(self).wf(),
        ensures
            final(self).same_setup(old(self)),
            final(self).screen_log() == old(self).screen_log().push(evt),
            final(self).violation_log() == log_after(old(self).violation_log(), screen_violation(old(self).policies(), evt)),
            final(self).file_log() == old(self).file_log(),
            final(self).network_log() == old(self).network_log(),
            final(self).clipboard_log() == old(self).clipboard_log(),
    {
        let v = self.check_screen_policy(&evt);
        self.push_violation(v);
        self.screen_events.push(evt);
    }
}

} // verus!

verus! {

/// The `(application, bytes)` pairs of the coarse-grained stream.
pub open spec fn byte_pairs(s: Seq<DataFlowEvent>) -> Seq<(Seq<char>, int)> {
    s.map_values(|e: DataFlowEvent| (e.app_id@, e.bytes as int))
}

/// The `(application, bytes sent)` pairs of a connection log.
pub open spec fn sent_pairs(s: Seq<NetworkEvent>) -> Seq<(Seq<char>, int)> {
    s.map_values(|e: NetworkEvent| (e.app_id@, e.bytes_sent as int))
}

/// A file read under one of the prefixes that mark personal or system data.
pub open spec fn sensitive_read(e: FileAccessEvent) -> bool {
    &&& e.access_kind == FileAccessKind::Read
    &&& (seq_starts_with(e.path@, "/etc/"@) || seq_starts_with(e.path@, "/home/"@)
        || seq_starts_with(e.path@, "/Users/"@) || seq_starts_with(e.path@, "/proc/"@)
        || seq_starts_with(e.path@, "/sys/"@))
}

/// The `(application, 1)` pairs of the sensitive reads of a log.
pub open spec fn reader_pairs(s: Seq<FileAccessEvent>) -> Seq<(Seq<char>, int)> {
    s.filter(|e: FileAccessEvent| sensitive_read(e)).map_values(|e: FileAccessEvent| (e.app_id@, 1int))
}

/// The application made some connection.
pub open spec fn is_networked(n: Seq<NetworkEvent>, app: Seq<char>) -> bool {
    exists|i: int| 0 <= i < n.len() && (#[trigger] n[i]).app_id@ == app
}

/// The suspicious-flow finding for a sensitive read.
pub open spec fn suspicious_of(e: FileAccessEvent, at: Timestamp) -> FlowViolationView {
    flow_violation(e.app_id@, "suspicious_flow"@, e.path@, path_severity(e.path@), at)
}

/// A sensitive read by `app`.
pub open spec fn app_sensitive_read(app: Seq<char>) -> spec_fn(FileAccessEvent) -> bool {
    |e: FileAccessEvent| sensitive_read(e) && e.app_id@ == app
}

/// The findings for one application: its sensitive reads, in order.
pub open spec fn app_findings(files: Seq<FileAccessEvent>, app: Seq<char>, at: Timestamp) -> Seq<FlowViolationView> {
    files.filter(app_sensitive_read(app)).map_values(|e: FileAccessEvent| suspicious_of(e, at))
}

/// The findings for a list of applications, one group per application in
/// the list's order; an application without connections has none.
pub open spec fn grouped_findings(
    apps: Seq<Seq<char>>,
    files: Seq<FileAccessEvent>,
    nets: Seq<NetworkEvent>,
    at: Timestamp,
) -> Seq<FlowViolationView>
    decreases apps.len(),
{
    if apps.len() == 0 {
        Seq::empty()
    } else {
        grouped_findings(apps.drop_last(), files, nets, at) + if is_networked(nets, apps.last()) {
            app_findings(files, apps.last(), at)
        } else {
            Seq::empty()
        }
    }
}

/// The suspicious flows of a tracker: every sensitive read by an
/// application that also connects to the network, grouped by application
/// in the order in which the applications first read sensitive data.
pub open spec fn suspicious_findings(files: Seq<FileAccessEvent>, nets: Seq<NetworkEvent>, at: Timestamp) -> Seq<FlowViolationView> {
    grouped_findings(first_keys(reader_pairs(files)), files, nets, at)
}

proof fn lemma_reader_pairs_push(s: Seq<FileAccessEvent>, e: FileAccessEvent)
    ensures
        reader_pairs(s.push(e)) == if sensitive_read(e) {
            reader_pairs(s).push((e.app_id@, 1int))
        } else {
            reader_pairs(s)
        },
        reader_pairs(s).len() <= s.len(),
        all_ones(reader_pairs(s)),
{
    let pred = |x: FileAccessEvent| sensitive_read(x);
    s.lemma_filter_push(e, pred);
    s.lemma_filter_len(pred);
    if sensitive_read(e) {
        assert(reader_pairs(s.push(e)) =~= reader_pairs(s).push((e.app_id@, 1int)));
    }
}

fn is_sensitive_read(e: &FileAccessEvent) -> (r: bool)
    ensures
        r == sensitive_read(*e),
{
    e.access_kind == FileAccessKind::Read && (starts_with(e.path.as_str(), "/etc/")
        || starts_with(e.path.as_str(), "/home/") || starts_with(e.path.as_str(), "/Users/")
        || starts_with(e.path.as_str(), "/proc/") || starts_with(e.path.as_str(), "/sys/"))
}

/// A read of a file that holds secrets or personal data, as the risk
/// factors count them.
pub open spec fn risky_read(e: FileAccessEvent, app: Seq<char>) -> bool {
    &&& e.app_id@ == app
    &&& e.access_kind == FileAccessKind::Read
    &&& (seq_starts_with(e.path@, "/etc/"@) || seq_starts_with(e.path@, "/home/"@)
        || seq_contains_str(e.path@, "/.ssh/"@))
}

/// A connection of `app`.
pub open spec fn connection_of(app: Seq<char>) -> spec_fn(NetworkEvent) -> bool {
    |e: NetworkEvent| e.app_id@ == app
}

/// The `(host, 1)` pairs of one application's connections.
pub open spec fn host_pairs(n: Seq<NetworkEvent>, app: Seq<char>) -> Seq<(Seq<char>, int)> {
    n.filter(connection_of(app)).map_values(|e: NetworkEvent| (e.destination@, 1int))
}

/// The plain inputs of an application's exfiltration risk score.
#[derive(Debug, Clone, Copy, PartialEq, Eq)]
pub struct ExfiltrationFactors {
    /// Bytes the application sent over the network.
    pub total_sent: u64,
    /// Distinct hosts the application connected to.
    pub distinct_hosts: usize,
    /// Reads of files under `/etc/`, `/home/` or in an `.ssh` directory.
    pub sensitive_reads: usize,
    /// The application touched the clipboard.
    pub clipboard_access: bool,
    /// The application captured the screen.
    pub screen_capture: bool,
    /// Violations recorded against the application.
    pub violation_count: usize,
}

impl DataFlowTracker {
    /// Coarse-grained events of an application, oldest first.
    pub fn flows_by_app(&self, app_id: &str) -> (r: Vec<&DataFlowEvent>)
        ensures
            r@.map_values(|e: &DataFlowEvent| *e) == self.events().filter(|e: DataFlowEvent| e.app_id@ == app_id@),
    {
        let r = with_key(&self.events, app_id);
        assert((|x: DataFlowEvent| x.key() == app_id@) == (|e: DataFlowEvent| e.app_id@ == app_id@));
        r
    }

    /// Coarse-grained events that went to the network, oldest first.
    pub fn network_flows(&self) -> (r: Vec<&DataFlowEvent>)
        ensures
            r@.map_values(|e: &DataFlowEvent| *e) == self.events().filter(|e: DataFlowEvent| e.destination is Network),
    {
        let ghost pred = |e: DataFlowEvent| e.destination is Network;
        let mut r: Vec<&DataFlowEvent> = Vec::new();
        let mut i: usize = 0;
        while i < self.events.len()
            invariant
                i <= self.events@.len(),
                pred == (|e: DataFlowEvent| e.destination is Network),
                r@.map_values(|e: &DataFlowEvent| *e) == self.events@.take(i as int).filter(pred),
            decreases self.events@.len() - i,
        {
            proof {
                assert(self.events@.take(i + 1) =~= self.events@.take(i as int).push(self.events@[i as int]));
                self.events@.take(i as int).lemma_filter_push(self.events@[i as int], pred);
            }
            if let FlowDestination::Network(_) = &self.events[i].destination {
                r.push(&self.events[i]);
            }
            proof {
                assert(r@.map_values(|e: &DataFlowEvent| *e) =~= self.events@.take(i + 1).filter(pred));
            }
            i = i + 1;
        }
        assert(self.events@.take(self.events@.len() as int) =~= self.events@);
        r
    }

    /// Bytes per application over the coarse-grained stream, one row per
    /// application in order of first appearance.
    pub fn total_bytes_by_app(&self) -> (r: Vec<(String, u64)>)
        requires
            totals_fit(byte_pairs(self.events())),
        ensures
            is_tally(byte_pairs(self.events()), r@),
    {
        let ghost p = byte_pairs(self.events@);
        let mut keys: Vec<&str> = Vec::new();
        let mut amounts: Vec<u64> = Vec::new();
        let mut i: usize = 0;
        while i < self.events.len()
            invariant
                i <= self.events@.len(),
                p == byte_pairs(self.events@),
                keys@.len() == i,
                amounts@.len() == i,
                forall|j: int| 0 <= j < i ==> (#[trigger] p[j]) == (keys@[j]@, amounts@[j] as int),
            decreases self.events@.len() - i,
        {
            keys.push(self.events[i].app_id.as_str());
            amounts.push(self.events[i].bytes);
            i = i + 1;
        }
        tally_of(&keys, &amounts, Ghost(p))
    }

    /// The number of coarse-grained events retained.
    pub fn event_count(&self) -> (r: usize)
        ensures
            r == self.events().len(),
    {
        self.events.len()
    }

    /// File accesses of an application, oldest first.
    pub fn file_events_for(&self, app_id: &str) -> (r: Vec<&FileAccessEvent>)
        ensures
            r@.map_values(|e: &FileAccessEvent| *e) == self.file_log().filter(|e: FileAccessEvent| e.app_id@ == app_id@),
    {
        let r = with_key(&self.file_events, app_id);
        assert((|x: FileAccessEvent| x.key() == app_id@) == (|e: FileAccessEvent| e.app_id@ == app_id@));
        r
    }

    /// Connections of an application, oldest first.
    pub fn network_events_for(&self, app_id: &str) -> (r: Vec<&NetworkEvent>)
        ensures
            r@.map_values(|e: &NetworkEvent| *e) == self.network_log().filter(|e: NetworkEvent| e.app_id@ == app_id@),
    {
        let r = with_key(&self.network_events, app_id);
        assert((|x: NetworkEvent| x.key() == app_id@) == (|e: NetworkEvent| e.app_id@ == app_id@));
        r
    }

    /// Clipboard accesses of an application, oldest first.
    pub fn clipboard_events_for(&self, app_id: &str) -> (r: Vec<&ClipboardEvent>)
        ensures
            r@.map_values(|e: &ClipboardEvent| *e) == self.clipboard_log().filter(|e: ClipboardEvent| e.app_id@ == app_id@),
    {
        let r = with_key(&self.clipboard_events, app_id);
        assert((|x: ClipboardEvent| x.key() == app_id@) == (|e: ClipboardEvent| e.app_id@ == app_id@));
        r
    }

    /// Screen captures of an application, oldest first.
    pub fn screen_events_for(&self, app_id: &str) -> (r: Vec<&ScreenEvent>)
        ensures
            r@.map_values(|e: &ScreenEvent| *e) == self.screen_log().filter(|e: ScreenEvent| e.app_id@ == app_id@),
    {
        let r = with_key(&self.screen_events, app_id);
        assert((|x: ScreenEvent| x.key() == app_id@) == (|e: ScreenEvent| e.app_id@ == app_id@));
        r
    }

    /// The recorded violations, oldest first.
    pub fn violations(&self) -> (r: &[DataFlowViolation])
        ensures
            r@.map_values(|v: DataFlowViolation| v@) == self.violation_log(),
    {
        self.violations.as_slice()
    }

    /// The `n` applications that sent the most bytes, most first.
    pub fn top_senders(&self, n: usize) -> (r: Vec<(String, u64)>)
        requires
            totals_fit(sent_pairs(self.network_log())),
        ensures
            exists|t: Seq<(String, u64)>| is_tally(sent_pairs(self.network_log()), t) && is_top_n(t, n as nat, r@),
    {
        let ghost p = sent_pairs(self.network_events@);
        let mut keys: Vec<&str> = Vec::new();
        let mut amounts: Vec<u64> = Vec::new();
        let mut i: usize = 0;
        while i < self.network_events.len()
            invariant
                i <= self.network_events@.len(),
                p == sent_pairs(self.network_events@),
                keys@.len() == i,
                amounts@.len() == i,
                forall|j: int| 0 <= j < i ==> (#[trigger] p[j]) == (keys@[j]@, amounts@[j] as int),
            decreases self.network_events@.len() - i,
        {
            keys.push(self.network_events[i].app_id.as_str());
            amounts.push(self.network_events[i].bytes_sent);
            i = i + 1;
        }
        let t = tally_of(&keys, &amounts, Ghost(p));
        let ghost tv = t@;
        let r = top_n(t, n);
        assert(is_tally(p, tv) && is_top_n(tv, n as nat, r@));
        r
    }
}

} // verus!

verus! {

proof fn lemma_host_pairs_push(s: Seq<NetworkEvent>, e: NetworkEvent, app: Seq<char>)
    ensures
        host_pairs(s.push(e), app) == if e.app_id@ == app {
            host_pairs(s, app).push((e.destination@, 1int))
        } else {
            host_pairs(s, app)
        },
        host_pairs(s, app).len() <= s.len(),
        all_ones(host_pairs(s, app)),
{
    let pred = connection_of(app);
    s.lemma_filter_push(e, pred);
    s.lemma_filter_len(pred);
    if e.app_id@ == app {
        assert(host_pairs(s.push(e), app) =~= host_pairs(s, app).push((e.destination@, 1int)));
    }
}

fn app_has_connection(nets: &Vec<NetworkEvent>, app: &str) -> (r: bool)
    ensures
        r == is_networked(nets@, app@),
{
    let mut i: usize = 0;
    while i < nets.len()
        invariant
            i <= nets@.len(),
            forall|j: int| 0 <= j < i ==> (#[trigger] nets@[j]).app_id@ != app@,
        decreases nets@.len() - i,
    {
        if str_eq(nets[i].app_id.as_str(), app) {
            return true;
        }
        i = i + 1;
    }
    false
}

fn push_app_findings(out: &mut Vec<DataFlowViolation>, files: &Vec<FileAccessEvent>, app: &str, now: Timestamp)
    ensures
        final(out)@.map_values(|v: DataFlowViolation| v@) == old(out)@.map_values(|v: DataFlowViolation| v@)
            + app_findings(files@, app@, now),
{
    let ghost pred = app_sensitive_read(app@);
    let ghost start = old(out)@.map_values(|v: DataFlowViolation| v@);
    let mut i: usize = 0;
    assert(files@.take(0).filter(pred) =~= Seq::<FileAccessEvent>::empty()) by {
        reveal(Seq::filter);
    }
    assert(out@.map_values(|v: DataFlowViolation| v@) =~= start + files@.take(0).filter(pred).map_values(
        |e: FileAccessEvent| suspicious_of(e, now),
    ));
    while i < files.len()
        invariant
            i <= files@.len(),
            pred == app_sensitive_read(app@),
            out@.map_values(|v: DataFlowViolation| v@) == start + files@.take(i as int).filter(pred).map_values(
                |e: FileAccessEvent| suspicious_of(e, now),
            ),
        decreases files@.len() - i,
    {
        let ghost before = out@.map_values(|v: DataFlowViolation| v@);
        proof {
            assert(files@.take(i + 1) =~= files@.take(i as int).push(files@[i as int]));
            files@.take(i as int).lemma_filter_push(files@[i as int], pred);
        }
        let e = &files[i];
        if is_sensitive_read(e) && str_eq(e.app_id.as_str(), app) {
            let v = violation_of(&e.app_id, "suspicious_flow", copy_string(&e.path), severity_for_path(e.path.as_str()), now);
            out.push(v);
            proof {
                assert(out@.map_values(|v: DataFlowViolation| v@) =~= before.push(suspicious_of(*e, now)));
                assert(files@.take(i + 1).filter(pred) == files@.take(i as int).filter(pred).push(*e));
                assert(files@.take(i + 1).filter(pred).map_values(|e: FileAccessEvent| suspicious_of(e, now))
                    =~= files@.take(i as int).filter(pred).map_values(|e: FileAccessEvent| suspicious_of(e, now)).push(
                    suspicious_of(*e, now),
                ));
            }
        }
        i = i + 1;
    }
    assert(files@.take(files@.len() as int) =~= files@);
}

impl DataFlowTracker {
    /// Sensitive reads by applications that also connect to the network,
    /// reported at the given instant, grouped by application.
    pub fn suspicious_flows_at(&self, now: Timestamp) -> (r: Vec<DataFlowViolation>)
        ensures
            r@.map_values(|v: DataFlowViolation| v@) == suspicious_findings(self.file_log(), self.network_log(), now),
    {
        let ghost files = self.file_events@;
        let mut t: Vec<(String, usize)> = Vec::new();
        let mut i: usize = 0;
        assert(files.take(0).filter(|e: FileAccessEvent| sensitive_read(e)) =~= Seq::<FileAccessEvent>::empty()) by {
            reveal(Seq::filter);
        }
        assert(reader_pairs(files.take(0)) =~= Seq::<(Seq<char>, int)>::empty());
        while i < self.file_events.len()
            invariant
                i <= files.len(),
                files == self.file_events@,
                is_count_tally(reader_pairs(files.take(i as int)), t@),
            decreases files.len() - i,
        {
            proof {
                assert(files.take(i + 1) =~= files.take(i as int).push(files[i as int]));
                lemma_reader_pairs_push(files.take(i as int), files[i as int]);
            }
            if is_sensitive_read(&self.file_events[i]) {
                count_add(&mut t, self.file_events[i].app_id.as_str(), Ghost(reader_pairs(files.take(i as int))));
            }
            i = i + 1;
        }
        assert(files.take(files.len() as int) =~= files);
        let ghost keys = first_keys(reader_pairs(files));
        let mut out: Vec<DataFlowViolation> = Vec::new();
        let mut j: usize = 0;
        assert(out@.map_values(|v: DataFlowViolation| v@) =~= grouped_findings(keys.take(0), files, self.network_events@, now));
        while j < t.len()
            invariant
                j <= t@.len(),
                files == self.file_events@,
                keys == first_keys(reader_pairs(files)),
                is_count_tally(reader_pairs(files), t@),
                out@.map_values(|v: DataFlowViolation| v@) == grouped_findings(keys.take(j as int), files, self.network_events@, now),
            decreases t@.len() - j,
        {
            let app = t[j].0.as_str();
            proof {
                assert(keys.take(j + 1).drop_last() =~= keys.take(j as int));
                assert(keys.take(j + 1).last() == keys[j as int]);
                assert(t@[j as int].0@ == keys[j as int]);
            }
            if app_has_connection(&self.network_events, app) {
                push_app_findings(&mut out, &self.file_events, app, now);
            } else {
                assert(out@.map_values(|v: DataFlowViolation| v@) =~= grouped_findings(keys.take(j as int), files, self.network_events@, now) + Seq::<FlowViolationView>::empty());
            }
            j = j + 1;
        }
        assert(keys.take(keys.len() as int) =~= keys);
        out
    }

    /// Sensitive reads by applications that also connect to the network,
    /// reported now.
    pub fn suspicious_flows(&self) -> (r: Vec<DataFlowViolation>)
        ensures
            exists|at: Timestamp| r@.map_values(|v: DataFlowViolation| v@) == suspicious_findings(self.file_log(), self.network_log(), at),
    {
        let now = now_millis();
        self.suspicious_flows_at(now)
    }

    /// The inputs of an application's exfiltration risk score.
    pub fn exfiltration_factors(&self, app: &str) -> (r: ExfiltrationFactors)
        requires
            key_total(sent_pairs(self.network_log()), app@) <= u64::MAX,
        ensures
            r.total_sent == key_total(sent_pairs(self.network_log()), app@),
            r.distinct_hosts == first_keys(host_pairs(self.network_log(), app@)).len(),
            r.sensitive_reads == self.file_log().filter(|e: FileAccessEvent| risky_read(e, app@)).len(),
            r.clipboard_access == exists|i: int| 0 <= i < self.clipboard_log().len() && (#[trigger] self.clipboard_log()[i]).app_id@ == app@,
            r.screen_capture == exists|i: int| 0 <= i < self.screen_log().len() && (#[trigger] self.screen_log()[i]).app_id@ == app@,
            r.violation_count == self.violation_log().filter(|v: FlowViolationView| v.app_id == app@).len(),
    {
        let total_sent = self.sent_by(app);
        let distinct_hosts = self.distinct_hosts_of(app);
        let sensitive_reads = self.risky_reads_of(app);
        let violation_count = self.violation_count_of(app);
        let clipboard_access = self.any_clipboard_of(app);
        let screen_capture = self.any_screen_of(app);
        ExfiltrationFactors { total_sent, distinct_hosts, sensitive_reads, clipboard_access, screen_capture, violation_count }
    }

    fn sent_by(&self, app: &str) -> (r: u64)
        requires
            key_total(sent_pairs(self.network_log()), app@) <= u64::MAX,
        ensures
            r == key_total(sent_pairs(self.network_log()), app@),
    {
        let ghost p = sent_pairs(self.network_events@);
        let mut sum: u64 = 0;
        let mut i: usize = 0;
        proof {
            assert(all_nonneg(p)) by {
                assert forall|j: int| 0 <= j < p.len() implies (#[trigger] p[j]).1 >= 0 by {}
            }
        }
        assert(p.take(0) =~= Seq::<(Seq<char>, int)>::empty());
        while i < self.network_events.len()
            invariant
                i <= self.network_events@.len(),
                p == sent_pairs(self.network_events@),
                all_nonneg(p),
                key_total(p, app@) <= u64::MAX,
                sum == key_total(p.take(i as int), app@),
            decreases self.network_events@.len() - i,
        {
            proof {
                assert(p.take(i + 1).drop_last() =~= p.take(i as int));
                lemma_key_total_prefix(p, i + 1, app@);
            }
            if str_eq(self.network_events[i].app_id.as_str(), app) {
                sum = sum + self.network_events[i].bytes_sent;
            }
            i = i + 1;
        }
        assert(p.take(p.len() as int) =~= p);
        sum
    }

    fn distinct_hosts_of(&self, app: &str) -> (r: usize)
        ensures
            r == first_keys(host_pairs(self.network_log(), app@)).len(),
    {
        let ghost nets = self.network_events@;
        let mut t: Vec<(String, usize)> = Vec::new();
        let mut i: usize = 0;
        assert(nets.take(0).filter(connection_of(app@)) =~= Seq::<NetworkEvent>::empty()) by {
            reveal(Seq::filter);
        }
        assert(host_pairs(nets.take(0), app@) =~= Seq::<(Seq<char>, int)>::empty());
        while i < self.network_events.len()
            invariant
                i <= nets.len(),
                nets == self.network_events@,
                is_count_tally(host_pairs(nets.take(i as int), app@), t@),
            decreases nets.len() - i,
        {
            proof {
                assert(nets.take(i + 1) =~= nets.take(i as int).push(nets[i as int]));
                lemma_host_pairs_push(nets.take(i as int), nets[i as int], app@);
            }
            if str_eq(self.network_events[i].app_id.as_str(), app) {
                count_add(&mut t, self.network_events[i].destination.as_str(), Ghost(host_pairs(nets.take(i as int), app@)));
            }
            i = i + 1;
        }
        assert(nets.take(nets.len() as int) =~= nets);
        t.len()
    }

    fn risky_reads_of(&self, app: &str) -> (r: usize)
        ensures
            r == self.file_log().filter(|e: FileAccessEvent| risky_read(e, app@)).len(),
    {
        let ghost files = self.file_events@;
        let ghost pred = |e: FileAccessEvent| risky_read(e, app@);
        let mut count: usize = 0;
        let mut i: usize = 0;
        assert(files.take(0).filter(pred) =~= Seq::<FileAccessEvent>::empty()) by {
            reveal(Seq::filter);
        }
        while i < self.file_events.len()
            invariant
                i <= files.len(),
                files == self.file_events@,
                pred == (|e: FileAccessEvent| risky_read(e, app@)),
                count == files.take(i as int).filter(pred).len(),
            decreases files.len() - i,
        {
            proof {
                assert(files.take(i + 1) =~= files.take(i as int).push(files[i as int]));
                files.take(i as int).lemma_filter_push(files[i as int], pred);
                files.take(i as int).lemma_filter_len(pred);
            }
            let e = &self.file_events[i];
            if str_eq(e.app_id.as_str(), app) && e.access_kind == FileAccessKind::Read && (starts_with(e.path.as_str(), "/etc/")
                || starts_with(e.path.as_str(), "/home/") || contains(e.path.as_str(), "/.ssh/")) {
                count = count + 1;
            }
            i = i + 1;
        }
        assert(files.take(files.len() as int) =~= files);
        count
    }

    fn violation_count_of(&self, app: &str) -> (r: usize)
        ensures
            r == self.violation_log().filter(|v: FlowViolationView| v.app_id == app@).len(),
    {
        let ghost log = self.violation_log();
        let ghost pred = |v: FlowViolationView| v.app_id == app@;
        let mut count: usize = 0;
        let mut i: usize = 0;
        assert(log.take(0).filter(pred) =~= Seq::<FlowViolationView>::empty()) by {
            reveal(Seq::filter);
        }
        while i < self.violations.len()
            invariant
                i <= self.violations@.len(),
                log == self.violations@.map_values(|v: DataFlowViolation| v@),
                pred == (|v: FlowViolationView| v.app_id == app@),
                count == log.take(i as int).filter(pred).len(),
            decreases self.violations@.len() - i,
        {
            proof {
                assert(log.take(i + 1) =~= log.take(i as int).push(log[i as int]));
                log.take(i as int).lemma_filter_push(log[i as int], pred);
                log.take(i as int).lemma_filter_len(pred);
            }
            if str_eq(self.violations[i].app_id.as_str(), app) {
                count = count + 1;
            }
            i = i + 1;
        }
        assert(log.take(log.len() as int) =~= log);
        count
    }

    fn any_clipboard_of(&self, app: &str) -> (r: bool)
        ensures
            r == exists|i: int| 0 <= i < self.clipboard_log().len() && (#[trigger] self.clipboard_log()[i]).app_id@ == app@,
    {
        let mut i: usize = 0;
        while i < self.clipboard_events.len()
            invariant
                i <= self.clipboard_events@.len(),
                forall|j: int| 0 <= j < i ==> (#[trigger] self.clipboard_events@[j]).app_id@ != app@,
            decreases self.clipboard_events@.len() - i,
        {
            if str_eq(self.clipboard_events[i].app_id.as_str(), app) {
                return true;
            }
            i = i + 1;
        }
        false
    }

    fn any_screen_of(&self, app: &str) -> (r: bool)
        ensures
            r == exists|i: int| 0 <= i < self.screen_log().len() && (#[trigger] self.screen_log()[i]).app_id@ == app@,
    {
        let mut i: usize = 0;
        while i < self.screen_events.len()
            invariant
                i <= self.screen_events@.len(),
                forall|j: int| 0 <= j < i ==> (#[trigger] self.screen_events@[j]).app_id@ != app@,
            decreases self.screen_events@.len() - i,
        {
            if str_eq(self.screen_events[i].app_id.as_str(), app) {
                return true;
            }
            i = i + 1;
        }
        false
    }
}

impl Default for DataFlowTracker {
    fn default() -> (r: Self)
        ensures
            r.wf(),
            r.events() == Seq::<DataFlowEvent>::empty(),
            r.max_events() == 10_000,
            r.file_log() == Seq::<FileAccessEvent>::empty(),
            r.network_log() == Seq::<NetworkEvent>::empty(),
            r.clipboard_log() == Seq::<ClipboardEvent>::empty(),
            r.screen_log() == Seq::<ScreenEvent>::empty(),
            r.policies() is None,
            r.violation_log() == Seq::<FlowViolationView>::empty(),
    {
        Self::new(10_000)
    }
}

} // verus!

verus! {

/// Screen captures against the policies. A capture by an application
/// whose policy permits screen capture adds no violation; one whose policy
/// forbids it, or that has no policy under default-deny, adds exactly one
/// violation, naming the application and the action `screen_capture`, at
/// the capture's time; without a policy and without default-deny, or with
/// no policies installed, nothing is added.
pub proof fn lemma_screen_capture_policy(ps: Option<PolicySet>, e: ScreenEvent, log: Seq<FlowViolationView>)
    ensures
        ps is Some && ps->0.policy_map().contains_key(e.app_id@) && ps->0.policy_map()[e.app_id@].screen_capture_allowed
            ==> log_after(log, screen_violation(ps, e)) == log,
        ps is Some && ((ps->0.policy_map().contains_key(e.app_id@)
            && !ps->0.policy_map()[e.app_id@].screen_capture_allowed) || (!ps->0.policy_map().contains_key(e.app_id@)
            && ps->0.default_deny)) ==> {
            let l = log_after(log, screen_violation(ps, e));
            &&& l.len() == log.len() + 1
            &&& l.drop_last() == log
            &&& l.last().app_id == e.app_id@
            &&& l.last().action == "screen_capture"@
            &&& l.last().timestamp == e.timestamp
        },
        ps is None || (!ps->0.policy_map().contains_key(e.app_id@) && !ps->0.default_deny) ==> log_after(
            log,
            screen_violation(ps, e),
        ) == log,
{
    match screen_violation(ps, e) {
        Some(v) => {
            assert(log.push(v).drop_last() =~= log);
        },
        None => {},
    }
}

/// Clipboard accesses against the policies, as for screen captures: a
/// policy that permits the clipboard adds no violation; one that forbids
/// it, or no policy under default-deny, adds exactly one violation naming
/// the application and the action `clipboard_access`; otherwise nothing
/// is added.
pub proof fn lemma_clipboard_policy(ps: Option<PolicySet>, e: ClipboardEvent, log: Seq<FlowViolationView>)
    ensures
        ps is Some && ps->0.policy_map().contains_key(e.app_id@) && ps->0.policy_map()[e.app_id@].clipboard_allowed
            ==> log_after(log, clipboard_violation(ps, e)) == log,
        ps is Some && ((ps->0.policy_map().contains_key(e.app_id@)
            && !ps->0.policy_map()[e.app_id@].clipboard_allowed) || (!ps->0.policy_map().contains_key(e.app_id@)
            && ps->0.default_deny)) ==> {
            let l = log_after(log, clipboard_violation(ps, e));
            &&& l.len() == log.len() + 1
            &&& l.drop_last() == log
            &&& l.last().app_id == e.app_id@
            &&& l.last().action == "clipboard_access"@
            &&& l.last().timestamp == e.timestamp
        },
        ps is None || (!ps->0.policy_map().contains_key(e.app_id@) && !ps->0.default_deny) ==> log_after(
            log,
            clipboard_violation(ps, e),
        ) == log,
{
    match clipboard_violation(ps, e) {
        Some(v) => {
            assert(log.push(v).drop_last() =~= log);
        },
        None => {},
    }
}

} // verus!
