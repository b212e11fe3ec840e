//! Policy engine — declarative app behavior policies.

use vstd::prelude::*;
use crate::clock::{Timestamp, now_millis};
use crate::keyed::{Keyed, position_of, distinct_by, seq_to_map, lemma_seq_to_map_dom, lemma_seq_to_map_get, lemma_seq_to_map_push, lemma_seq_to_map_update, lemma_seq_to_map_len};
use crate::text::{seq_starts_with, seq_ends_with, str_eq, starts_with, ends_with, concat2};

verus! {

/// A behavior policy for an application.
#[derive(Debug, Clone)]
pub struct AppPolicy {
    pub app_id: String,
    pub allow_network: bool,
    pub allowed_domains: Vec<String>,
    pub allow_filesystem: bool,
    pub allowed_paths: Vec<String>,
    pub allow_ipc: bool,
    pub allow_camera: bool,
    pub allow_microphone: bool,
    pub allow_location: bool,
    pub allow_clipboard: bool,
    pub allow_notifications: bool,
    pub allow_autostart: bool,
}

impl Keyed for AppPolicy {
    open spec fn key(&self) -> Seq<char> {
        self.app_id@
    }

    fn key_str(&self) -> (k: &str) {
        self.app_id.as_str()
    }
}

/// A domain pattern admits a domain: `*.suffix` admits the suffix itself
/// and every name ending in `.suffix`; any other pattern admits only
/// itself.
pub open spec fn domain_matches(pattern: Seq<char>, domain: Seq<char>) -> bool {
    if seq_starts_with(pattern, "*."@) {
        let suffix = pattern.subrange(2, pattern.len() as int);
        domain == suffix || seq_ends_with(domain, seq!['.'] + suffix)
    } else {
        domain == pattern
    }
}

/// The domain verdict of a policy.
pub open spec fn policy_allows_domain(p: AppPolicy, domain: Seq<char>) -> bool {
    p.allow_network && (p.allowed_domains@.len() == 0 || exists|i: int|
        0 <= i < p.allowed_domains@.len() && domain_matches(
            (#[trigger] p.allowed_domains@[i])@,
            domain,
        ))
}

/// The path verdict of a policy: a path is admitted when it begins with one
/// of the listed prefixes (as text), or when none is listed.
pub open spec fn policy_allows_path(p: AppPolicy, path: Seq<char>) -> bool {
    p.allow_filesystem && (p.allowed_paths@.len() == 0 || exists|i: int|
        0 <= i < p.allowed_paths@.len() && seq_starts_with(path, (#[trigger] p.allowed_paths@[i])@))
}

/// The policy with every flag set to `allow` and no lists.
pub open spec fn uniform_policy(p: AppPolicy, app_id: Seq<char>, allow: bool) -> bool {
    &&& p.app_id@ == app_id
    &&& p.allow_network == allow
    &&& p.allowed_domains@.len() == 0
    &&& p.allow_filesystem == allow
    &&& p.allowed_paths@.len() == 0
    &&& p.allow_ipc == allow
    &&& p.allow_camera == allow
    &&& p.allow_microphone == allow
    &&& p.allow_location == allow
    &&& p.allow_clipboard == allow
    &&& p.allow_notifications == allow
    &&& p.allow_autostart == allow
}

fn pattern_matches(pattern: &str, domain: &str) -> (r: bool)
    ensures
        r == domain_matches(pattern@, domain@),
{
    proof {
        reveal_strlit("*.");
        reveal_strlit(".");
    }
    if starts_with(pattern, "*.") {
        let len = pattern.unicode_len();
        let suffix = pattern.substring_char(2, len);
        if str_eq(domain, suffix) {
            return true;
        }
        let dotted = concat2(".", suffix);
        assert(dotted@ =~= seq!['.'] + suffix@);
        ends_with(domain, dotted.as_str())
    } else {
        str_eq(domain, pattern)
    }
}

impl AppPolicy {
    pub fn permissive(app_id: &str) -> (r: Self)
        ensures
            uniform_policy(r, app_id@, true),
    {
        Self {
            app_id: String::from_str(app_id),
            allow_network: true,
            allowed_domains: Vec::new(),
            allow_filesystem: true,
            allowed_paths: Vec::new(),
            allow_ipc: true,
            allow_camera: true,
            allow_microphone: true,
            allow_location: true,
            allow_clipboard: true,
            allow_notifications: true,
            allow_autostart: true,
        }
    }

    pub fn restrictive(app_id: &str) -> (r: Self)
        ensures
            uniform_policy(r, app_id@, false),
    {
        Self {
            app_id: String::from_str(app_id),
            allow_network: false,
            allowed_domains: Vec::new(),
            allow_filesystem: false,
            allowed_paths: Vec::new(),
            allow_ipc: false,
            allow_camera: false,
            allow_microphone: false,
            allow_location: false,
            allow_clipboard: false,
            allow_notifications: false,
            allow_autostart: false,
        }
    }

    /// Check if a domain is allowed for network access.
    pub fn check_domain(&self, domain: &str) -> (r: bool)
        ensures
            r == policy_allows_domain(*self, domain@),
    {
        if !self.allow_network {
            return false;
        }
        if self.allowed_domains.len() == 0 {
            return true;
        }
        let mut i: usize = 0;
        while i < self.allowed_domains.len()
            invariant
                self.allow_network,
                i <= self.allowed_domains@.len(),
                forall|j: int|
                    0 <= j < i ==> !domain_matches(self.allowed_domains@[j]@, domain@),
            decreases self.allowed_domains@.len() - i,
        {
            if pattern_matches(self.allowed_domains[i].as_str(), domain) {
                assert(domain_matches(self.allowed_domains@[i as int]@, domain@));
                return true;
            }
            i = i + 1;
        }
        false
    }

    /// Check if a path is allowed for filesystem access.
    pub fn check_path(&self, path: &str) -> (r: bool)
        ensures
            r == policy_allows_path(*self, path@),
    {
        if !self.allow_filesystem {
            return false;
        }
        if self.allowed_paths.len() == 0 {
            return true;
        }
        let mut i: usize = 0;
        while i < self.allowed_paths.len()
            invariant
                self.allow_filesystem,
                i <= self.allowed_paths@.len(),
                forall|j: int| 0 <= j < i ==> !seq_starts_with(path@, self.allowed_paths@[j]@),
            decreases self.allowed_paths@.len() - i,
        {
            if starts_with(path, self.allowed_paths[i].as_str()) {
                assert(seq_starts_with(path@, self.allowed_paths@[i as int]@));
                return true;
            }
            i = i + 1;
        }
        false
    }
}

/// A policy violation event.
#[derive(Debug, Clone)]
pub struct PolicyViolation {
    pub app_id: String,
    pub permission: String,
    pub resource: String,
    pub timestamp: Timestamp,
}

/// The key of a policy: its application.
pub open spec fn policy_key() -> spec_fn(AppPolicy) -> Seq<char> {
    |p: AppPolicy| p.app_id@
}

/// Policy enforcement engine.
pub struct PolicyEngine {
    policies: Vec<AppPolicy>,
    violations: Vec<PolicyViolation>,
    /// Default policy for unknown apps.
    default_policy: AppPolicy,
}

/// The violation recorded when an access is refused.
pub open spec fn is_violation(
    v: PolicyViolation,
    app_id: Seq<char>,
    permission: Seq<char>,
    resource: Seq<char>,
    at: Timestamp,
) -> bool {
    v.app_id@ == app_id && v.permission@ == permission && v.resource@ == resource && v.timestamp
        == at
}

impl PolicyEngine {
    /// The engine's tables are consistent.
    pub closed spec fn wf(&self) -> bool {
        distinct_by(self.policies@, policy_key())
    }

    /// The per-application policies.
    pub closed spec fn policies(&self) -> Map<Seq<char>, AppPolicy> {
        seq_to_map(self.policies@, policy_key())
    }

    /// The recorded violations, oldest first.
    pub closed spec fn violations(&self) -> Seq<PolicyViolation> {
        self.violations@
    }

    /// The policy applied to applications without one of their own.
    pub closed spec fn default_policy(&self) -> AppPolicy {
        self.default_policy
    }

    /// The policy that governs an application.
    pub open spec fn effective_policy(&self, app_id: Seq<char>) -> AppPolicy {
        if self.policies().contains_key(app_id) {
            self.policies()[app_id]
        } else {
            self.default_policy()
        }
    }

    pub fn new() -> (r: Self)
        ensures
            r.wf(),
            r.policies() == Map::<Seq<char>, AppPolicy>::empty(),
            r.violations() == Seq::<PolicyViolation>::empty(),
            uniform_policy(r.default_policy(), "default"@, true),
    {
        Self {
            policies: Vec::new(),
            violations: Vec::new(),
            default_policy: AppPolicy::permissive("default"),
        }
    }

    /// Set a policy for an app, replacing any earlier one.
    pub fn set_policy(&mut self, policy: AppPolicy)
        requires
            old(self).wf(),
        ensures
            final(self).wf(),
            final(self).policies() == old(self).policies().insert(policy.app_id@, policy),
            final(self).violations() == old(self).violations(),
            final(self).default_policy() == old(self).default_policy(),
    {
        let ghost before = self.policies@;
        match position_of(&self.policies, policy.app_id.as_str()) {
            Some(i) => {
                proof {
                    lemma_seq_to_map_update(before, policy_key(), i as int, policy);
                }
                self.policies.set(i, policy);
            },
            None => {
                proof {
                    lemma_seq_to_map_push(before, policy_key(), policy);
                }
                self.policies.push(policy);
                proof {
                    assert(distinct_by(self.policies@, policy_key())) by {
                        assert forall|a: int, b: int|
                            0 <= a < self.policies@.len() && 0 <= b < self.policies@.len() && a != b
                            implies policy_key()(self.policies@[a]) != policy_key()(self.policies@[b]) by {
                            if a < before.len() && b < before.len() {
                                assert(self.policies@[a] == before[a] && self.policies@[b] == before[b]);
                            } else if a < before.len() {
                                assert(self.policies@[a] == before[a]);
                            } else {
                                assert(self.policies@[b] == before[b]);
                            }
                        }
                    }
                }
            },
        }
    }

    /// Get the policy for an app (or the default).
    pub fn policy_for(&self, app_id: &str) -> (r: &AppPolicy)
        requires
            self.wf(),
        ensures
            *r == self.effective_policy(app_id@),
    {
        proof {
            lemma_seq_to_map_dom(self.policies@, policy_key());
        }
        match position_of(&self.policies, app_id) {
            Some(i) => {
                proof {
                    lemma_seq_to_map_get(self.policies@, policy_key(), i as int);
                }
                &self.policies[i]
            },
            None => &self.default_policy,
        }
    }

    /// Check if an app can access a domain at the given instant; a refusal
    /// is recorded as a violation.
    pub fn check_network_at(&mut self, app_id: &str, domain: &str, now: Timestamp) -> (r: bool)
        requires
            old(self).wf(),
        ensures
            final(self).wf(),
            r == policy_allows_domain(old(self).effective_policy(app_id@), domain@),
            final(self).policies() == old(self).policies(),
            final(self).default_policy() == old(self).default_policy(),
            r ==> final(self).violations() == old(self).violations(),
            !r ==> final(self).violations().len() == old(self).violations().len() + 1
                && final(self).violations().drop_last() == old(self).violations() && is_violation(
                final(self).violations().last(),
                app_id@,
                "network"@,
                domain@,
                now,
            ),
    {
        let allowed = self.policy_for(app_id).check_domain(domain);
        if !allowed {
            self.violations.push(
                PolicyViolation {
                    app_id: String::from_str(app_id),
                    permission: String::from_str("network"),
                    resource: String::from_str(domain),
                    timestamp: now,
                },
            );
            assert(self.violations@.drop_last() =~= old(self).violations@);
        }
        allowed
    }

    /// Check if an app can access a domain now.
    pub fn check_network(&mut self, app_id: &str, domain: &str) -> (r: bool)
        requires
            old(self).wf(),
        ensures
            final(self).wf(),
            r == policy_allows_domain(old(self).effective_policy(app_id@), domain@),
            final(self).policies() == old(self).policies(),
            final(self).default_policy() == old(self).default_policy(),
            r ==> final(self).violations() == old(self).violations(),
            !r ==> final(self).violations().len() == old(self).violations().len() + 1
                && final(self).violations().drop_last() == old(self).violations() && is_violation(
                final(self).violations().last(),
                app_id@,
                "network"@,
                domain@,
                final(self).violations().last().timestamp,
            ),
    {
        let now = now_millis();
        self.check_network_at(app_id, domain, now)
    }

    /// Check if an app can access a file path at the given instant; a
    /// refusal is recorded as a violation.
    pub fn check_path_at(&mut self, app_id: &str, path: &str, now: Timestamp) -> (r: bool)
        requires
            old(self).wf(),
        ensures
            final(self).wf(),
            r == policy_allows_path(old(self).effective_policy(app_id@), path@),
            final(self).policies() == old(self).policies(),
            final(self).default_policy() == old(self).default_policy(),
            r ==> final(self).violations() == old(self).violations(),
            !r ==> final(self).violations().len() == old(self).violations().len() + 1
                && final(self).violations().drop_last() == old(self).violations() && is_violation(
                final(self).violations().last(),
                app_id@,
                "filesystem"@,
                path@,
                now,
            ),
    {
        let allowed = self.policy_for(app_id).check_path(path);
        if !allowed {
            self.violations.push(
                PolicyViolation {
                    app_id: String::from_str(app_id),
                    permission: String::from_str("filesystem"),
                    resource: String::from_str(path),
                    timestamp: now,
                },
            );
            assert(self.violations@.drop_last() =~= old(self).violations@);
        }
        allowed
    }

    /// Check if an app can access a file path now.
    pub fn check_path(&mut self, app_id: &str, path: &str) -> (r: bool)
        requires
            old(self).wf(),
        ensures
            final(self).wf(),
            r == policy_allows_path(old(self).effective_policy(app_id@), path@),
            final(self).policies() == old(self).policies(),
            final(self).default_policy() == old(self).default_policy(),
            r ==> final(self).violations() == old(self).violations(),
            !r ==> final(self).violations().len() == old(self).violations().len() + 1
                && final(self).violations().drop_last() == old(self).violations() && is_violation(
                final(self).violations().last(),
                app_id@,
                "filesystem"@,
                path@,
                final(self).violations().last().timestamp,
            ),
    {
        let now = now_millis();
        self.check_path_at(app_id, path, now)
    }

    /// Set a more restrictive default policy.
    pub fn set_default_restrictive(&mut self)
        requires
            old(self).wf(),
        ensures
            final(self).wf(),
            final(self).policies() == old(self).policies(),
            final(self).violations() == old(self).violations(),
            uniform_policy(final(self).default_policy(), "default"@, false),
    {
        self.default_policy = AppPolicy::restrictive("default");
    }

    pub fn violation_count(&self) -> (r: usize)
        ensures
            r == self.violations().len(),
    {
        self.violations.len()
    }

    pub fn policy_count(&self) -> (r: usize)
        requires
            self.wf(),
        ensures
            r == self.policies().dom().len(),
    {
        proof {
            lemma_seq_to_map_len(self.policies@, policy_key());
        }
        self.policies.len()
    }

    /// The violations of one application, oldest first.
    pub fn violations_for(&self, app_id: &str) -> (r: Vec<&PolicyViolation>)
        ensures
            r@.map_values(|v: &PolicyViolation| *v) == self.violations().filter(
                |v: PolicyViolation| v.app_id@ == app_id@,
            ),
    {
        let ghost pred = |v: PolicyViolation| v.app_id@ == app_id@;
        let mut r: Vec<&PolicyViolation> = Vec::new();
        let mut i: usize = 0;
        while i < self.violations.len()
            invariant
                i <= self.violations@.len(),
                pred == (|v: PolicyViolation| v.app_id@ == app_id@),
                r@.map_values(|v: &PolicyViolation| *v) == self.violations@.take(i as int).filter(pred),
            decreases self.violations@.len() - i,
        {
            proof {
                assert(self.violations@.take(i + 1) =~= self.violations@.take(i as int).push(
                    self.violations@[i as int],
                ));
                self.violations@.take(i as int).lemma_filter_push(self.violations@[i as int], pred);
            }
            if str_eq(self.violations[i].app_id.as_str(), app_id) {
                r.push(&self.violations[i]);
            }
            proof {
                assert(r@.map_values(|v: &PolicyViolation| *v) =~= self.violations@.take(i + 1).filter(pred));
            }
            i = i + 1;
        }
        assert(self.violations@.take(self.violations@.len() as int) =~= self.violations@);
        r
    }
}

impl Default for PolicyEngine {
    fn default() -> (r: Self) {
        Self::new()
    }
}

} // verus!
