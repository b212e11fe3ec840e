//! Data access policy — defines what apps are allowed to access.

use vstd::prelude::*;
use crate::keyed::{first_index, lemma_first_index, lemma_first_index_spec};
use crate::permissions::{Permission, PermissionView, perm_views, permission_listed};
use crate::text::str_eq;

verus! {

/// Policy defining what an app is allowed to access.
#[derive(Debug, Clone)]
pub struct AppPolicy {
    pub app_id: String,
    pub allowed_permissions: Vec<Permission>,
    pub denied_permissions: Vec<Permission>,
    pub max_background_minutes: u32,
    pub network_allowed: bool,
    pub can_autostart: bool,
}

/// A policy as plain data.
pub struct PolicyView {
    pub app_id: Seq<char>,
    pub allowed_permissions: Seq<PermissionView>,
    pub denied_permissions: Seq<PermissionView>,
    pub max_background_minutes: u32,
    pub network_allowed: bool,
    pub can_autostart: bool,
}

impl View for AppPolicy {
    type V = PolicyView;

    open spec fn view(&self) -> PolicyView {
        PolicyView {
            app_id: self.app_id@,
            allowed_permissions: perm_views(self.allowed_permissions@),
            denied_permissions: perm_views(self.denied_permissions@),
            max_background_minutes: self.max_background_minutes,
            network_allowed: self.network_allowed,
            can_autostart: self.can_autostart,
        }
    }
}

/// The outcome of a policy check.
#[derive(Debug, Clone, PartialEq, Eq)]
pub enum PolicyDecision {
    Allowed,
    Denied(String),
}

/// The outcome of a policy check as plain data.
pub enum DecisionView {
    Allowed,
    Denied(Seq<char>),
}

impl View for PolicyDecision {
    type V = DecisionView;

    open spec fn view(&self) -> DecisionView {
        match self {
            PolicyDecision::Allowed => DecisionView::Allowed,
            PolicyDecision::Denied(why) => DecisionView::Denied(why@),
        }
    }
}

/// The policy of `app`.
pub open spec fn policy_for(app: Seq<char>) -> spec_fn(PolicyView) -> bool {
    |p: PolicyView| p.app_id == app
}

/// The policies after adding `p`: it replaces the policy of the same
/// application, or is added.
pub open spec fn with_policy(s: Seq<PolicyView>, p: PolicyView) -> Seq<PolicyView> {
    let k = first_index(s, policy_for(p.app_id));
    if k < 0 {
        s.push(p)
    } else {
        s.update(k, p)
    }
}

/// The decision when no policy decides.
pub open spec fn default_decision(default_deny: bool) -> DecisionView {
    if default_deny {
        DecisionView::Denied("default deny"@)
    } else {
        DecisionView::Allowed
    }
}

/// The decision on `perm` for `app`: an explicit denial wins, then an
/// explicit grant, then the default.
pub open spec fn permission_decision(
    s: Seq<PolicyView>,
    default_deny: bool,
    app: Seq<char>,
    perm: PermissionView,
) -> DecisionView {
    let k = first_index(s, policy_for(app));
    if k >= 0 && s[k].denied_permissions.contains(perm) {
        DecisionView::Denied("explicitly denied"@)
    } else if k >= 0 && s[k].allowed_permissions.contains(perm) {
        DecisionView::Allowed
    } else {
        default_decision(default_deny)
    }
}

/// The decision on network access for `app`: its policy decides, else the
/// default.
pub open spec fn network_decision(s: Seq<PolicyView>, default_deny: bool, app: Seq<char>) -> DecisionView {
    let k = first_index(s, policy_for(app));
    if k >= 0 {
        if s[k].network_allowed {
            DecisionView::Allowed
        } else {
            DecisionView::Denied("network blocked by policy"@)
        }
    } else {
        default_decision(default_deny)
    }
}

/// The decision a policy gives on `perm` by itself, else the default.
pub open spec fn decision_under(p: PolicyView, default_deny: bool, perm: PermissionView) -> DecisionView {
    if p.denied_permissions.contains(perm) {
        DecisionView::Denied("explicitly denied"@)
    } else if p.allowed_permissions.contains(perm) {
        DecisionView::Allowed
    } else {
        default_decision(default_deny)
    }
}

/// After a policy is added for an application, the application's requests
/// are decided by that policy (an explicit denial winning over a grant).
pub proof fn lemma_added_policy_decides(
    s: Seq<PolicyView>,
    default_deny: bool,
    p: PolicyView,
    perm: PermissionView,
)
    ensures
        permission_decision(with_policy(s, p), default_deny, p.app_id, perm) == decision_under(
            p,
            default_deny,
            perm,
        ),
        network_decision(with_policy(s, p), default_deny, p.app_id) == if p.network_allowed {
            DecisionView::Allowed
        } else {
            DecisionView::Denied("network blocked by policy"@)
        },
{
    lemma_first_index_spec(s, policy_for(p.app_id));
    let k = first_index(s, policy_for(p.app_id));
    let t = with_policy(s, p);
    if k < 0 {
        assert forall|j: int| 0 <= j < s.len() implies !policy_for(p.app_id)(#[trigger] t[j]) by {
            assert(t[j] == s[j]);
        }
        lemma_first_index(t, policy_for(p.app_id), s.len() as int);
    } else {
        assert forall|j: int| 0 <= j < k implies !policy_for(p.app_id)(#[trigger] t[j]) by {
            assert(t[j] == s[j]);
        }
        lemma_first_index(t, policy_for(p.app_id), k);
    }
}

/// A permission that an application's policy denies is denied, whatever
/// the policy also grants and whatever the default.
pub proof fn lemma_denial_wins(s: Seq<PolicyView>, default_deny: bool, app: Seq<char>, perm: PermissionView)
    requires
        first_index(s, policy_for(app)) >= 0,
        s[first_index(s, policy_for(app))].denied_permissions.contains(perm),
    ensures
        permission_decision(s, default_deny, app, perm) == DecisionView::Denied("explicitly denied"@),
{
}

/// Without a policy, the default decides every request.
pub proof fn lemma_no_policy_default(s: Seq<PolicyView>, default_deny: bool, app: Seq<char>, perm: PermissionView)
    requires
        forall|i: int| 0 <= i < s.len() ==> (#[trigger] s[i]).app_id != app,
    ensures
        permission_decision(s, default_deny, app, perm) == default_decision(default_deny),
        network_decision(s, default_deny, app) == default_decision(default_deny),
{
    lemma_first_index(s, policy_for(app), s.len() as int);
}

/// Policy engine — evaluates access requests against policies.
pub struct PolicyEngine {
    policies: Vec<AppPolicy>,
    default_deny: bool,
}

impl PolicyEngine {
    /// The policies, in the order first added.
    pub closed spec fn policies(&self) -> Seq<PolicyView> {
        self.policies@.map_values(|p: AppPolicy| p@)
    }

    /// Whether requests no policy decides are denied.
    pub closed spec fn denies_by_default(&self) -> bool {
        self.default_deny
    }

    pub fn new(default_deny: bool) -> (r: Self)
        ensures
            r.policies() == Seq::<PolicyView>::empty(),
            r.denies_by_default() == default_deny,
    {
        let r = Self { policies: Vec::new(), default_deny };
        assert(r.policies() =~= Seq::<PolicyView>::empty());
        r
    }

    fn index_of(&self, app_id: &str) -> (r: Option<usize>)
        ensures
            first_index(self.policies(), policy_for(app_id@)) == match r {
                Some(k) => k as int,
                None => -1,
            },
            match r {
                Some(k) => k < self.policies().len(),
                None => true,
            },
    {
        let ghost s = self.policies();
        let mut k: usize = 0;
        while k < self.policies.len()
            invariant
                k <= self.policies@.len(),
                s == self.policies(),
                forall|j: int| 0 <= j < k ==> !policy_for(app_id@)(#[trigger] s[j]),
            decreases self.policies@.len() - k,
        {
            if str_eq(self.policies[k].app_id.as_str(), app_id) {
                proof {
                    lemma_first_index(s, policy_for(app_id@), k as int);
                }
                return Some(k);
            }
            k = k + 1;
        }
        proof {
            lemma_first_index(s, policy_for(app_id@), k as int);
        }
        None
    }

    /// Add a policy, replacing the application's earlier one.
    pub fn add_policy(&mut self, policy: AppPolicy)
        ensures
            final(self).policies() == with_policy(old(self).policies(), policy@),
            final(self).denies_by_default() == old(self).denies_by_default(),
    {
        let ghost s = self.policies();
        let ghost pv = policy@;
        match self.index_of(policy.app_id.as_str()) {
            Some(k) => {
                self.policies.set(k, policy);
                assert(self.policies() =~= s.update(k as int, pv));
            },
            None => {
                self.policies.push(policy);
                assert(self.policies() =~= s.push(pv));
            },
        }
    }

    fn default_outcome(&self) -> (r: PolicyDecision)
        ensures
            r@ == default_decision(self.denies_by_default()),
    {
        if self.default_deny {
            PolicyDecision::Denied(String::from_str("default deny"))
        } else {
            PolicyDecision::Allowed
        }
    }

    /// Decide whether an application may use a permission.
    pub fn check_permission(&self, app_id: &str, permission: &Permission) -> (r: PolicyDecision)
        ensures
            r@ == permission_decision(self.policies(), self.denies_by_default(), app_id@, permission@),
    {
        match self.index_of(app_id) {
            Some(k) => {
                let p = &self.policies[k];
                if permission_listed(p.denied_permissions.as_slice(), permission) {
                    return PolicyDecision::Denied(String::from_str("explicitly denied"));
                }
                if permission_listed(p.allowed_permissions.as_slice(), permission) {
                    return PolicyDecision::Allowed;
                }
                self.default_outcome()
            },
            None => self.default_outcome(),
        }
    }

    /// Decide whether an application may use the network.
    pub fn check_network(&self, app_id: &str) -> (r: PolicyDecision)
        ensures
            r@ == network_decision(self.policies(), self.denies_by_default(), app_id@),
    {
        match self.index_of(app_id) {
            Some(k) => {
                if self.policies[k].network_allowed {
                    PolicyDecision::Allowed
                } else {
                    PolicyDecision::Denied(String::from_str("network blocked by policy"))
                }
            },
            None => self.default_outcome(),
        }
    }

    pub fn policy_count(&self) -> (r: usize)
        ensures
            r == self.policies().len(),
    {
        self.policies.len()
    }
}

impl Default for PolicyEngine {
    fn default() -> (r: Self)
        ensures
            r.policies() == Seq::<PolicyView>::empty(),
            r.denies_by_default() == false,
    {
        Self::new(false)
    }
}

} // verus!
