//! Per-application network ACL — enforce app-level egress/ingress allow-lists.

use vstd::prelude::*;
use crate::clock::Timestamp;
use crate::keyed::{has_entry, entry_index, lookup, upsert, entry_keys_distinct, lemma_entry_index, lemma_upsert_distinct};
use crate::text::{str_eq, copy_string};

verus! {

/// An IP address: IPv4 as its 32-bit value, IPv6 as its 128-bit value
/// (both in network byte order, most significant bit first).
#[derive(Debug, Clone, Copy, PartialEq, Eq, Structural)]
pub enum IpAddress {
    V4(u32),
    V6(u128),
}

impl IpAddress {
    /// The IPv4 address `a.b.c.d`.
    pub fn v4(a: u8, b: u8, c: u8, d: u8) -> (r: IpAddress)
        ensures
            r == IpAddress::V4((a * 0x100_0000 + b * 0x1_0000 + c * 0x100 + d) as u32),
    {
        IpAddress::V4((a as u32) * 0x100_0000 + (b as u32) * 0x1_0000 + (c as u32) * 0x100 + (d as u32))
    }
}

/// A network ACL rule.
#[derive(Debug, Clone)]
pub struct AclRule {
    pub id: String,
    pub app_id: String,
    pub direction: Direction,
    pub action: Action,
    pub target: Target,
    pub priority: i32,
    pub enabled: bool,
    pub created_at: Timestamp,
}

#[derive(Debug, Clone, Copy, PartialEq, Eq, Structural)]
pub enum Direction {
    Egress,
    Ingress,
    Both,
}

#[derive(Debug, Clone, Copy, PartialEq, Eq, Structural)]
pub enum Action {
    Allow,
    Deny,
    Log,
}

#[derive(Debug, Clone)]
pub enum Target {
    AnyAddress,
    Ip(IpAddress),
    Cidr { network: IpAddress, prefix: u8 },
    Domain(String),
    Port(u16),
    PortRange(u16, u16),
}

/// Result of an ACL check.
#[derive(Debug, Clone, Copy, PartialEq, Eq, Structural)]
pub enum AclDecision {
    Allowed,
    Denied,
    Logged,
    /// No matching rule, default-deny policy.
    DefaultDeny,
}

/// A rule direction covers a connection direction: `Both` covers every
/// direction, any other only itself.
pub open spec fn covers(rule_dir: Direction, actual: Direction) -> bool {
    rule_dir == Direction::Both || rule_dir == actual
}

pub fn direction_matches(rule_dir: &Direction, actual: &Direction) -> (r: bool)
    ensures
        r == covers(*rule_dir, *actual),
{
    matches!(rule_dir, Direction::Both) || *rule_dir == *actual
}

/// The IPv4 netmask of a prefix length: `prefix` one bits, then zeros.
pub open spec fn netmask_v4(prefix: u8) -> u32 {
    if prefix == 0 {
        0
    } else {
        (!0u32) << ((32 - prefix) as u32)
    }
}

/// The IPv6 netmask of a prefix length: `prefix` one bits, then zeros.
pub open spec fn netmask_v6(prefix: u8) -> u128 {
    if prefix == 0 {
        0
    } else {
        (!0u128) << ((128 - prefix) as u32)
    }
}

/// Two IPv4 addresses agree under the netmask of `prefix`.
pub open spec fn prefix_eq_u32(n: u32, a: u32, prefix: u8) -> bool {
    (n & netmask_v4(prefix)) == (a & netmask_v4(prefix))
}

/// Two IPv6 addresses agree under the netmask of `prefix`.
pub open spec fn prefix_eq_u128(n: u128, a: u128, prefix: u8) -> bool {
    (n & netmask_v6(prefix)) == (a & netmask_v6(prefix))
}

/// The prefix length fits the network's address family.
pub open spec fn prefix_valid(network: IpAddress, prefix: u8) -> bool {
    match network {
        IpAddress::V4(_) => prefix <= 32,
        IpAddress::V6(_) => prefix <= 128,
    }
}

/// Two addresses of one family.
pub open spec fn same_family(a: IpAddress, b: IpAddress) -> bool {
    (a is V4 && b is V4) || (a is V6 && b is V6)
}

/// An address lies in a block: same family, and the first `prefix` bits agree.
pub open spec fn in_block(network: IpAddress, prefix: u8, addr: IpAddress) -> bool {
    match (network, addr) {
        (IpAddress::V4(n), IpAddress::V4(a)) => prefix_eq_u32(n, a, prefix),
        (IpAddress::V6(n), IpAddress::V6(a)) => prefix_eq_u128(n, a, prefix),
        _ => false,
    }
}

/// Does `addr` lie in the block `network/prefix`?
pub fn cidr_matches(network: &IpAddress, prefix: u8, addr: &IpAddress) -> (r: bool)
    requires
        same_family(*network, *addr) ==> prefix_valid(*network, prefix),
    ensures
        r == in_block(*network, prefix, *addr),
{
    match (network, addr) {
        (IpAddress::V4(n), IpAddress::V4(a)) => {
            let mask: u32 = if prefix == 0 {
                0
            } else {
                !0u32 << ((32 - prefix) as u32)
            };
            (*n & mask) == (*a & mask)
        },
        (IpAddress::V6(n), IpAddress::V6(a)) => {
            let mask: u128 = if prefix == 0 {
                0
            } else {
                !0u128 << ((128 - prefix) as u32)
            };
            (*n & mask) == (*a & mask)
        },
        _ => false,
    }
}

/// Does a rule's target cover the address and port? A domain target never
/// matches an address.
pub open spec fn target_covers(t: Target, addr: IpAddress, port: u16) -> bool {
    match t {
        Target::AnyAddress => true,
        Target::Ip(ip) => ip == addr,
        Target::Cidr { network, prefix } => in_block(network, prefix, addr),
        Target::Port(p) => p == port,
        Target::PortRange(start, end) => start <= port <= end,
        Target::Domain(_) => false,
    }
}

/// The target's block prefix fits where it is compared with `addr`.
pub open spec fn target_checkable(t: Target, addr: IpAddress) -> bool {
    match t {
        Target::Cidr { network, prefix } => same_family(network, addr) ==> prefix_valid(network, prefix),
        _ => true,
    }
}

pub fn target_matches(target: &Target, addr: &IpAddress, port: u16) -> (r: bool)
    requires
        target_checkable(*target, *addr),
    ensures
        r == target_covers(*target, *addr, port),
{
    match target {
        Target::AnyAddress => true,
        Target::Ip(ip) => *ip == *addr,
        Target::Cidr { network, prefix } => cidr_matches(network, *prefix, addr),
        Target::Port(p) => *p == port,
        Target::PortRange(start, end) => port >= *start && port <= *end,
        Target::Domain(_) => false,
    }
}

/// A rule that applies to the application and direction (before its
/// target is looked at).
pub open spec fn applies(r: AclRule, app_id: Seq<char>, direction: Direction) -> bool {
    r.enabled && r.app_id@ == app_id && covers(r.direction, direction)
}

/// A rule that decides the connection.
pub open spec fn rule_hits(r: AclRule, app_id: Seq<char>, direction: Direction, addr: IpAddress, port: u16) -> bool {
    applies(r, app_id, direction) && target_covers(r.target, addr, port)
}

/// The index of the first rule that decides the connection, if any.
pub open spec fn first_hit(
    rules: Seq<AclRule>,
    app_id: Seq<char>,
    direction: Direction,
    addr: IpAddress,
    port: u16,
) -> Option<int> {
    if exists|i: int| 0 <= i < rules.len() && rule_hits(#[trigger] rules[i], app_id, direction, addr, port) {
        Some(
            choose|i: int|
                0 <= i < rules.len() && rule_hits(#[trigger] rules[i], app_id, direction, addr, port) && forall|j: int|
                    0 <= j < i ==> !rule_hits(#[trigger] rules[j], app_id, direction, addr, port),
        )
    } else {
        None
    }
}

/// The decision of a rule's action.
pub open spec fn decision_of(a: Action) -> AclDecision {
    match a {
        Action::Allow => AclDecision::Allowed,
        Action::Deny => AclDecision::Denied,
        Action::Log => AclDecision::Logged,
    }
}

/// The decision when no rule matches.
pub open spec fn default_decision(a: Action) -> AclDecision {
    match a {
        Action::Allow => AclDecision::Allowed,
        Action::Deny => AclDecision::DefaultDeny,
        Action::Log => AclDecision::Logged,
    }
}

/// Priorities never increase along the rule list.
pub open spec fn priority_sorted(rules: Seq<AclRule>) -> bool {
    forall|i: int, j: int| 0 <= i < j < rules.len() ==> rules[i].priority >= rules[j].priority
}

/// Where a rule of priority `p` goes: after every rule of priority `p` or
/// more.
pub open spec fn insert_position(rules: Seq<AclRule>, p: i32) -> int {
    if exists|k: int| 0 <= k < rules.len() && (#[trigger] rules[k]).priority < p {
        choose|k: int|
            0 <= k < rules.len() && (#[trigger] rules[k]).priority < p && forall|j: int|
                0 <= j < k ==> (#[trigger] rules[j]).priority >= p
    } else {
        rules.len() as int
    }
}

/// A rule with the given id.
pub open spec fn has_id(id: Seq<char>) -> spec_fn(AclRule) -> bool {
    |r: AclRule| r.id@ == id
}

/// A rule of the given application.
pub open spec fn of_app(app_id: Seq<char>) -> spec_fn(AclRule) -> bool {
    |r: AclRule| r.app_id@ == app_id
}

/// A rule that no check has hit.
pub open spec fn never_hit(hits: Seq<(Seq<char>, u64)>) -> spec_fn(AclRule) -> bool {
    |r: AclRule| !has_entry(hits, r.id@)
}

/// The rules behind a list of references.
pub open spec fn rule_values(s: Seq<&AclRule>) -> Seq<AclRule> {
    s.map_values(|r: &AclRule| *r)
}

/// Per-app network ACL engine.
pub struct NetworkAcl {
    rules: Vec<AclRule>,
    default_action: Action,
    hit_counts: Vec<(String, u64)>,
}

impl NetworkAcl {
    /// The rules, highest priority first.
    pub closed spec fn rules(&self) -> Seq<AclRule> {
        self.rules@
    }

    /// What happens when no rule matches.
    pub closed spec fn default_action(&self) -> Action {
        self.default_action
    }

    /// Hits per rule id, in order of first hit.
    pub closed spec fn hits(&self) -> Seq<(Seq<char>, u64)> {
        self.hit_counts@.map_values(|e: (String, u64)| (e.0@, e.1))
    }

    /// Rules stay sorted by priority and hit counts have one entry per id.
    pub open spec fn wf(&self) -> bool {
        priority_sorted(self.rules()) && entry_keys_distinct(self.hits())
    }

    pub fn new(default_action: Action) -> (r: Self)
        ensures
            r.wf(),
            r.rules() == Seq::<AclRule>::empty(),
            r.default_action() == default_action,
            r.hits() == Seq::<(Seq<char>, u64)>::empty(),
    {
        let r = Self { rules: Vec::new(), default_action, hit_counts: Vec::new() };
        assert(r.hits() =~= Seq::<(Seq<char>, u64)>::empty());
        r
    }

    /// Default-deny is the recommended posture.
    pub fn default_deny() -> (r: Self)
        ensures
            r.wf(),
            r.rules() == Seq::<AclRule>::empty(),
            r.default_action() == Action::Deny,
            r.hits() == Seq::<(Seq<char>, u64)>::empty(),
    {
        Self::new(Action::Deny)
    }

    /// Default-allow for testing.
    pub fn default_allow() -> (r: Self)
        ensures
            r.wf(),
            r.rules() == Seq::<AclRule>::empty(),
            r.default_action() == Action::Allow,
            r.hits() == Seq::<(Seq<char>, u64)>::empty(),
    {
        Self::new(Action::Allow)
    }

    /// Add a rule after every rule of the same or higher priority.
    pub fn add_rule(&mut self, rule: AclRule)
        requires
            old(self).wf(),
        ensures
            final(self).wf(),
            final(self).rules() == old(self).rules().insert(insert_position(old(self).rules(), rule.priority), rule),
            final(self).default_action() == old(self).default_action(),
            final(self).hits() == old(self).hits(),
    {
        let ghost rs = self.rules@;
        let mut k: usize = 0;
        while k < self.rules.len() && self.rules[k].priority >= rule.priority
            invariant
                k <= self.rules@.len(),
                rs == self.rules@,
                forall|j: int| 0 <= j < k ==> (#[trigger] rs[j]).priority >= rule.priority,
            decreases self.rules@.len() - k,
        {
            k = k + 1;
        }
        proof {
            lemma_insert_position(rs, rule.priority, k as int);
        }
        let ghost rv = rule;
        self.rules.insert(k, rule);
        proof {
            lemma_insert_sorted(rs, k as int, rv);
        }
    }

    /// Remove every rule with the given id; true when one was removed.
    pub fn remove_rule(&mut self, rule_id: &str) -> (r: bool)
        requires
            old(self).wf(),
        ensures
            final(self).wf(),
            final(self).rules() == old(self).rules().filter(|x: AclRule| !has_id(rule_id@)(x)),
            r == exists|i: int| 0 <= i < old(self).rules().len() && (#[trigger] old(self).rules()[i]).id@ == rule_id@,
            final(self).default_action() == old(self).default_action(),
            final(self).hits() == old(self).hits(),
    {
        let ghost rs = self.rules@;
        let ghost pred = |x: AclRule| !has_id(rule_id@)(x);
        let mut kept: Vec<AclRule> = Vec::new();
        let mut found = false;
        let mut old_rules: Vec<AclRule> = Vec::new();
        std::mem::swap(&mut old_rules, &mut self.rules);
        let mut i: usize = 0;
        proof {
            crate::keyed::lemma_filter_take_zero(rs, pred);
        }
        let n = old_rules.len();
        let mut rest = old_rules;
        while rest.len() > 0
            invariant
                rs.len() == n,
                rest@.len() + i == n,
                rest@ == rs.skip(i as int),
                pred == (|x: AclRule| !has_id(rule_id@)(x)),
                kept@ == rs.take(i as int).filter(pred),
                found == exists|j: int| 0 <= j < i && (#[trigger] rs[j]).id@ == rule_id@,
            decreases rest@.len(),
        {
            let ghost before = rest@;
            let x = rest.remove(0);
            proof {
                assert(x == rs[i as int]);
                assert(rest@ =~= rs.skip(i + 1));
                assert(rs.take(i + 1) =~= rs.take(i as int).push(x));
                rs.take(i as int).lemma_filter_push(x, pred);
            }
            if str_eq(x.id.as_str(), rule_id) {
                found = true;
            } else {
                kept.push(x);
            }
            i = i + 1;
        }
        assert(rs.take(n as int) =~= rs);
        proof {
            rs.lemma_filter_len(pred);
            assert forall|a: int, b: int| 0 <= a < b < kept@.len() implies kept@[a].priority >= kept@[b].priority by {
                lemma_filter_keeps_order(rs, pred, a, b);
            }
        }
        self.rules = kept;
        found
    }

    /// Enable or disable the first rule with the given id; false when there
    /// is none.
    pub fn set_enabled(&mut self, rule_id: &str, enabled: bool) -> (r: bool)
        requires
            old(self).wf(),
        ensures
            final(self).wf(),
            r == exists|i: int| 0 <= i < old(self).rules().len() && (#[trigger] old(self).rules()[i]).id@ == rule_id@,
            r ==> exists|i: int|
                0 <= i < old(self).rules().len() && (#[trigger] old(self).rules()[i]).id@ == rule_id@ && (forall|j: int|
                    0 <= j < i ==> (#[trigger] old(self).rules()[j]).id@ != rule_id@) && final(self).rules()
                    == old(self).rules().update(i, AclRule { enabled, ..old(self).rules()[i] }),
            !r ==> final(self).rules() == old(self).rules(),
            final(self).default_action() == old(self).default_action(),
            final(self).hits() == old(self).hits(),
    {
        let mut i: usize = 0;
        while i < self.rules.len()
            invariant
                i <= self.rules@.len(),
                self.rules@ == old(self).rules@,
                self.hit_counts@ == old(self).hit_counts@,
                self.default_action == old(self).default_action,
                old(self).wf(),
                forall|j: int| 0 <= j < i ==> (#[trigger] self.rules@[j]).id@ != rule_id@,
            decreases self.rules@.len() - i,
        {
            if str_eq(self.rules[i].id.as_str(), rule_id) {
                let ghost before = self.rules@;
                let mut placeholder = AclRule {
                    id: String::new(),
                    app_id: String::new(),
                    direction: Direction::Both,
                    action: Action::Log,
                    target: Target::AnyAddress,
                    priority: 0,
                    enabled: false,
                    created_at: 0,
                };
                std::mem::swap(&mut placeholder, &mut self.rules[i]);
                placeholder.enabled = enabled;
                std::mem::swap(&mut placeholder, &mut self.rules[i]);
                proof {
                    assert(self.rules@ =~= before.update(i as int, AclRule { enabled, ..before[i as int] }));
                    assert forall|a: int, b: int| 0 <= a < b < self.rules@.len() implies self.rules@[a].priority
                        >= self.rules@[b].priority by {
                        assert(priority_sorted(old(self).rules()));
                        assert(before[a].priority >= before[b].priority);
                    }
                    assert(self.hits() == old(self).hits());
                }
                return true;
            }
            i = i + 1;
        }
        false
    }

    fn bump_hits(&mut self, rule_id: &String)
        requires
            old(self).wf(),
            lookup(old(self).hits(), rule_id@) matches Some(c) ==> c < u64::MAX,
        ensures
            final(self).wf(),
            final(self).hits() == upsert(
                old(self).hits(),
                rule_id@,
                match lookup(old(self).hits(), rule_id@) {
                    Some(c) => (c + 1) as u64,
                    None => 1u64,
                },
            ),
            final(self).rules() == old(self).rules(),
            final(self).default_action() == old(self).default_action(),
    {
        let ghost h = self.hits();
        assert(entry_keys_distinct(h));
        let mut i: usize = 0;
        while i < self.hit_counts.len()
            invariant
                i <= self.hit_counts@.len(),
                h == self.hits(),
                h == old(self).hits(),
                self.hit_counts@ == old(self).hit_counts@,
                self.rules@ == old(self).rules@,
                self.default_action == old(self).default_action,
                old(self).wf(),
                lookup(h, rule_id@) matches Some(c) ==> c < u64::MAX,
                forall|j: int| 0 <= j < i ==> (#[trigger] self.hit_counts@[j]).0@ != rule_id@,
            decreases self.hit_counts@.len() - i,
        {
            if str_eq(self.hit_counts[i].0.as_str(), rule_id.as_str()) {
                proof {
                    assert(h[i as int] == (self.hit_counts@[i as int].0@, self.hit_counts@[i as int].1));
                    lemma_entry_index(h, i as int);
                }
                let name = copy_string(&self.hit_counts[i].0);
                let c = self.hit_counts[i].1;
                self.hit_counts.set(i, (name, c + 1));
                proof {
                    assert(self.hits() =~= upsert(h, rule_id@, (c + 1) as u64));
                    lemma_upsert_distinct(h, rule_id@, (c + 1) as u64);
                }
                return;
            }
            i = i + 1;
        }
        proof {
            if has_entry(h, rule_id@) {
                let j = choose|j: int| 0 <= j < h.len() && (#[trigger] h[j]).0 == rule_id@;
                assert(h[j].0 == self.hit_counts@[j].0@);
            }
        }
        self.hit_counts.push((copy_string(rule_id), 1));
        proof {
            assert(self.hits() =~= upsert(h, rule_id@, 1u64));
            lemma_upsert_distinct(h, rule_id@, 1u64);
        }
    }

    /// Check whether an app's connection is permitted: the first enabled
    /// rule of the app whose direction and target match decides, and its
    /// hit count grows; without one the default action decides.
    pub fn check(&mut self, app_id: &str, direction: &Direction, addr: &IpAddress, port: u16) -> (r: AclDecision)
        requires
            old(self).wf(),
            forall|i: int|
                0 <= i < old(self).rules().len() && applies(#[trigger] old(self).rules()[i], app_id@, *direction)
                    ==> target_checkable(old(self).rules()[i].target, *addr),
            forall|i: int|
                0 <= i < old(self).rules().len() && #[trigger] rule_hits(old(self).rules()[i], app_id@, *direction, *addr, port)
                    ==> (lookup(old(self).hits(), old(self).rules()[i].id@) matches Some(c) ==> c < u64::MAX),
        ensures
            final(self).wf(),
            final(self).rules() == old(self).rules(),
            final(self).default_action() == old(self).default_action(),
            match first_hit(old(self).rules(), app_id@, *direction, *addr, port) {
                Some(i) => {
                    &&& r == decision_of(old(self).rules()[i].action)
                    &&& final(self).hits() == upsert(
                        old(self).hits(),
                        old(self).rules()[i].id@,
                        match lookup(old(self).hits(), old(self).rules()[i].id@) {
                            Some(c) => (c + 1) as u64,
                            None => 1u64,
                        },
                    )
                },
                None => r == default_decision(old(self).default_action()) && final(self).hits() == old(self).hits(),
            },
    {
        let mut i: usize = 0;
        while i < self.rules.len()
            invariant
                i <= self.rules@.len(),
                self.rules@ == old(self).rules@,
                self.hit_counts@ == old(self).hit_counts@,
                self.default_action == old(self).default_action,
                old(self).wf(),
                forall|k: int|
                    0 <= k < self.rules@.len() && applies(#[trigger] self.rules@[k], app_id@, *direction)
                        ==> target_checkable(self.rules@[k].target, *addr),
                forall|k: int|
                    0 <= k < self.rules@.len() && #[trigger] rule_hits(self.rules@[k], app_id@, *direction, *addr, port)
                        ==> (lookup(old(self).hits(), self.rules@[k].id@) matches Some(c) ==> c < u64::MAX),
                forall|j: int| 0 <= j < i ==> !rule_hits(#[trigger] self.rules@[j], app_id@, *direction, *addr, port),
            decreases self.rules@.len() - i,
        {
            let rule = &self.rules[i];
            if rule.enabled && str_eq(rule.app_id.as_str(), app_id) && direction_matches(&rule.direction, direction)
                && target_matches(&rule.target, addr, port) {
                let id = copy_string(&rule.id);
                let action = rule.action;
                proof {
                    assert(rule_hits(self.rules@[i as int], app_id@, *direction, *addr, port));
                    let c = first_hit(self.rules@, app_id@, *direction, *addr, port);
                    let w = choose|w: int|
                        0 <= w < self.rules@.len() && rule_hits(#[trigger] self.rules@[w], app_id@, *direction, *addr, port)
                            && forall|j: int| 0 <= j < w ==> !rule_hits(#[trigger] self.rules@[j], app_id@, *direction, *addr, port);
                    assert(c == Some(w));
                    if w < i {
                        assert(!rule_hits(self.rules@[w], app_id@, *direction, *addr, port));
                    }
                    if w > i {
                        assert(!rule_hits(self.rules@[i as int], app_id@, *direction, *addr, port));
                    }
                }
                self.bump_hits(&id);
                return match action {
                    Action::Allow => AclDecision::Allowed,
                    Action::Deny => AclDecision::Denied,
                    Action::Log => AclDecision::Logged,
                };
            }
            i = i + 1;
        }
        match self.default_action {
            Action::Allow => AclDecision::Allowed,
            Action::Deny => AclDecision::DefaultDeny,
            Action::Log => AclDecision::Logged,
        }
    }

    /// All rules for a given app, in priority order.
    pub fn rules_for(&self, app_id: &str) -> (r: Vec<&AclRule>)
        ensures
            rule_values(r@) == self.rules().filter(of_app(app_id@)),
    {
        let ghost pred = of_app(app_id@);
        let mut r: Vec<&AclRule> = Vec::new();
        let mut i: usize = 0;
        proof {
            crate::keyed::lemma_filter_take_zero(self.rules@, pred);
            assert(rule_values(r@) =~= Seq::<AclRule>::empty());
        }
        while i < self.rules.len()
            invariant
                i <= self.rules@.len(),
                pred == of_app(app_id@),
                rule_values(r@) == self.rules@.take(i as int).filter(pred),
            decreases self.rules@.len() - i,
        {
            proof {
                assert(self.rules@.take(i + 1) =~= self.rules@.take(i as int).push(self.rules@[i as int]));
                self.rules@.take(i as int).lemma_filter_push(self.rules@[i as int], pred);
            }
            let ghost rb = r@;
            if str_eq(self.rules[i].app_id.as_str(), app_id) {
                r.push(&self.rules[i]);
                assert(rule_values(r@) =~= rule_values(rb).push(self.rules@[i as int]));
            }
            i = i + 1;
        }
        assert(self.rules@.take(self.rules@.len() as int) =~= self.rules@);
        r
    }

    pub fn rule_count(&self) -> (r: usize)
        ensures
            r == self.rules().len(),
    {
        self.rules.len()
    }

    /// How often the rule with the given id decided a check.
    pub fn hit_count(&self, rule_id: &str) -> (r: u64)
        requires
            self.wf(),
        ensures
            r == match lookup(self.hits(), rule_id@) {
                Some(c) => c,
                None => 0u64,
            },
    {
        let ghost h = self.hits();
        let mut i: usize = 0;
        while i < self.hit_counts.len()
            invariant
                i <= self.hit_counts@.len(),
                h == self.hits(),
                entry_keys_distinct(h),
                forall|j: int| 0 <= j < i ==> (#[trigger] self.hit_counts@[j]).0@ != rule_id@,
            decreases self.hit_counts@.len() - i,
        {
            if str_eq(self.hit_counts[i].0.as_str(), rule_id) {
                proof {
                    assert(h[i as int] == (self.hit_counts@[i as int].0@, self.hit_counts@[i as int].1));
                    lemma_entry_index(h, i as int);
                }
                return self.hit_counts[i].1;
            }
            i = i + 1;
        }
        proof {
            if has_entry(h, rule_id@) {
                let j = choose|j: int| 0 <= j < h.len() && (#[trigger] h[j]).0 == rule_id@;
                assert(h[j].0 == self.hit_counts@[j].0@);
            }
        }
        0
    }

    fn was_hit(&self, rule_id: &String) -> (r: bool)
        ensures
            r == has_entry(self.hits(), rule_id@),
    {
        let ghost h = self.hits();
        let mut i: usize = 0;
        while i < self.hit_counts.len()
            invariant
                i <= self.hit_counts@.len(),
                h == self.hits(),
                forall|j: int| 0 <= j < i ==> (#[trigger] self.hit_counts@[j]).0@ != rule_id@,
            decreases self.hit_counts@.len() - i,
        {
            if str_eq(self.hit_counts[i].0.as_str(), rule_id.as_str()) {
                assert(h[i as int].0 == rule_id@);
                return true;
            }
            i = i + 1;
        }
        proof {
            if has_entry(h, rule_id@) {
                let j = choose|j: int| 0 <= j < h.len() && (#[trigger] h[j]).0 == rule_id@;
                assert(h[j].0 == self.hit_counts@[j].0@);
            }
        }
        false
    }

    /// Rules that have never been hit — candidates for removal.
    pub fn unused_rules(&self) -> (r: Vec<&AclRule>)
        ensures
            rule_values(r@) == self.rules().filter(never_hit(self.hits())),
    {
        let ghost pred = never_hit(self.hits());
        let mut r: Vec<&AclRule> = Vec::new();
        let mut i: usize = 0;
        proof {
            crate::keyed::lemma_filter_take_zero(self.rules@, pred);
            assert(rule_values(r@) =~= Seq::<AclRule>::empty());
        }
        while i < self.rules.len()
            invariant
                i <= self.rules@.len(),
                pred == never_hit(self.hits()),
                rule_values(r@) == self.rules@.take(i as int).filter(pred),
            decreases self.rules@.len() - i,
        {
            proof {
                assert(self.rules@.take(i + 1) =~= self.rules@.take(i as int).push(self.rules@[i as int]));
                self.rules@.take(i as int).lemma_filter_push(self.rules@[i as int], pred);
            }
            let ghost rb = r@;
            if !self.was_hit(&self.rules[i].id) {
                r.push(&self.rules[i]);
                assert(rule_values(r@) =~= rule_values(rb).push(self.rules@[i as int]));
            }
            i = i + 1;
        }
        assert(self.rules@.take(self.rules@.len() as int) =~= self.rules@);
        r
    }
}

/// The first position whose rule has a lower priority than `p` (or the
/// end) is the insertion position.
pub proof fn lemma_insert_position(rs: Seq<AclRule>, p: i32, k: int)
    requires
        0 <= k <= rs.len(),
        forall|j: int| 0 <= j < k ==> (#[trigger] rs[j]).priority >= p,
        k < rs.len() ==> rs[k].priority < p,
    ensures
        insert_position(rs, p) == k,
{
    if k < rs.len() {
        let c = insert_position(rs, p);
        assert(rs[k].priority < p);
        if c < k {
            assert(rs[c].priority >= p);
        }
        if c > k {
            assert(rs[k].priority >= p);
        }
    } else {
        assert(!exists|m: int| 0 <= m < rs.len() && (#[trigger] rs[m]).priority < p);
    }
}

/// Inserting a rule at its insertion position keeps the list sorted.
pub proof fn lemma_insert_sorted(rs: Seq<AclRule>, k: int, rule: AclRule)
    requires
        priority_sorted(rs),
        0 <= k <= rs.len(),
        forall|j: int| 0 <= j < k ==> (#[trigger] rs[j]).priority >= rule.priority,
        k < rs.len() ==> rs[k].priority < rule.priority,
    ensures
        priority_sorted(rs.insert(k, rule)),
{
    let t = rs.insert(k, rule);
    assert forall|i: int, j: int| 0 <= i < j < t.len() implies t[i].priority >= t[j].priority by {
        if j < k {
            assert(t[i] == rs[i] && t[j] == rs[j]);
        } else if j == k {
            assert(t[i] == rs[i]);
        } else if i < k {
            assert(t[i] == rs[i] && t[j] == rs[j - 1]);
        } else if i == k {
            assert(t[j] == rs[j - 1]);
            if j - 1 > k {
                assert(rs[k].priority >= rs[j - 1].priority);
            }
        } else {
            assert(t[i] == rs[i - 1] && t[j] == rs[j - 1]);
        }
    }
}

/// Filtering keeps the relative order of the kept elements: any two of
/// them come from increasing positions of the unfiltered sequence.
pub proof fn lemma_filter_keeps_order(s: Seq<AclRule>, pred: spec_fn(AclRule) -> bool, a: int, b: int)
    requires
        priority_sorted(s),
        0 <= a < b < s.filter(pred).len(),
    ensures
        s.filter(pred)[a].priority >= s.filter(pred)[b].priority,
    decreases s.len(),
{
    reveal(Seq::filter);
    let q = s.drop_last();
    assert(priority_sorted(q)) by {
        assert forall|i: int, j: int| 0 <= i < j < q.len() implies q[i].priority >= q[j].priority by {
            assert(q[i] == s[i] && q[j] == s[j]);
        }
    }
    q.lemma_filter_len(pred);
    if pred(s.last()) && b == s.filter(pred).len() - 1 {
        assert(s.filter(pred)[b] == s.last());
        assert(s.filter(pred)[a] == q.filter(pred)[a]);
        assert(q.filter(pred).contains(q.filter(pred)[a]));
        broadcast use vstd::seq_lib::group_filter_ensures;
        let x = q.filter(pred)[a];
        assert(q.filter(pred).contains(x));
        let k = lemma_filter_index(q, pred, a);
        assert(q[k].priority >= s[s.len() - 1].priority);
    } else {
        lemma_filter_keeps_order(q, pred, a, b);
        if pred(s.last()) {
            assert(s.filter(pred)[a] == q.filter(pred)[a]);
            assert(s.filter(pred)[b] == q.filter(pred)[b]);
        }
    }
}

/// Each element of a filtered sequence sits somewhere in the unfiltered sequence.
pub proof fn lemma_filter_index(s: Seq<AclRule>, pred: spec_fn(AclRule) -> bool, a: int) -> (k: int)
    requires
        0 <= a < s.filter(pred).len(),
    ensures
        0 <= k < s.len(),
        s[k] == s.filter(pred)[a],
    decreases s.len(),
{
    reveal(Seq::filter);
    let q = s.drop_last();
    q.lemma_filter_len(pred);
    if pred(s.last()) && a == s.filter(pred).len() - 1 {
        s.len() - 1
    } else {
        if pred(s.last()) {
            assert(s.filter(pred)[a] == q.filter(pred)[a]);
        }
        let k = lemma_filter_index(q, pred, a);
        assert(q[k] == s[k]);
        k
    }
}

} // verus!

verus! {

/// The decision on a connection that no enabled rule of the application
/// covers is the default action's: a default of Allow allows it, Deny
/// denies it by default, Log logs it.
pub proof fn lemma_no_rule_default(
    rules: Seq<AclRule>,
    default_action: Action,
    app_id: Seq<char>,
    direction: Direction,
    addr: IpAddress,
    port: u16,
)
    ensures
        (forall|i: int| 0 <= i < rules.len() ==> !rule_hits(#[trigger] rules[i], app_id, direction, addr, port))
            ==> {
            let d = match first_hit(rules, app_id, direction, addr, port) {
                Some(i) => decision_of(rules[i].action),
                None => default_decision(default_action),
            };
            &&& default_action == Action::Allow ==> d == AclDecision::Allowed
            &&& default_action == Action::Deny ==> d == AclDecision::DefaultDeny
            &&& default_action == Action::Log ==> d == AclDecision::Logged
        },
{
}

} // verus!
