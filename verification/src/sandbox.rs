//! App sandboxing — restrict what apps can access using Linux namespaces,
//! seccomp, and Bubblewrap-style isolation.

use vstd::prelude::*;
use crate::bounded::{keep_last, push_bounded};
use crate::clock::{Timestamp, now_millis};
use crate::keyed::{Keyed, position_of, distinct_by, seq_to_map, lemma_seq_to_map_dom, lemma_seq_to_map_get, lemma_seq_to_map_push, lemma_seq_to_map_update, lemma_seq_to_map_remove, lemma_seq_to_map_len};
use crate::paths::{path_prefix, path_starts_with};
use crate::ranking::{is_top_n, top_n};
use crate::tally::{is_count_tally, count_add, all_ones};
use crate::text::{str_eq, concat2, u64_to_decimal, decimal};

verus! {

/// Isolation level for sandboxed applications.
#[derive(Debug, Clone, Copy, PartialEq, Eq, PartialOrd, Ord, Structural)]
pub enum IsolationLevel {
    /// No isolation — app runs with full access.
    NoIsolation,
    /// Path-based restrictions only.
    Basic,
    /// Network + path restrictions.
    Standard,
    /// Full isolation: separate mount/PID/network namespace.
    Strict,
    /// Maximum: Strict + seccomp + no IPC + read-only root.
    Paranoid,
}

/// Sandbox profile defining what an application can and cannot do. The
/// path and name lists are sets: their order carries no meaning.
#[derive(Debug, Clone)]
pub struct SandboxProfile {
    pub app_id: String,
    pub isolation_level: IsolationLevel,
    pub allowed_paths: Vec<String>,
    pub denied_paths: Vec<String>,
    pub readonly_paths: Vec<String>,
    pub allowed_network: bool,
    pub allowed_ports: Vec<u16>,
    pub allowed_ipc: bool,
    pub max_memory_mb: u64,
    pub max_cpu_percent: u32,
    pub max_file_descriptors: u32,
    pub max_processes: u32,
    pub allow_dbus: bool,
    pub allow_x11: bool,
    pub allow_wayland: bool,
    pub allow_audio: bool,
    pub allow_gpu: bool,
    pub environment_whitelist: Vec<String>,
}

impl Keyed for SandboxProfile {
    open spec fn key(&self) -> Seq<char> {
        self.app_id@
    }

    fn key_str(&self) -> (k: &str) {
        self.app_id.as_str()
    }
}

/// The characters of each string of a sequence.
pub open spec fn strings_view(v: Seq<String>) -> Seq<Seq<char>> {
    v.map_values(|s: String| s@)
}

/// Some path of `list` is a component prefix of `path`.
pub open spec fn under_any(list: Seq<String>, path: Seq<char>) -> bool {
    exists|i: int| 0 <= i < list.len() && path_prefix(path, (#[trigger] list[i])@)
}

/// The access verdict of a profile.
pub open spec fn profile_can_access(p: SandboxProfile, path: Seq<char>) -> bool {
    if under_any(p.denied_paths@, path) {
        false
    } else if p.allowed_paths@.len() == 0 {
        true
    } else {
        under_any(p.allowed_paths@, path) || under_any(p.readonly_paths@, path)
    }
}

/// A path is read-only: under a read-only path and under no allowed path.
pub open spec fn profile_is_readonly(p: SandboxProfile, path: Seq<char>) -> bool {
    under_any(p.readonly_paths@, path) && !under_any(p.allowed_paths@, path)
}

/// The port verdict of a profile.
pub open spec fn profile_can_use_port(p: SandboxProfile, port: u16) -> bool {
    p.allowed_network && (p.allowed_ports@.len() == 0 || p.allowed_ports@.contains(port))
}

/// The namespace arguments of an isolation level.
pub open spec fn isolation_args(l: IsolationLevel) -> Seq<Seq<char>> {
    match l {
        IsolationLevel::NoIsolation => Seq::empty(),
        IsolationLevel::Basic => Seq::empty(),
        IsolationLevel::Standard => seq!["--unshare-net"@],
        IsolationLevel::Strict => seq!["--unshare-pid"@, "--unshare-net"@, "--unshare-ipc"@],
        IsolationLevel::Paranoid => seq!["--unshare-all"@, "--die-with-parent"@],
    }
}

/// `flag path path` for each path, in order.
pub open spec fn bind_args(flag: Seq<char>, paths: Seq<String>) -> Seq<Seq<char>>
    decreases paths.len(),
{
    if paths.len() == 0 {
        Seq::empty()
    } else {
        bind_args(flag, paths.drop_last()) + seq![flag, paths.last()@, paths.last()@]
    }
}

/// The Wayland socket bind for a display name, when Wayland is allowed and
/// a display is known.
pub open spec fn wayland_args(allow: bool, display: Option<Seq<char>>) -> Seq<Seq<char>> {
    if allow && display is Some {
        let path = "/run/user/1000/"@ + display->0;
        seq!["--bind"@, path, path]
    } else {
        Seq::empty()
    }
}

/// The Bubblewrap command line of a profile.
pub open spec fn bwrap_args(p: SandboxProfile, display: Option<Seq<char>>) -> Seq<Seq<char>> {
    isolation_args(p.isolation_level) + bind_args("--ro-bind"@, p.readonly_paths@) + bind_args(
        "--bind"@,
        p.allowed_paths@,
    ) + seq!["--proc"@, "/proc"@, "--dev"@, "/dev"@] + (if p.allow_x11 {
        seq!["--bind"@, "/tmp/.X11-unix"@, "/tmp/.X11-unix"@]
    } else {
        Seq::empty()
    }) + wayland_args(p.allow_wayland, display)
}

fn any_under(list: &Vec<String>, path: &str) -> (r: bool)
    ensures
        r == under_any(list@, path@),
{
    let mut i: usize = 0;
    while i < list.len()
        invariant
            i <= list@.len(),
            forall|j: int| 0 <= j < i ==> !path_prefix(path@, list@[j]@),
        decreases list@.len() - i,
    {
        if path_starts_with(path, list[i].as_str()) {
            assert(path_prefix(path@, list@[i as int]@));
            return true;
        }
        i = i + 1;
    }
    false
}

fn push_str(v: &mut Vec<String>, s: &str)
    ensures
        strings_view(final(v)@) == strings_view(old(v)@).push(s@),
{
    v.push(String::from_str(s));
    assert(strings_view(v@) =~= strings_view(old(v)@).push(s@));
}

fn push_strings(v: &mut Vec<String>, Ghost(items): Ghost<Seq<Seq<char>>>, list: &Vec<String>, flag: &str)
    requires
        strings_view(old(v)@) == items,
    ensures
        strings_view(final(v)@) == items + bind_args(flag@, list@),
{
    let mut i: usize = 0;
    while i < list.len()
        invariant
            i <= list@.len(),
            strings_view(v@) == items + bind_args(flag@, list@.take(i as int)),
        decreases list@.len() - i,
    {
        proof {
            assert(list@.take(i + 1).drop_last() =~= list@.take(i as int));
        }
        push_str(v, flag);
        push_str(v, list[i].as_str());
        push_str(v, list[i].as_str());
        assert(strings_view(v@) =~= items + bind_args(flag@, list@.take(i + 1)));
        i = i + 1;
    }
    assert(list@.take(list@.len() as int) =~= list@);
}

impl SandboxProfile {
    /// Create a restrictive sandbox — blocks most access.
    pub fn restrictive(app_id: &str) -> (r: Self)
        ensures
            r.app_id@ == app_id@,
            r.isolation_level == IsolationLevel::Strict,
            strings_view(r.allowed_paths@) == seq!["/usr/lib"@, "/usr/share"@, "/lib"@],
            strings_view(r.denied_paths@) == seq![
                "/etc/shadow"@,
                "/etc/gshadow"@,
                "/root"@,
                "/home"@,
                "/boot"@,
                "/proc/kcore"@,
            ],
            strings_view(r.readonly_paths@) == seq!["/etc"@, "/usr"@],
            !r.allowed_network,
            r.allowed_ports@.len() == 0,
            !r.allowed_ipc,
            r.max_memory_mb == 256,
            r.max_cpu_percent == 25,
            r.max_file_descriptors == 256,
            r.max_processes == 10,
            !r.allow_dbus && !r.allow_x11 && !r.allow_wayland && !r.allow_audio && !r.allow_gpu,
            strings_view(r.environment_whitelist@) == seq!["PATH"@, "LANG"@, "HOME"@, "USER"@],
    {
        let mut allowed: Vec<String> = Vec::new();
        let mut denied: Vec<String> = Vec::new();
        let mut readonly: Vec<String> = Vec::new();
        let mut env: Vec<String> = Vec::new();
        assert(strings_view(allowed@) =~= Seq::<Seq<char>>::empty());
        assert(strings_view(denied@) =~= Seq::<Seq<char>>::empty());
        assert(strings_view(readonly@) =~= Seq::<Seq<char>>::empty());
        assert(strings_view(env@) =~= Seq::<Seq<char>>::empty());
        push_str(&mut allowed, "/usr/lib");
        push_str(&mut allowed, "/usr/share");
        push_str(&mut allowed, "/lib");
        push_str(&mut denied, "/etc/shadow");
        push_str(&mut denied, "/etc/gshadow");
        push_str(&mut denied, "/root");
        push_str(&mut denied, "/home");
        push_str(&mut denied, "/boot");
        push_str(&mut denied, "/proc/kcore");
        push_str(&mut readonly, "/etc");
        push_str(&mut readonly, "/usr");
        push_str(&mut env, "PATH");
        push_str(&mut env, "LANG");
        push_str(&mut env, "HOME");
        push_str(&mut env, "USER");
        assert(strings_view(allowed@) =~= seq!["/usr/lib"@, "/usr/share"@, "/lib"@]);
        assert(strings_view(denied@) =~= seq![
            "/etc/shadow"@,
            "/etc/gshadow"@,
            "/root"@,
            "/home"@,
            "/boot"@,
            "/proc/kcore"@,
        ]);
        assert(strings_view(readonly@) =~= seq!["/etc"@, "/usr"@]);
        assert(strings_view(env@) =~= seq!["PATH"@, "LANG"@, "HOME"@, "USER"@]);
        Self {
            app_id: String::from_str(app_id),
            isolation_level: IsolationLevel::Strict,
            allowed_paths: allowed,
            denied_paths: denied,
            readonly_paths: readonly,
            allowed_network: false,
            allowed_ports: Vec::new(),
            allowed_ipc: false,
            max_memory_mb: 256,
            max_cpu_percent: 25,
            max_file_descriptors: 256,
            max_processes: 10,
            allow_dbus: false,
            allow_x11: false,
            allow_wayland: false,
            allow_audio: false,
            allow_gpu: false,
            environment_whitelist: env,
        }
    }

    /// Create a permissive sandbox — minimal restrictions.
    pub fn permissive(app_id: &str) -> (r: Self)
        ensures
            r.app_id@ == app_id@,
            r.isolation_level == IsolationLevel::Basic,
            r.allowed_paths@.len() == 0,
            r.denied_paths@.len() == 0,
            r.readonly_paths@.len() == 0,
            r.allowed_network,
            r.allowed_ports@.len() == 0,
            r.allowed_ipc,
            r.max_memory_mb == 4096,
            r.max_cpu_percent == 100,
            r.max_file_descriptors == 4096,
            r.max_processes == 100,
            r.allow_dbus && r.allow_x11 && r.allow_wayland && r.allow_audio && r.allow_gpu,
            r.environment_whitelist@.len() == 0,
    {
        Self {
            app_id: String::from_str(app_id),
            isolation_level: IsolationLevel::Basic,
            allowed_paths: Vec::new(),
            denied_paths: Vec::new(),
            readonly_paths: Vec::new(),
            allowed_network: true,
            allowed_ports: Vec::new(),
            allowed_ipc: true,
            max_memory_mb: 4096,
            max_cpu_percent: 100,
            max_file_descriptors: 4096,
            max_processes: 100,
            allow_dbus: true,
            allow_x11: true,
            allow_wayland: true,
            allow_audio: true,
            allow_gpu: true,
            environment_whitelist: Vec::new(),
        }
    }

    /// Generate Bubblewrap (bwrap) command-line arguments for this profile,
    /// given the Wayland display name of the session, if any.
    #[verifier::spinoff_prover]
    #[verifier::rlimit(40)]
    pub fn to_bwrap_args(&self, wayland_display: Option<&str>) -> (r: Vec<String>)
        ensures
            strings_view(r@) == bwrap_args(
                *self,
                match wayland_display {
                    Some(d) => Some(d@),
                    None => None,
                },
            ),
    {
        let mut args: Vec<String> = Vec::new();
        assert(strings_view(args@) =~= Seq::<Seq<char>>::empty());
        match self.isolation_level {
            IsolationLevel::NoIsolation | IsolationLevel::Basic => {},
            IsolationLevel::Standard => {
                push_str(&mut args, "--unshare-net");
            },
            IsolationLevel::Strict => {
                push_str(&mut args, "--unshare-pid");
                push_str(&mut args, "--unshare-net");
                push_str(&mut args, "--unshare-ipc");
            },
            IsolationLevel::Paranoid => {
                push_str(&mut args, "--unshare-all");
                push_str(&mut args, "--die-with-parent");
            },
        }
        let ghost a0 = strings_view(args@);
        assert(a0 =~= isolation_args(self.isolation_level));
        push_strings(&mut args, Ghost(a0), &self.readonly_paths, "--ro-bind");
        let ghost a1 = strings_view(args@);
        push_strings(&mut args, Ghost(a1), &self.allowed_paths, "--bind");
        push_str(&mut args, "--proc");
        push_str(&mut args, "/proc");
        push_str(&mut args, "--dev");
        push_str(&mut args, "/dev");
        let ghost a2 = strings_view(args@);
        if self.allow_x11 {
            push_str(&mut args, "--bind");
            push_str(&mut args, "/tmp/.X11-unix");
            push_str(&mut args, "/tmp/.X11-unix");
        }
        let ghost a3 = strings_view(args@);
        if self.allow_wayland {
            if let Some(display) = wayland_display {
                let path = concat2("/run/user/1000/", display);
                push_str(&mut args, "--bind");
                push_str(&mut args, path.as_str());
                push_str(&mut args, path.as_str());
            }
        }
        assert(strings_view(args@) =~= bwrap_args(
            *self,
            match wayland_display {
                Some(d) => Some(d@),
                None => None,
            },
        ));
        args
    }

    /// Check if a path is accessible under this profile.
    pub fn can_access(&self, path: &str) -> (r: bool)
        ensures
            r == profile_can_access(*self, path@),
    {
        if any_under(&self.denied_paths, path) {
            return false;
        }
        if self.allowed_paths.len() == 0 {
            return true;
        }
        any_under(&self.allowed_paths, path) || any_under(&self.readonly_paths, path)
    }

    /// Check if a path is read-only.
    pub fn is_readonly(&self, path: &str) -> (r: bool)
        ensures
            r == profile_is_readonly(*self, path@),
    {
        any_under(&self.readonly_paths, path) && !any_under(&self.allowed_paths, path)
    }

    /// Check if a network port is allowed.
    pub fn can_use_port(&self, port: u16) -> (r: bool)
        ensures
            r == profile_can_use_port(*self, port),
    {
        if !self.allowed_network {
            return false;
        }
        if self.allowed_ports.len() == 0 {
            return true;
        }
        let mut i: usize = 0;
        while i < self.allowed_ports.len()
            invariant
                self.allowed_network,
                i <= self.allowed_ports@.len(),
                forall|j: int| 0 <= j < i ==> self.allowed_ports@[j] != port,
            decreases self.allowed_ports@.len() - i,
        {
            if self.allowed_ports[i] == port {
                assert(self.allowed_ports@.contains(port));
                return true;
            }
            i = i + 1;
        }
        assert(!self.allowed_ports@.contains(port));
        false
    }
}

/// A sandbox policy violation event.
#[derive(Debug, Clone)]
pub struct SandboxViolation {
    pub timestamp: Timestamp,
    pub app_id: String,
    pub violation_type: ViolationType,
    pub detail: String,
    pub blocked: bool,
}

/// Type of sandbox violation.
#[derive(Debug, Clone, Copy, PartialEq, Eq, Structural)]
pub enum ViolationType {
    PathAccessDenied,
    PathWriteDenied,
    NetworkAccessDenied,
    PortAccessDenied,
    IpcDenied,
    MemoryLimitExceeded,
    ProcessLimitExceeded,
    FdLimitExceeded,
}

/// The key of a profile: its application.
pub open spec fn profile_key() -> spec_fn(SandboxProfile) -> Seq<char> {
    |p: SandboxProfile| p.app_id@
}

/// Manages sandbox profiles and tracks violations.
pub struct SandboxManager {
    profiles: Vec<SandboxProfile>,
    violations: Vec<SandboxViolation>,
    max_violations: usize,
}

/// The violation recorded for a refused request.
pub open spec fn is_sandbox_violation(
    v: SandboxViolation,
    app_id: Seq<char>,
    kind: ViolationType,
    detail: Seq<char>,
    at: Timestamp,
) -> bool {
    v.app_id@ == app_id && v.violation_type == kind && v.detail@ == detail && v.timestamp == at
        && v.blocked
}

/// The `(application, 1)` pairs of a violation log.
pub open spec fn violation_pairs(v: Seq<SandboxViolation>) -> Seq<(Seq<char>, int)> {
    v.map_values(|x: SandboxViolation| (x.app_id@, 1int))
}

impl SandboxManager {
    /// The manager's tables are consistent.
    pub closed spec fn wf(&self) -> bool {
        &&& distinct_by(self.profiles@, profile_key())
        &&& self.violations@.len() <= self.max_violations
    }

    /// The profiles, by application.
    pub closed spec fn profiles(&self) -> Map<Seq<char>, SandboxProfile> {
        seq_to_map(self.profiles@, profile_key())
    }

    /// The retained violations, oldest first.
    pub closed spec fn violations(&self) -> Seq<SandboxViolation> {
        self.violations@
    }

    /// The number of violations retained.
    pub closed spec fn capacity(&self) -> nat {
        self.max_violations as nat
    }

    /// The log after recording `v`: the newest `capacity` entries.
    pub open spec fn logged(&self, v: SandboxViolation) -> Seq<SandboxViolation> {
        keep_last(self.violations().push(v), self.capacity())
    }

    pub fn new() -> (r: Self)
        ensures
            r.wf(),
            r.profiles() == Map::<Seq<char>, SandboxProfile>::empty(),
            r.violations() == Seq::<SandboxViolation>::empty(),
            r.capacity() == 1000,
    {
        Self { profiles: Vec::new(), violations: Vec::new(), max_violations: 1000 }
    }

    pub fn add_profile(&mut self, profile: SandboxProfile)
        requires
            old(self).wf(),
        ensures
            final(self).wf(),
            final(self).profiles() == old(self).profiles().insert(profile.app_id@, profile),
            final(self).violations() == old(self).violations(),
            final(self).capacity() == old(self).capacity(),
    {
        let ghost before = self.profiles@;
        match position_of(&self.profiles, profile.app_id.as_str()) {
            Some(i) => {
                proof {
                    lemma_seq_to_map_update(before, profile_key(), i as int, profile);
                }
                self.profiles.set(i, profile);
            },
            None => {
                proof {
                    lemma_seq_to_map_push(before, profile_key(), profile);
                }
                self.profiles.push(profile);
                proof {
                    assert(distinct_by(self.profiles@, profile_key())) by {
                        assert forall|a: int, b: int|
                            0 <= a < self.profiles@.len() && 0 <= b < self.profiles@.len() && a != b
                            implies profile_key()(self.profiles@[a]) != profile_key()(self.profiles@[b]) by {
                            if a < before.len() && b < before.len() {
                                assert(self.profiles@[a] == before[a] && self.profiles@[b] == before[b]);
                            } else if a < before.len() {
                                assert(self.profiles@[a] == before[a]);
                            } else {
                                assert(self.profiles@[b] == before[b]);
                            }
                        }
                    }
                }
            },
        }
    }

    pub fn remove_profile(&mut self, app_id: &str) -> (r: bool)
        requires
            old(self).wf(),
        ensures
            final(self).wf(),
            r == old(self).profiles().contains_key(app_id@),
            final(self).profiles() == old(self).profiles().remove(app_id@),
            final(self).violations() == old(self).violations(),
            final(self).capacity() == old(self).capacity(),
    {
        proof {
            lemma_seq_to_map_dom(self.profiles@, profile_key());
        }
        match position_of(&self.profiles, app_id) {
            Some(i) => {
                proof {
                    lemma_seq_to_map_remove(self.profiles@, profile_key(), i as int);
                }
                self.profiles.remove(i);
                true
            },
            None => {
                assert(self.profiles().remove(app_id@) =~= self.profiles());
                false
            },
        }
    }

    pub fn get_profile(&self, app_id: &str) -> (r: Option<&SandboxProfile>)
        requires
            self.wf(),
        ensures
            match r {
                Some(p) => self.profiles().contains_key(app_id@) && *p == self.profiles()[app_id@],
                None => !self.profiles().contains_key(app_id@),
            },
    {
        proof {
            lemma_seq_to_map_dom(self.profiles@, profile_key());
        }
        match position_of(&self.profiles, app_id) {
            Some(i) => {
                proof {
                    lemma_seq_to_map_get(self.profiles@, profile_key(), i as int);
                }
                Some(&self.profiles[i])
            },
            None => None,
        }
    }

    fn record_violation(&mut self, violation: SandboxViolation)
        requires
            old(self).wf(),
        ensures
            final(self).wf(),
            final(self).violations() == old(self).logged(violation),
            final(self).profiles() == old(self).profiles(),
            final(self).capacity() == old(self).capacity(),
    {
        push_bounded(&mut self.violations, violation, self.max_violations);
    }

    /// Check a file access at the given instant; an application with a
    /// profile that refuses the path gets a violation, one without a profile
    /// is allowed.
    pub fn check_access_at(&mut self, app_id: &str, path: &str, now: Timestamp) -> (r: bool)
        requires
            old(self).wf(),
        ensures
            final(self).wf(),
            r == (!old(self).profiles().contains_key(app_id@) || profile_can_access(
                old(self).profiles()[app_id@],
                path@,
            )),
            final(self).profiles() == old(self).profiles(),
            final(self).capacity() == old(self).capacity(),
            r ==> final(self).violations() == old(self).violations(),
            !r ==> exists|v: SandboxViolation|
                is_sandbox_violation(
                    v,
                    app_id@,
                    ViolationType::PathAccessDenied,
                    "Blocked access to "@ + path@,
                    now,
                ) && final(self).violations() == old(self).logged(v),
    {
        let allowed = match self.get_profile(app_id) {
            Some(p) => p.can_access(path),
            None => true,
        };
        if !allowed {
            let v = SandboxViolation {
                timestamp: now,
                app_id: String::from_str(app_id),
                violation_type: ViolationType::PathAccessDenied,
                detail: concat2("Blocked access to ", path),
                blocked: true,
            };
            self.record_violation(v);
        }
        allowed
    }

    /// Check a file access now.
    pub fn check_access(&mut self, app_id: &str, path: &str) -> (r: bool)
        requires
            old(self).wf(),
        ensures
            final(self).wf(),
            r == (!old(self).profiles().contains_key(app_id@) || profile_can_access(
                old(self).profiles()[app_id@],
                path@,
            )),
            final(self).profiles() == old(self).profiles(),
            final(self).capacity() == old(self).capacity(),
            r ==> final(self).violations() == old(self).violations(),
            !r ==> exists|v: SandboxViolation|
                is_sandbox_violation(
                    v,
                    app_id@,
                    ViolationType::PathAccessDenied,
                    "Blocked access to "@ + path@,
                    v.timestamp,
                ) && final(self).violations() == old(self).logged(v),
    {
        let now = now_millis();
        self.check_access_at(app_id, path, now)
    }

    /// Check a write at the given instant; writes to a path the profile
    /// refuses or holds read-only are refused and logged.
    pub fn check_write_at(&mut self, app_id: &str, path: &str, now: Timestamp) -> (r: bool)
        requires
            old(self).wf(),
        ensures
            final(self).wf(),
            r == (!old(self).profiles().contains_key(app_id@) || (profile_can_access(
                old(self).profiles()[app_id@],
                path@,
            ) && !profile_is_readonly(old(self).profiles()[app_id@], path@))),
            final(self).profiles() == old(self).profiles(),
            final(self).capacity() == old(self).capacity(),
            r ==> final(self).violations() == old(self).violations(),
            !r ==> exists|v: SandboxViolation|
                is_sandbox_violation(
                    v,
                    app_id@,
                    ViolationType::PathWriteDenied,
                    "Blocked write to "@ + path@,
                    now,
                ) && final(self).violations() == old(self).logged(v),
    {
        let refused = match self.get_profile(app_id) {
            Some(p) => !p.can_access(path) || p.is_readonly(path),
            None => false,
        };
        if refused {
            let v = SandboxViolation {
                timestamp: now,
                app_id: String::from_str(app_id),
                violation_type: ViolationType::PathWriteDenied,
                detail: concat2("Blocked write to ", path),
                blocked: true,
            };
            self.record_violation(v);
            return false;
        }
        true
    }

    /// Check a write now.
    pub fn check_write(&mut self, app_id: &str, path: &str) -> (r: bool)
        requires
            old(self).wf(),
        ensures
            final(self).wf(),
            r == (!old(self).profiles().contains_key(app_id@) || (profile_can_access(
                old(self).profiles()[app_id@],
                path@,
            ) && !profile_is_readonly(old(self).profiles()[app_id@], path@))),
            final(self).profiles() == old(self).profiles(),
            final(self).capacity() == old(self).capacity(),
            r ==> final(self).violations() == old(self).violations(),
            !r ==> exists|v: SandboxViolation|
                is_sandbox_violation(
                    v,
                    app_id@,
                    ViolationType::PathWriteDenied,
                    "Blocked write to "@ + path@,
                    v.timestamp,
                ) && final(self).violations() == old(self).logged(v),
    {
        let now = now_millis();
        self.check_write_at(app_id, path, now)
    }

    /// Check network access on a port at the given instant.
    pub fn check_network_at(&mut self, app_id: &str, port: u16, now: Timestamp) -> (r: bool)
        requires
            old(self).wf(),
        ensures
            final(self).wf(),
            r == (!old(self).profiles().contains_key(app_id@) || profile_can_use_port(
                old(self).profiles()[app_id@],
                port,
            )),
            final(self).profiles() == old(self).profiles(),
            final(self).capacity() == old(self).capacity(),
            r ==> final(self).violations() == old(self).violations(),
            !r ==> exists|v: SandboxViolation|
                is_sandbox_violation(
                    v,
                    app_id@,
                    ViolationType::NetworkAccessDenied,
                    "Blocked network access on port "@ + decimal(port as nat),
                    now,
                ) && final(self).violations() == old(self).logged(v),
    {
        let allowed = match self.get_profile(app_id) {
            Some(p) => p.can_use_port(port),
            None => true,
        };
        if !allowed {
            let v = SandboxViolation {
                timestamp: now,
                app_id: String::from_str(app_id),
                violation_type: ViolationType::NetworkAccessDenied,
                detail: concat2("Blocked network access on port ", u64_to_decimal(port as u64).as_str()),
                blocked: true,
            };
            self.record_violation(v);
        }
        allowed
    }

    /// Check network access on a port now.
    pub fn check_network(&mut self, app_id: &str, port: u16) -> (r: bool)
        requires
            old(self).wf(),
        ensures
            final(self).wf(),
            r == (!old(self).profiles().contains_key(app_id@) || profile_can_use_port(
                old(self).profiles()[app_id@],
                port,
            )),
            final(self).profiles() == old(self).profiles(),
            final(self).capacity() == old(self).capacity(),
            r ==> final(self).violations() == old(self).violations(),
            !r ==> exists|v: SandboxViolation|
                is_sandbox_violation(
                    v,
                    app_id@,
                    ViolationType::NetworkAccessDenied,
                    "Blocked network access on port "@ + decimal(port as nat),
                    v.timestamp,
                ) && final(self).violations() == old(self).logged(v),
    {
        let now = now_millis();
        self.check_network_at(app_id, port, now)
    }

    /// Get all violations for an app, oldest first.
    pub fn violations_for(&self, app_id: &str) -> (r: Vec<&SandboxViolation>)
        ensures
            r@.map_values(|v: &SandboxViolation| *v) == self.violations().filter(
                |v: SandboxViolation| v.app_id@ == app_id@,
            ),
    {
        let ghost pred = |v: SandboxViolation| v.app_id@ == app_id@;
        let mut r: Vec<&SandboxViolation> = Vec::new();
        let mut i: usize = 0;
        while i < self.violations.len()
            invariant
                i <= self.violations@.len(),
                pred == (|v: SandboxViolation| v.app_id@ == app_id@),
                r@.map_values(|v: &SandboxViolation| *v) == self.violations@.take(i as int).filter(pred),
            decreases self.violations@.len() - i,
        {
            proof {
                assert(self.violations@.take(i + 1) =~= self.violations@.take(i as int).push(
                    self.violations@[i as int],
                ));
                self.violations@.take(i as int).lemma_filter_push(self.violations@[i as int], pred);
            }
            if str_eq(self.violations[i].app_id.as_str(), app_id) {
                r.push(&self.violations[i]);
            }
            proof {
                assert(r@.map_values(|v: &SandboxViolation| *v) =~= self.violations@.take(i + 1).filter(pred));
            }
            i = i + 1;
        }
        assert(self.violations@.take(self.violations@.len() as int) =~= self.violations@);
        r
    }

    /// The `n` most recent violations, newest first.
    pub fn recent_violations(&self, n: usize) -> (r: Vec<&SandboxViolation>)
        ensures
            r@.len() == if (n as nat) < self.violations().len() { n as nat } else { self.violations().len() },
            forall|i: int| 0 <= i < r@.len() ==> *(#[trigger] r@[i]) == self.violations()[self.violations().len() - 1 - i],
    {
        let len = self.violations.len();
        let mut r: Vec<&SandboxViolation> = Vec::new();
        let mut k: usize = 0;
        while k < n && k < len
            invariant
                len == self.violations@.len(),
                k <= len,
                k <= n,
                r@.len() == k,
                forall|i: int| 0 <= i < k ==> *(#[trigger] r@[i]) == self.violations@[len - 1 - i],
            decreases len - k,
        {
            r.push(&self.violations[len - 1 - k]);
            k = k + 1;
        }
        r
    }

    /// Total violation count.
    pub fn violation_count(&self) -> (r: usize)
        ensures
            r == self.violations().len(),
    {
        self.violations.len()
    }

    pub fn profile_count(&self) -> (r: usize)
        requires
            self.wf(),
        ensures
            r == self.profiles().dom().len(),
    {
        proof {
            lemma_seq_to_map_len(self.profiles@, profile_key());
        }
        self.profiles.len()
    }

    /// The `n` applications with the most retained violations, most first.
    pub fn top_violators(&self, n: usize) -> (r: Vec<(String, usize)>)
        ensures
            exists|t: Seq<(String, usize)>|
                is_count_tally(violation_pairs(self.violations()), t) && is_top_n(t, n as nat, r@),
    {
        let ghost pairs = violation_pairs(self.violations@);
        let mut t: Vec<(String, usize)> = Vec::new();
        let mut i: usize = 0;
        while i < self.violations.len()
            invariant
                i <= self.violations@.len(),
                pairs == violation_pairs(self.violations@),
                is_count_tally(pairs.take(i as int), t@),
            decreases self.violations@.len() - i,
        {
            proof {
                assert(pairs.take(i + 1) =~= pairs.take(i as int).push((self.violations@[i as int].app_id@, 1)));
                assert(all_ones(pairs.take(i as int)));
            }
            count_add(&mut t, self.violations[i].app_id.as_str(), Ghost(pairs.take(i as int)));
            i = i + 1;
        }
        assert(pairs.take(self.violations@.len() as int) =~= pairs);
        let ghost tv = t@;
        let r = top_n(t, n);
        assert(is_count_tally(pairs, tv) && is_top_n(tv, n as nat, r@));
        r
    }
}

impl Default for SandboxManager {
    fn default() -> (r: Self) {
        Self::new()
    }
}

} // verus!
