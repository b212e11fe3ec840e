//! App process tree — track which processes belong to which app.

use vstd::prelude::*;
use crate::keyed::{distinct_by, seq_to_map, lemma_seq_to_map_dom, lemma_seq_to_map_get, lemma_seq_to_map_push, lemma_seq_to_map_update, lemma_seq_to_map_remove, lemma_seq_to_map_len};
use crate::ranking::{Scored, is_top_n, top_n};
use crate::text::str_eq;

verus! {

/// A running process associated with an app.
#[derive(Debug, Clone)]
pub struct AppProcess {
    pub pid: u32,
    pub app_id: String,
    pub exe_path: String,
    pub parent_pid: u32,
}

/// The process ids registered under one application.
struct AppPids {
    app_id: String,
    pids: Vec<u32>,
}

/// The key of a process record: its pid.
pub open spec fn pid_key() -> spec_fn(AppProcess) -> u32 {
    |p: AppProcess| p.pid
}

spec fn app_key() -> spec_fn(AppPids) -> Seq<char> {
    |e: AppPids| e.app_id@
}

spec fn pid_set() -> spec_fn(AppPids) -> Set<u32> {
    |e: AppPids| e.pids@.to_set()
}

impl Scored for (String, usize) {
    open spec fn score(&self) -> int {
        self.1 as int
    }

    fn score_value(&self) -> (v: u64) {
        self.1 as u64
    }
}

fn contains_u32(v: &Vec<u32>, x: u32) -> (r: bool)
    ensures
        r == v@.contains(x),
{
    let mut i: usize = 0;
    while i < v.len()
        invariant
            i <= v@.len(),
            forall|j: int| 0 <= j < i ==> v@[j] != x,
        decreases v@.len() - i,
    {
        if v[i] == x {
            return true;
        }
        i = i + 1;
    }
    false
}

fn remove_u32(v: &mut Vec<u32>, x: u32)
    requires
        old(v)@.no_duplicates(),
    ensures
        final(v)@.no_duplicates(),
        final(v)@.to_set() == old(v)@.to_set().remove(x),
{
    let mut i: usize = 0;
    while i < v.len()
        invariant
            i <= v@.len(),
            v@ == old(v)@,
            v@.no_duplicates(),
            forall|j: int| 0 <= j < i ==> v@[j] != x,
        decreases v@.len() - i,
    {
        if v[i] == x {
            let ghost before = v@;
            v.remove(i);
            proof {
                assert(v@ =~= before.remove(i as int));
                assert forall|a: int| 0 <= a < v@.len() implies #[trigger] v@[a] == before[if a < i { a } else { a + 1 }] by {}
                assert(v@.no_duplicates()) by {
                    assert forall|a: int, b: int|
                        0 <= a < v@.len() && 0 <= b < v@.len() && a != b implies v@[a] != v@[b] by {
                        let a2 = if a < i { a } else { a + 1 };
                        let b2 = if b < i { b } else { b + 1 };
                        assert(v@[a] == before[a2] && v@[b] == before[b2]);
                    }
                }
                assert forall|y: u32| #[trigger] v@.to_set().contains(y) <==> before.to_set().remove(x).contains(y) by {
                    if v@.contains(y) {
                        let a = choose|a: int| 0 <= a < v@.len() && v@[a] == y;
                        let a2 = if a < i { a } else { a + 1 };
                        assert(before[a2] == y);
                        assert(a2 != i);
                    }
                    if before.contains(y) && y != x {
                        let a = choose|a: int| 0 <= a < before.len() && before[a] == y;
                        let a2 = if a < i { a } else { a - 1 };
                        assert(v@[a2] == y);
                    }
                }
                assert(v@.to_set() =~= before.to_set().remove(x));
            }
            return;
        }
        i = i + 1;
    }
    assert(!old(v)@.contains(x));
    assert(v@.to_set() =~= old(v)@.to_set().remove(x));
}

/// The pids listed under `app`, none when it is not listed.
pub open spec fn listed(apps: Map<Seq<char>, Set<u32>>, app: Seq<char>) -> Set<u32> {
    if apps.contains_key(app) {
        apps[app]
    } else {
        Set::empty()
    }
}

/// Every listed pid has a record of the application it is listed under,
/// and every record is listed under its application.
pub open spec fn consistent(procs: Map<u32, AppProcess>, apps: Map<Seq<char>, Set<u32>>) -> bool {
    &&& forall|a: Seq<char>, p: u32|
        apps.contains_key(a) && #[trigger] apps[a].contains(p) ==> procs.contains_key(p) && procs[p].app_id@ == a
    &&& forall|p: u32|
        #[trigger] procs.contains_key(p) ==> apps.contains_key(procs[p].app_id@) && apps[procs[p].app_id@].contains(p)
}

/// The pid lists after `process` is registered: its pid leaves the list
/// of the application it was registered with before, if that is another
/// one, and joins the list of its application.
pub open spec fn after_register(
    procs: Map<u32, AppProcess>,
    apps: Map<Seq<char>, Set<u32>>,
    process: AppProcess,
) -> Map<Seq<char>, Set<u32>> {
    let m = if procs.contains_key(process.pid) && procs[process.pid].app_id@ != process.app_id@ {
        let b = procs[process.pid].app_id@;
        apps.insert(b, listed(apps, b).remove(process.pid))
    } else {
        apps
    };
    m.insert(process.app_id@, listed(m, process.app_id@).insert(process.pid))
}

/// Registering a process keeps the tables consistent.
proof fn lemma_register_consistent(procs: Map<u32, AppProcess>, apps: Map<Seq<char>, Set<u32>>, process: AppProcess)
    requires
        consistent(procs, apps),
    ensures
        consistent(procs.insert(process.pid, process), after_register(procs, apps, process)),
{
    let pid = process.pid;
    let a = process.app_id@;
    let moved = procs.contains_key(pid) && procs[pid].app_id@ != a;
    let m = if moved {
        apps.insert(procs[pid].app_id@, listed(apps, procs[pid].app_id@).remove(pid))
    } else {
        apps
    };
    let p2 = procs.insert(pid, process);
    let a2 = after_register(procs, apps, process);
    assert(a2 == m.insert(a, listed(m, a).insert(pid)));
    assert forall|x: Seq<char>, q: u32| a2.contains_key(x) && #[trigger] a2[x].contains(q) implies p2.contains_key(q)
        && p2[q].app_id@ == x by {
        if x == a {
            if q != pid {
                assert(listed(m, a).contains(q));
                assert(m.contains_key(a));
                assert(apps.contains_key(a) && apps[a].contains(q));
            }
        } else {
            assert(m.contains_key(x) && m[x].contains(q));
            if moved && x == procs[pid].app_id@ {
                assert(apps.contains_key(x) && apps[x].contains(q));
            } else {
                assert(apps.contains_key(x) && apps[x].contains(q));
            }
        }
    }
    assert forall|q: u32| #[trigger] p2.contains_key(q) implies a2.contains_key(p2[q].app_id@) && a2[p2[q].app_id@].contains(q) by {
        if q != pid {
            let y = procs[q].app_id@;
            assert(procs.contains_key(q));
            assert(apps.contains_key(y) && apps[y].contains(q));
            if y != a {
                assert(m.contains_key(y) && m[y].contains(q));
            } else {
                assert(listed(m, a).contains(q));
            }
        }
    }
}

/// Removing a registered process keeps the tables consistent.
proof fn lemma_unregister_consistent(procs: Map<u32, AppProcess>, apps: Map<Seq<char>, Set<u32>>, pid: u32)
    requires
        consistent(procs, apps),
        procs.contains_key(pid),
    ensures
        apps.contains_key(procs[pid].app_id@),
        consistent(
            procs.remove(pid),
            apps.insert(procs[pid].app_id@, apps[procs[pid].app_id@].remove(pid)),
        ),
{
    let b = procs[pid].app_id@;
    let p2 = procs.remove(pid);
    let a2 = apps.insert(b, apps[b].remove(pid));
    assert forall|x: Seq<char>, q: u32| a2.contains_key(x) && #[trigger] a2[x].contains(q) implies p2.contains_key(q)
        && p2[q].app_id@ == x by {
        assert(apps.contains_key(x) && apps[x].contains(q));
    }
    assert forall|q: u32| #[trigger] p2.contains_key(q) implies a2.contains_key(p2[q].app_id@) && a2[p2[q].app_id@].contains(q) by {
        assert(procs.contains_key(q));
    }
}

/// App process tree.
pub struct AppProcessTree {
    /// Process records, at most one per pid.
    by_pid: Vec<AppProcess>,
    /// Per-application pid sets, at most one row per application.
    by_app: Vec<AppPids>,
}

impl AppProcessTree {
    /// One record per pid, one row per application, no pid twice in a row.
    closed spec fn tables_ok(&self) -> bool {
        &&& distinct_by(self.by_pid@, pid_key())
        &&& distinct_by(self.by_app@, app_key())
        &&& forall|i: int| 0 <= i < self.by_app@.len() ==> (#[trigger] self.by_app@[i]).pids@.no_duplicates()
    }

    /// The tree's internal tables are consistent, and each pid is listed
    /// under exactly the application of its record.
    pub closed spec fn wf(&self) -> bool {
        &&& self.tables_ok()
        &&& consistent(self.processes(), self.app_pids())
    }

    /// The registered processes, by pid.
    pub closed spec fn processes(&self) -> Map<u32, AppProcess> {
        seq_to_map(self.by_pid@, pid_key())
    }

    /// The pids registered for each application (a pid is listed under the
    /// application of its current record, and an application stays listed
    /// once all its processes are gone).
    pub closed spec fn app_pids(&self) -> Map<Seq<char>, Set<u32>> {
        seq_to_map(self.by_app@, app_key()).map_values(pid_set())
    }

    /// One row per listed application with the number of its pids, in the
    /// order in which the applications were first registered.
    pub closed spec fn app_rows(&self) -> Seq<(String, usize)> {
        self.by_app@.map_values(|e: AppPids| (e.app_id, e.pids@.len() as usize))
    }

    /// The rows describe `app_pids` exactly.
    pub proof fn lemma_app_rows(&self)
        requires
            self.wf(),
        ensures
            self.app_rows().len() == self.app_pids().dom().len(),
            forall|i: int|
                0 <= i < self.app_rows().len() ==> self.app_pids().contains_key(
                    (#[trigger] self.app_rows()[i]).0@,
                ) && self.app_rows()[i].1 == self.app_pids()[self.app_rows()[i].0@].len() as usize,
            forall|i: int, j: int|
                0 <= i < j < self.app_rows().len() ==> self.app_rows()[i].0@ != self.app_rows()[j].0@,
    {
        lemma_seq_to_map_len(self.by_app@, app_key());
        assert(self.app_pids().dom() =~= seq_to_map(self.by_app@, app_key()).dom());
        assert forall|i: int|
            0 <= i < self.app_rows().len() implies self.app_pids().contains_key(
            (#[trigger] self.app_rows()[i]).0@,
        ) && self.app_rows()[i].1 == self.app_pids()[self.app_rows()[i].0@].len() as usize by {
            lemma_seq_to_map_get(self.by_app@, app_key(), i);
            let e = self.by_app@[i];
            assert(app_key()(e) == e.app_id@);
            self.by_app@[i].pids@.unique_seq_to_set();
            assert(self.app_rows()[i] == (e.app_id, e.pids@.len() as usize));
            assert(seq_to_map(self.by_app@, app_key()).contains_key(e.app_id@));
            assert(self.app_pids()[e.app_id@] == e.pids@.to_set());
        }
    }

    pub fn new() -> (r: Self)
        ensures
            r.wf(),
            r.processes() == Map::<u32, AppProcess>::empty(),
            r.app_pids() == Map::<Seq<char>, Set<u32>>::empty(),
    {
        let r = Self { by_pid: Vec::new(), by_app: Vec::new() };
        assert(r.app_pids() =~= Map::<Seq<char>, Set<u32>>::empty());
        r
    }

    fn pid_index(&self, pid: u32) -> (r: Option<usize>)
        ensures
            match r {
                Some(i) => i < self.by_pid@.len() && self.by_pid@[i as int].pid == pid,
                None => forall|j: int| 0 <= j < self.by_pid@.len() ==> self.by_pid@[j].pid != pid,
            },
    {
        let mut i: usize = 0;
        while i < self.by_pid.len()
            invariant
                i <= self.by_pid@.len(),
                forall|j: int| 0 <= j < i ==> self.by_pid@[j].pid != pid,
            decreases self.by_pid@.len() - i,
        {
            if self.by_pid[i].pid == pid {
                return Some(i);
            }
            i = i + 1;
        }
        None
    }

    fn app_index(&self, app_id: &str) -> (r: Option<usize>)
        ensures
            match r {
                Some(i) => i < self.by_app@.len() && self.by_app@[i as int].app_id@ == app_id@,
                None => forall|j: int|
                    0 <= j < self.by_app@.len() ==> self.by_app@[j].app_id@ != app_id@,
            },
    {
        let mut i: usize = 0;
        while i < self.by_app.len()
            invariant
                i <= self.by_app@.len(),
                forall|j: int| 0 <= j < i ==> self.by_app@[j].app_id@ != app_id@,
            decreases self.by_app@.len() - i,
        {
            if str_eq(self.by_app[i].app_id.as_str(), app_id) {
                return Some(i);
            }
            i = i + 1;
        }
        None
    }

    /// The pids of an application, if it is listed.
    pub open spec fn pids_of(&self, app: Seq<char>) -> Set<u32> {
        if self.app_pids().contains_key(app) {
            self.app_pids()[app]
        } else {
            Set::empty()
        }
    }

    /// Drop `pid` from the row of `app_id`, if the application is listed.
    fn drop_from_app(&mut self, app_id: &str, pid: u32)
        requires
            old(self).tables_ok(),
        ensures
            final(self).tables_ok(),
            final(self).by_pid@ == old(self).by_pid@,
            final(self).app_pids() == if old(self).app_pids().contains_key(app_id@) {
                old(self).app_pids().insert(app_id@, old(self).app_pids()[app_id@].remove(pid))
            } else {
                old(self).app_pids()
            },
    {
        let ghost old_apps = self.by_app@;
        proof {
            lemma_seq_to_map_dom(old_apps, app_key());
        }
        match self.app_index(app_id) {
            None => {},
            Some(a) => {
                let ghost e = old_apps[a as int];
                proof {
                    lemma_seq_to_map_get(old_apps, app_key(), a as int);
                }
                let mut row = AppPids { app_id: String::new(), pids: Vec::new() };
                std::mem::swap(&mut row, &mut self.by_app[a]);
                remove_u32(&mut row.pids, pid);
                self.by_app.set(a, row);
                proof {
                    assert(self.by_app@ == old_apps.update(a as int, self.by_app@[a as int]));
                    lemma_seq_to_map_update(old_apps, app_key(), a as int, self.by_app@[a as int]);
                    assert(self.app_pids() =~= seq_to_map(old_apps, app_key()).map_values(
                        pid_set(),
                    ).insert(app_id@, e.pids@.to_set().remove(pid)));
                }
            },
        }
    }

    /// Add `pid` to the row of `app_id`, making the row where there is none.
    fn add_to_app(&mut self, app_id: &String, pid: u32)
        requires
            old(self).tables_ok(),
        ensures
            final(self).tables_ok(),
            final(self).by_pid@ == old(self).by_pid@,
            final(self).app_pids() == old(self).app_pids().insert(app_id@, old(self).pids_of(app_id@).insert(pid)),
    {
        let ghost old_apps = self.by_app@;
        proof {
            lemma_seq_to_map_dom(self.by_app@, app_key());
        }
        match self.app_index(app_id.as_str()) {
            Some(i) => {
                let ghost e = self.by_app@[i as int];
                proof {
                    lemma_seq_to_map_get(self.by_app@, app_key(), i as int);
                }
                let found = contains_u32(&self.by_app[i].pids, pid);
                if !found {
                    let mut row = AppPids { app_id: String::new(), pids: Vec::new() };
                    std::mem::swap(&mut row, &mut self.by_app[i]);
                    row.pids.push(pid);
                    self.by_app.set(i, row);
                    proof {
                        assert(self.by_app@ == old_apps.update(i as int, self.by_app@[i as int]));
                        lemma_seq_to_map_update(old_apps, app_key(), i as int, self.by_app@[i as int]);
                        assert(self.by_app@[i as int].pids@ == e.pids@.push(pid));
                        e.pids@.lemma_push_to_set_commute(pid);
                        assert(self.by_app@[i as int].pids@.no_duplicates());
                    }
                } else {
                    proof {
                        assert(e.pids@.to_set().contains(pid));
                        assert(e.pids@.to_set().insert(pid) =~= e.pids@.to_set());
                    }
                }
                proof {
                    assert(self.app_pids() =~= seq_to_map(old_apps, app_key()).map_values(pid_set()).insert(
                        app_id@,
                        e.pids@.to_set().insert(pid),
                    ));
                }
            },
            None => {
                let mut pids: Vec<u32> = Vec::new();
                pids.push(pid);
                let row = AppPids { app_id: app_id.clone(), pids };
                self.by_app.push(row);
                proof {
                    lemma_seq_to_map_push(old_apps, app_key(), row);
                    assert(!seq_to_map(old_apps, app_key()).contains_key(app_id@));
                    assert(distinct_by(self.by_app@, app_key())) by {
                        assert forall|a: int, b: int|
                            0 <= a < self.by_app@.len() && 0 <= b < self.by_app@.len() && a != b
                            implies app_key()(self.by_app@[a]) != app_key()(self.by_app@[b]) by {
                            if a < old_apps.len() && b < old_apps.len() {
                                assert(self.by_app@[a] == old_apps[a]);
                                assert(self.by_app@[b] == old_apps[b]);
                            }
                        }
                    }
                    Seq::<u32>::empty().lemma_push_to_set_commute(pid);
                    assert(Seq::<u32>::empty().to_set() =~= Set::<u32>::empty());
                    assert(row.pids@ =~= Seq::<u32>::empty().push(pid));
                    assert(self.app_pids() =~= seq_to_map(old_apps, app_key()).map_values(pid_set()).insert(
                        app_id@,
                        Set::<u32>::empty().insert(pid),
                    ));
                }
            },
        }
    }

    /// Store the record of a process, replacing the one with its pid.
    fn put_process(&mut self, process: AppProcess)
        requires
            old(self).tables_ok(),
        ensures
            final(self).tables_ok(),
            final(self).by_app@ == old(self).by_app@,
            final(self).processes() == old(self).processes().insert(process.pid, process),
    {
        let pid = process.pid;
        let ghost old_procs = self.by_pid@;
        match self.pid_index(pid) {
            Some(i) => {
                self.by_pid.set(i, process);
                proof {
                    lemma_seq_to_map_update(old_procs, pid_key(), i as int, process);
                }
            },
            None => {
                self.by_pid.push(process);
                proof {
                    lemma_seq_to_map_push(old_procs, pid_key(), process);
                    assert(distinct_by(self.by_pid@, pid_key())) by {
                        assert forall|a: int, b: int|
                            0 <= a < self.by_pid@.len() && 0 <= b < self.by_pid@.len() && a != b
                            implies pid_key()(self.by_pid@[a]) != pid_key()(self.by_pid@[b]) by {
                            if a < old_procs.len() && b < old_procs.len() {
                                assert(self.by_pid@[a] == old_procs[a]);
                                assert(self.by_pid@[b] == old_procs[b]);
                            }
                        }
                    }
                }
            },
        }
    }

    /// Register a process belonging to an app; a pid registered before
    /// under another app moves to this one.
    pub fn register(&mut self, process: AppProcess)
        requires
            old(self).wf(),
        ensures
            final(self).wf(),
            final(self).processes() == old(self).processes().insert(process.pid, process),
            final(self).app_pids() == after_register(old(self).processes(), old(self).app_pids(), process),
    {
        let ghost p0 = self.processes();
        let ghost a0 = self.app_pids();
        let pid = process.pid;
        proof {
            lemma_seq_to_map_dom(self.by_pid@, pid_key());
        }
        match self.pid_index(pid) {
            Some(i) => {
                proof {
                    lemma_seq_to_map_get(self.by_pid@, pid_key(), i as int);
                }
                if !str_eq(self.by_pid[i].app_id.as_str(), process.app_id.as_str()) {
                    let prev = self.by_pid[i].app_id.clone();
                    proof {
                        assert(a0.contains_key(prev@));
                    }
                    self.drop_from_app(prev.as_str(), pid);
                }
            },
            None => {},
        }
        let ghost a1 = self.app_pids();
        proof {
            let m = if p0.contains_key(pid) && p0[pid].app_id@ != process.app_id@ {
                a0.insert(p0[pid].app_id@, listed(a0, p0[pid].app_id@).remove(pid))
            } else {
                a0
            };
            assert(a1 == m);
        }
        self.add_to_app(&process.app_id, pid);
        proof {
            assert(self.app_pids() == after_register(p0, a0, process));
            assert(self.processes() == p0);
        }
        self.put_process(process);
        proof {
            lemma_register_consistent(p0, a0, process);
        }
    }

    /// Remove a process.
    pub fn unregister(&mut self, pid: u32)
        requires
            old(self).wf(),
        ensures
            final(self).wf(),
            old(self).processes().contains_key(pid) ==> {
                let app = old(self).processes()[pid].app_id@;
                &&& final(self).processes() == old(self).processes().remove(pid)
                &&& final(self).app_pids() == old(self).app_pids().insert(app, old(self).app_pids()[app].remove(pid))
            },
            !old(self).processes().contains_key(pid) ==> final(self).processes() == old(
                self,
            ).processes() && final(self).app_pids() == old(self).app_pids(),
    {
        proof {
            lemma_seq_to_map_dom(self.by_pid@, pid_key());
        }
        let ghost p0 = self.processes();
        let ghost a0 = self.app_pids();
        let ghost old_procs = self.by_pid@;
        match self.pid_index(pid) {
            None => {},
            Some(i) => {
                proof {
                    lemma_seq_to_map_get(old_procs, pid_key(), i as int);
                    lemma_seq_to_map_remove(old_procs, pid_key(), i as int);
                    lemma_unregister_consistent(p0, a0, pid);
                }
                let proc = self.by_pid.remove(i);
                assert(self.app_pids() == a0);
                self.drop_from_app(proc.app_id.as_str(), pid);
            },
        }
    }

    /// Get all processes for an app: each registered process of the app,
    /// once.
    pub fn processes_for(&self, app_id: &str) -> (r: Vec<&AppProcess>)
        requires
            self.wf(),
        ensures
            forall|i: int|
                0 <= i < r@.len() ==> self.processes().contains_key((#[trigger] r@[i]).pid) && *r@[i]
                    == self.processes()[r@[i].pid] && r@[i].app_id@ == app_id@,
            forall|p: u32|
                #![trigger self.processes().contains_key(p)]
                self.processes().contains_key(p) && self.processes()[p].app_id@ == app_id@ ==> exists|
                    i: int,
                | 0 <= i < r@.len() && (#[trigger] r@[i]).pid == p,
            forall|i: int, j: int| 0 <= i < j < r@.len() ==> r@[i].pid != r@[j].pid,
    {
        let mut r: Vec<&AppProcess> = Vec::new();
        proof {
            lemma_seq_to_map_dom(self.by_app@, app_key());
            lemma_seq_to_map_dom(self.by_pid@, pid_key());
        }
        match self.app_index(app_id) {
            None => {
                assert(!self.app_pids().contains_key(app_id@));
            },
            Some(a) => {
                proof {
                    lemma_seq_to_map_get(self.by_app@, app_key(), a as int);
                }
                let ghost pids = self.by_app@[a as int].pids@;
                assert(self.pids_of(app_id@) == pids.to_set());
                let mut k: usize = 0;
                while k < self.by_app[a].pids.len()
                    invariant
                        self.wf(),
                        a < self.by_app@.len(),
                        pids == self.by_app@[a as int].pids@,
                        pids.no_duplicates(),
                        self.pids_of(app_id@) == pids.to_set(),
                        k <= pids.len(),
                        forall|i: int|
                            0 <= i < r@.len() ==> (exists|j: int| 0 <= j < k && pids[j] == (#[trigger] r@[i]).pid)
                                && self.processes().contains_key(r@[i].pid) && *r@[i]
                                == self.processes()[r@[i].pid],
                        forall|j: int|
                            0 <= j < k && self.processes().contains_key(#[trigger] pids[j]) ==> exists|
                                i: int,
                            | 0 <= i < r@.len() && (#[trigger] r@[i]).pid == pids[j],
                        forall|i: int, j: int| 0 <= i < j < r@.len() ==> r@[i].pid != r@[j].pid,
                        forall|p: u32| #[trigger] self.processes().contains_key(p) <==> exists|q: int|
                            0 <= q < self.by_pid@.len() && pid_key()(#[trigger] self.by_pid@[q]) == p,
                    decreases pids.len() - k,
                {
                    let p = self.by_app[a].pids[k];
                    match self.pid_index(p) {
                        Some(q) => {
                            proof {
                                lemma_seq_to_map_get(self.by_pid@, pid_key(), q as int);
                                assert forall|i: int| 0 <= i < r@.len() implies r@[i].pid != p by {
                                    let j = choose|j: int| 0 <= j < k && pids[j] == (#[trigger] r@[i]).pid;
                                    assert(pids[j] != pids[k as int]);
                                }
                            }
                            let ghost old_r = r@;
                            r.push(&self.by_pid[q]);
                            proof {
                                assert(r@[old_r.len() as int].pid == pids[k as int]);
                                assert forall|i: int| 0 <= i < old_r.len() implies r@[i] == old_r[i] by {}
                                assert forall|j: int|
                                    0 <= j < k + 1 && self.processes().contains_key(#[trigger] pids[j]) implies exists|
                                        i: int,
                                    | 0 <= i < r@.len() && (#[trigger] r@[i]).pid == pids[j] by {
                                    if j < k {
                                        let i = choose|i: int| 0 <= i < old_r.len() && (#[trigger] old_r[i]).pid == pids[j];
                                        assert(r@[i] == old_r[i]);
                                    } else {
                                        assert(r@[old_r.len() as int].pid == pids[j]);
                                    }
                                }
                                assert forall|i: int|
                                    0 <= i < r@.len() implies (exists|j: int| 0 <= j < k + 1 && pids[j] == (#[trigger] r@[i]).pid)
                                        && self.processes().contains_key(r@[i].pid) && *r@[i]
                                        == self.processes()[r@[i].pid] by {
                                    if i < old_r.len() {
                                        assert(r@[i] == old_r[i]);
                                        let j = choose|j: int| 0 <= j < k && pids[j] == (#[trigger] old_r[i]).pid;
                                        assert(pids[j] == r@[i].pid);
                                    } else {
                                        assert(pids[k as int] == r@[i].pid);
                                    }
                                }
                            }
                        },
                        None => {
                            assert(!self.processes().contains_key(p));
                            assert forall|j: int|
                                0 <= j < k + 1 && self.processes().contains_key(#[trigger] pids[j]) implies exists|
                                    i: int,
                                | 0 <= i < r@.len() && (#[trigger] r@[i]).pid == pids[j] by {
                            }
                            assert forall|i: int|
                                0 <= i < r@.len() implies (exists|j: int| 0 <= j < k + 1 && pids[j] == (#[trigger] r@[i]).pid) by {
                                let j = choose|j: int| 0 <= j < k && pids[j] == (#[trigger] r@[i]).pid;
                            }
                        },
                    }
                    k = k + 1;
                }
                proof {
                    assert forall|i: int|
                        0 <= i < r@.len() implies self.pids_of(app_id@).contains((#[trigger] r@[i]).pid) by {
                        let j = choose|j: int| 0 <= j < k && pids[j] == (#[trigger] r@[i]).pid;
                        assert(pids.contains(pids[j]));
                    }
                    assert forall|p: u32|
                        #![trigger self.processes().contains_key(p)]
                        self.pids_of(app_id@).contains(p) && self.processes().contains_key(p) implies exists|
                            i: int,
                        | 0 <= i < r@.len() && (#[trigger] r@[i]).pid == p by {
                        assert(pids.contains(p));
                        let j = choose|j: int| 0 <= j < pids.len() && pids[j] == p;
                        assert(self.processes().contains_key(pids[j]));
                    }
                }
            },
        }
        proof {
            assert forall|i: int| 0 <= i < r@.len() implies (#[trigger] r@[i]).app_id@ == app_id@ by {
                assert(self.pids_of(app_id@).contains(r@[i].pid));
                assert(self.app_pids().contains_key(app_id@));
                assert(self.app_pids()[app_id@].contains(r@[i].pid));
            }
            assert forall|p: u32|
                #![trigger self.processes().contains_key(p)]
                self.processes().contains_key(p) && self.processes()[p].app_id@ == app_id@ implies exists|i: int|
                    0 <= i < r@.len() && (#[trigger] r@[i]).pid == p by {
                assert(self.pids_of(app_id@).contains(p));
            }
        }
        r
    }

    /// Find the app for a PID.
    pub fn app_for(&self, pid: u32) -> (r: Option<&str>)
        requires
            self.wf(),
        ensures
            match r {
                Some(a) => self.processes().contains_key(pid) && a@ == self.processes()[pid].app_id@,
                None => !self.processes().contains_key(pid),
            },
    {
        proof {
            lemma_seq_to_map_dom(self.by_pid@, pid_key());
        }
        match self.pid_index(pid) {
            Some(i) => {
                proof {
                    lemma_seq_to_map_get(self.by_pid@, pid_key(), i as int);
                }
                Some(self.by_pid[i].app_id.as_str())
            },
            None => None,
        }
    }

    /// Get child processes of a parent: every registered process with that
    /// parent pid, once.
    pub fn children_of(&self, ppid: u32) -> (r: Vec<&AppProcess>)
        requires
            self.wf(),
        ensures
            forall|i: int|
                0 <= i < r@.len() ==> self.processes().contains_key((#[trigger] r@[i]).pid) && *r@[i]
                    == self.processes()[r@[i].pid] && r@[i].parent_pid == ppid,
            forall|p: u32|
                self.processes().contains_key(p) && (#[trigger] self.processes()[p]).parent_pid == ppid
                    ==> exists|i: int| 0 <= i < r@.len() && (#[trigger] r@[i]).pid == p,
            forall|i: int, j: int| 0 <= i < j < r@.len() ==> r@[i].pid != r@[j].pid,
    {
        let mut r: Vec<&AppProcess> = Vec::new();
        let mut k: usize = 0;
        while k < self.by_pid.len()
            invariant
                self.wf(),
                k <= self.by_pid@.len(),
                forall|i: int|
                    0 <= i < r@.len() ==> exists|j: int|
                        0 <= j < k && self.by_pid@[j] == *(#[trigger] r@[i]) && r@[i].parent_pid == ppid,
                forall|j: int|
                    0 <= j < k && (#[trigger] self.by_pid@[j]).parent_pid == ppid ==> exists|i: int|
                        0 <= i < r@.len() && (#[trigger] r@[i]).pid == self.by_pid@[j].pid,
                forall|i: int, j: int| 0 <= i < j < r@.len() ==> r@[i].pid != r@[j].pid,
            decreases self.by_pid@.len() - k,
        {
            if self.by_pid[k].parent_pid == ppid {
                proof {
                    assert forall|i: int| 0 <= i < r@.len() implies r@[i].pid != self.by_pid@[k as int].pid by {
                        let j = choose|j: int|
                            0 <= j < k && self.by_pid@[j] == *(#[trigger] r@[i]) && r@[i].parent_pid == ppid;
                        assert(pid_key()(self.by_pid@[j]) != pid_key()(self.by_pid@[k as int]));
                    }
                }
                let ghost old_r = r@;
                r.push(&self.by_pid[k]);
                proof {
                    assert(*r@[old_r.len() as int] == self.by_pid@[k as int]);
                    assert forall|j: int|
                        0 <= j < k + 1 && (#[trigger] self.by_pid@[j]).parent_pid == ppid implies exists|i: int|
                            0 <= i < r@.len() && (#[trigger] r@[i]).pid == self.by_pid@[j].pid by {
                        if j < k {
                            let i = choose|i: int| 0 <= i < old_r.len() && (#[trigger] old_r[i]).pid == self.by_pid@[j].pid;
                            assert(r@[i] == old_r[i]);
                        } else {
                            assert(r@[old_r.len() as int].pid == self.by_pid@[j].pid);
                        }
                    }
                    assert forall|i: int|
                        0 <= i < r@.len() implies exists|j: int|
                            0 <= j < k + 1 && self.by_pid@[j] == *(#[trigger] r@[i]) && r@[i].parent_pid == ppid by {
                        if i < old_r.len() {
                            assert(r@[i] == old_r[i]);
                            let j = choose|j: int|
                                0 <= j < k && self.by_pid@[j] == *(#[trigger] old_r[i]) && old_r[i].parent_pid == ppid;
                            assert(self.by_pid@[j] == *r@[i]);
                        } else {
                            assert(self.by_pid@[k as int] == *r@[i]);
                        }
                    }
                }
            }
            k = k + 1;
        }
        proof {
            lemma_seq_to_map_dom(self.by_pid@, pid_key());
            assert forall|i: int|
                0 <= i < r@.len() implies self.processes().contains_key((#[trigger] r@[i]).pid) && *r@[i]
                == self.processes()[r@[i].pid] && r@[i].parent_pid == ppid by {
                let j = choose|j: int|
                    0 <= j < k && self.by_pid@[j] == *(#[trigger] r@[i]) && r@[i].parent_pid == ppid;
                lemma_seq_to_map_get(self.by_pid@, pid_key(), j);
            }
            assert forall|p: u32|
                self.processes().contains_key(p) && (#[trigger] self.processes()[p]).parent_pid == ppid
                implies exists|i: int| 0 <= i < r@.len() && (#[trigger] r@[i]).pid == p by {
                let j = choose|j: int|
                    0 <= j < self.by_pid@.len() && pid_key()(#[trigger] self.by_pid@[j]) == p;
                lemma_seq_to_map_get(self.by_pid@, pid_key(), j);
            }
        }
        r
    }

    /// Apps with the most processes: the `n` applications with the most
    /// listed pids, with their counts, most first.
    pub fn top_processes(&self, n: usize) -> (r: Vec<(String, usize)>)
        requires
            self.wf(),
        ensures
            is_top_n(self.app_rows(), n as nat, r@),
    {
        let mut rows: Vec<(String, usize)> = Vec::new();
        let mut k: usize = 0;
        while k < self.by_app.len()
            invariant
                k <= self.by_app@.len(),
                rows@ == self.app_rows().take(k as int),
            decreases self.by_app@.len() - k,
        {
            rows.push((self.by_app[k].app_id.clone(), self.by_app[k].pids.len()));
            assert(rows@ =~= self.app_rows().take(k + 1));
            k = k + 1;
        }
        assert(rows@ =~= self.app_rows());
        top_n(rows, n)
    }

    pub fn process_count(&self) -> (r: usize)
        requires
            self.wf(),
        ensures
            r == self.processes().dom().len(),
    {
        proof {
            lemma_seq_to_map_len(self.by_pid@, pid_key());
        }
        self.by_pid.len()
    }

    pub fn app_count(&self) -> (r: usize)
        requires
            self.wf(),
        ensures
            r == self.app_pids().dom().len(),
    {
        proof {
            lemma_seq_to_map_len(self.by_app@, app_key());
            assert(self.app_pids().dom() =~= seq_to_map(self.by_app@, app_key()).dom());
        }
        self.by_app.len()
    }
}

impl Default for AppProcessTree {
    fn default() -> (r: Self) {
        Self::new()
    }
}

} // verus!
