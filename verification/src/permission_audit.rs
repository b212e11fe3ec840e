//! Permission audit — full audit of app permission grants and usage.

use vstd::prelude::*;
use crate::clock::{Timestamp, now_millis};
use crate::keyed::{
    has_entry, lookup, upsert, entry_keys_distinct, lemma_entry_index, lemma_upsert_distinct,
    first_index, lemma_first_index, lemma_filter_take_zero, lemma_filter_map_push,
};
use crate::ranking::{is_top_n, top_n};
use crate::text::{str_eq, copy_string, texts};

verus! {

/// Audit record for an app permission.
#[derive(Debug, Clone)]
pub struct AuditRecord {
    pub app_id: String,
    pub permission: String,
    pub granted: bool,
    pub granted_at: Option<Timestamp>,
    pub last_used: Option<Timestamp>,
    pub use_count: u64,
    pub justification: Option<String>,
}

/// An audit record as plain data.
pub struct AuditRecordView {
    pub app_id: Seq<char>,
    pub permission: Seq<char>,
    pub granted: bool,
    pub granted_at: Option<Timestamp>,
    pub last_used: Option<Timestamp>,
    pub use_count: u64,
    pub justification: Option<Seq<char>>,
}

/// The characters of an optional text.
pub open spec fn opt_chars(s: Option<String>) -> Option<Seq<char>> {
    match s {
        Some(t) => Some(t@),
        None => None,
    }
}

impl View for AuditRecord {
    type V = AuditRecordView;

    open spec fn view(&self) -> AuditRecordView {
        AuditRecordView {
            app_id: self.app_id@,
            permission: self.permission@,
            granted: self.granted,
            granted_at: self.granted_at,
            last_used: self.last_used,
            use_count: self.use_count,
            justification: opt_chars(self.justification),
        }
    }
}

/// The views of a list of records.
pub open spec fn record_views(s: Seq<AuditRecord>) -> Seq<AuditRecordView> {
    s.map_values(|r: AuditRecord| r@)
}

fn copy_record(r: &AuditRecord) -> (c: AuditRecord)
    ensures
        c@ == r@,
{
    AuditRecord {
        app_id: copy_string(&r.app_id),
        permission: copy_string(&r.permission),
        granted: r.granted,
        granted_at: r.granted_at,
        last_used: r.last_used,
        use_count: r.use_count,
        justification: match &r.justification {
            Some(j) => Some(copy_string(j)),
            None => None,
        },
    }
}

/// Audit report for all permissions.
#[derive(Debug, Clone)]
pub struct AuditReport {
    pub total_apps: usize,
    pub total_permissions: usize,
    pub granted_count: usize,
    pub unused_grants: Vec<AuditRecord>,
    pub overprivileged_apps: Vec<String>,
    pub critical_grants: Vec<AuditRecord>,
}

/// The high-risk permission names.
pub open spec fn is_critical(p: Seq<char>) -> bool {
    ||| p == "camera"@
    ||| p == "microphone"@
    ||| p == "location"@
    ||| p == "contacts"@
    ||| p == "screen_capture"@
    ||| p == "keyboard_input"@
    ||| p == "accessibility"@
    ||| p == "all_files_access"@
    ||| p == "device_admin"@
    ||| p == "bluetooth_scan"@
}

/// Is `p` one of the high-risk permission names?
pub fn is_critical_permission(p: &str) -> (r: bool)
    ensures
        r == is_critical(p@),
{
    str_eq(p, "camera") || str_eq(p, "microphone") || str_eq(p, "location") || str_eq(p, "contacts")
        || str_eq(p, "screen_capture") || str_eq(p, "keyboard_input") || str_eq(p, "accessibility")
        || str_eq(p, "all_files_access") || str_eq(p, "device_admin") || str_eq(p, "bluetooth_scan")
}

/// A record still granted.
pub open spec fn is_granted() -> spec_fn(AuditRecordView) -> bool {
    |r: AuditRecordView| r.granted
}

/// A granted record never used.
pub open spec fn is_unused() -> spec_fn(AuditRecordView) -> bool {
    |r: AuditRecordView| r.granted && r.use_count == 0
}

/// A granted record of a high-risk permission.
pub open spec fn is_critical_grant() -> spec_fn(AuditRecordView) -> bool {
    |r: AuditRecordView| r.granted && is_critical(r.permission)
}

/// A granted record of permission `p`.
pub open spec fn grant_of(p: Seq<char>) -> spec_fn(AuditRecordView) -> bool {
    |r: AuditRecordView| r.permission == p && r.granted
}

/// A record of permission `p`, granted or not.
pub open spec fn record_of(p: Seq<char>) -> spec_fn(AuditRecordView) -> bool {
    |r: AuditRecordView| r.permission == p
}

/// The per-application record lists.
pub type AuditEntries = Seq<(Seq<char>, Seq<AuditRecordView>)>;

/// All records, application by application.
pub open spec fn all_records(e: AuditEntries) -> Seq<AuditRecordView>
    decreases e.len(),
{
    if e.len() == 0 {
        Seq::empty()
    } else {
        all_records(e.drop_last()) + e.last().1
    }
}

/// The number of granted high-risk permissions in `rs`.
pub open spec fn critical_count(rs: Seq<AuditRecordView>) -> nat {
    rs.filter(is_critical_grant()).len()
}

/// An application holding at least three granted high-risk permissions.
pub open spec fn is_overprivileged() -> spec_fn((Seq<char>, Seq<AuditRecordView>)) -> bool {
    |x: (Seq<char>, Seq<AuditRecordView>)| critical_count(x.1) >= 3
}

/// The application of an entry.
pub open spec fn entry_app() -> spec_fn((Seq<char>, Seq<AuditRecordView>)) -> Seq<char> {
    |x: (Seq<char>, Seq<AuditRecordView>)| x.0
}

/// The overprivileged applications, in entry order.
pub open spec fn overprivileged(e: AuditEntries) -> Seq<Seq<char>> {
    e.filter(is_overprivileged()).map_values(entry_app())
}

/// The records of `app` (none when it has no entry).
pub open spec fn records_of(e: AuditEntries, app: Seq<char>) -> Seq<AuditRecordView> {
    match lookup(e, app) {
        Some(v) => v,
        None => Seq::empty(),
    }
}

/// The record made by a grant at `now`.
pub open spec fn grant_view(
    app: Seq<char>,
    perm: Seq<char>,
    justification: Option<Seq<char>>,
    now: Timestamp,
) -> AuditRecordView {
    AuditRecordView {
        app_id: app,
        permission: perm,
        granted: true,
        granted_at: Some(now),
        last_used: None,
        use_count: 0,
        justification,
    }
}

/// `rs` after a use of `perm` at `now`: the first granted record of it
/// counts one more use.
pub open spec fn after_use(rs: Seq<AuditRecordView>, perm: Seq<char>, now: Timestamp) -> Seq<AuditRecordView> {
    let k = first_index(rs, grant_of(perm));
    if k < 0 {
        rs
    } else {
        rs.update(
            k,
            AuditRecordView {
                app_id: rs[k].app_id,
                permission: rs[k].permission,
                granted: rs[k].granted,
                granted_at: rs[k].granted_at,
                last_used: Some(now),
                use_count: (rs[k].use_count + 1) as u64,
                justification: rs[k].justification,
            },
        )
    }
}

/// `rs` after revoking `perm`: its first record is no longer granted.
pub open spec fn after_revoke(rs: Seq<AuditRecordView>, perm: Seq<char>) -> Seq<AuditRecordView> {
    let k = first_index(rs, record_of(perm));
    if k < 0 {
        rs
    } else {
        rs.update(
            k,
            AuditRecordView {
                app_id: rs[k].app_id,
                permission: rs[k].permission,
                granted: false,
                granted_at: rs[k].granted_at,
                last_used: rs[k].last_used,
                use_count: rs[k].use_count,
                justification: rs[k].justification,
            },
        )
    }
}

/// The entries after a use of `perm` by `app` at `t` (unchanged when the
/// application has no entry).
pub open spec fn used_entries(e: AuditEntries, app: Seq<char>, perm: Seq<char>, t: Timestamp) -> AuditEntries {
    if has_entry(e, app) {
        upsert(e, app, after_use(records_of(e, app), perm, t))
    } else {
        e
    }
}

/// The records of all applications up to `n` are a prefix of all records.
pub proof fn lemma_all_records_take(e: AuditEntries, n: int)
    requires
        0 <= n <= e.len(),
    ensures
        all_records(e.take(n)).len() <= all_records(e).len(),
    decreases e.len(),
{
    if n < e.len() {
        assert(e.take(n) =~= e.drop_last().take(n));
        lemma_all_records_take(e.drop_last(), n);
    } else {
        assert(e.take(n) =~= e);
    }
}

/// The records of one application, with its name.
pub struct AppRecords {
    pub app_id: String,
    pub records: Vec<AuditRecord>,
}

/// Permission audit engine.
pub struct PermissionAuditor {
    apps: Vec<AppRecords>,
}

impl PermissionAuditor {
    /// Each application with its records, in the order first granted.
    pub closed spec fn entries(&self) -> AuditEntries {
        self.apps@.map_values(|a: AppRecords| (a.app_id@, record_views(a.records@)))
    }

    /// One entry per application.
    pub open spec fn wf(&self) -> bool {
        entry_keys_distinct(self.entries())
    }

    /// The records of all applications can be counted in a `usize`.
    pub open spec fn counts_fit(&self) -> bool {
        all_records(self.entries()).len() <= usize::MAX
    }

    /// Each application with the number of its granted permissions.
    pub closed spec fn grant_rows(&self) -> Seq<(String, usize)> {
        self.apps@.map_values(
            |a: AppRecords| (a.app_id, record_views(a.records@).filter(is_granted()).len() as usize),
        )
    }

    pub fn new() -> (r: Self)
        ensures
            r.wf(),
            r.entries() == Seq::<(Seq<char>, Seq<AuditRecordView>)>::empty(),
    {
        let r = Self { apps: Vec::new() };
        assert(r.entries() =~= Seq::<(Seq<char>, Seq<AuditRecordView>)>::empty());
        r
    }

    fn find(&self, app_id: &str) -> (r: Option<usize>)
        requires
            self.wf(),
        ensures
            match r {
                Some(i) => i < self.entries().len() && self.entries()[i as int].0 == app_id@ && lookup(
                    self.entries(),
                    app_id@,
                ) == Some(self.entries()[i as int].1),
                None => !has_entry(self.entries(), app_id@) && lookup(self.entries(), app_id@) == None::<
                    Seq<AuditRecordView>,
                >,
            },
    {
        let mut i: usize = 0;
        while i < self.apps.len()
            invariant
                i <= self.apps@.len(),
                entry_keys_distinct(self.entries()),
                forall|j: int| 0 <= j < i ==> (#[trigger] self.entries()[j]).0 != app_id@,
            decreases self.apps@.len() - i,
        {
            if str_eq(self.apps[i].app_id.as_str(), app_id) {
                proof {
                    lemma_entry_index(self.entries(), i as int);
                }
                return Some(i);
            }
            i = i + 1;
        }
        None
    }

    /// Record a permission grant at the given instant.
    pub fn record_grant_at(&mut self, app_id: &str, permission: &str, justification: Option<String>, now: Timestamp)
        requires
            old(self).wf(),
        ensures
            final(self).wf(),
            final(self).entries() == upsert(
                old(self).entries(),
                app_id@,
                records_of(old(self).entries(), app_id@).push(
                    grant_view(app_id@, permission@, opt_chars(justification), now),
                ),
            ),
    {
        let ghost e = self.entries();
        let ghost g = grant_view(app_id@, permission@, opt_chars(justification), now);
        let record = AuditRecord {
            app_id: String::from_str(app_id),
            permission: String::from_str(permission),
            granted: true,
            granted_at: Some(now),
            last_used: None,
            use_count: 0,
            justification,
        };
        assert(record@ == g);
        match self.find(app_id) {
            Some(i) => {
                proof {
                    lemma_entry_index(e, i as int);
                }
                let mut row = AppRecords { app_id: String::new(), records: Vec::new() };
                std::mem::swap(&mut row, &mut self.apps[i]);
                let ghost before = row.records@;
                row.records.push(record);
                assert(record_views(row.records@) =~= record_views(before).push(g));
                self.apps.set(i, row);
                assert(self.entries() =~= e.update(i as int, (app_id@, e[i as int].1.push(g))));
            },
            None => {
                let mut recs: Vec<AuditRecord> = Vec::new();
                recs.push(record);
                assert(record_views(recs@) =~= Seq::<AuditRecordView>::empty().push(g));
                self.apps.push(AppRecords { app_id: String::from_str(app_id), records: recs });
                assert(self.entries() =~= e.push((app_id@, Seq::<AuditRecordView>::empty().push(g))));
            },
        }
        proof {
            lemma_upsert_distinct(e, app_id@, records_of(e, app_id@).push(g));
        }
    }

    /// Record a permission grant now.
    pub fn record_grant(&mut self, app_id: &str, permission: &str, justification: Option<String>)
        requires
            old(self).wf(),
        ensures
            final(self).wf(),
            exists|t: Timestamp|
                final(self).entries() == upsert(
                    old(self).entries(),
                    app_id@,
                    records_of(old(self).entries(), app_id@).push(
                        #[trigger] grant_view(app_id@, permission@, opt_chars(justification), t),
                    ),
                ),
    {
        let ghost j = opt_chars(justification);
        let now = now_millis();
        self.record_grant_at(app_id, permission, justification, now);
        assert(self.entries() == upsert(
            old(self).entries(),
            app_id@,
            records_of(old(self).entries(), app_id@).push(grant_view(app_id@, permission@, j, now)),
        ));
    }

    fn first_match(records: &Vec<AuditRecord>, permission: &str, need_granted: bool) -> (r: Option<usize>)
        ensures
            match r {
                Some(k) => k < records@.len(),
                None => true,
            },
            first_index(
                record_views(records@),
                if need_granted { grant_of(permission@) } else { record_of(permission@) },
            ) == match r {
                Some(k) => k as int,
                None => -1,
            },
    {
        let ghost rs = record_views(records@);
        let ghost p = if need_granted { grant_of(permission@) } else { record_of(permission@) };
        let mut k: usize = 0;
        while k < records.len()
            invariant
                k <= records@.len(),
                rs == record_views(records@),
                p == (if need_granted { grant_of(permission@) } else { record_of(permission@) }),
                forall|j: int| 0 <= j < k ==> !p(#[trigger] rs[j]),
            decreases records@.len() - k,
        {
            let r = &records[k];
            if str_eq(r.permission.as_str(), permission) && (r.granted || !need_granted) {
                proof {
                    lemma_first_index(rs, p, k as int);
                }
                return Some(k);
            }
            k = k + 1;
        }
        proof {
            lemma_first_index(rs, p, k as int);
        }
        None
    }

    /// Record a use of a permission at the given instant: the first granted
    /// record of it counts one more use.
    pub fn record_use_at(&mut self, app_id: &str, permission: &str, now: Timestamp)
        requires
            old(self).wf(),
            ({
                let rs = records_of(old(self).entries(), app_id@);
                let k = first_index(rs, grant_of(permission@));
                k >= 0 ==> rs[k].use_count < u64::MAX
            }),
        ensures
            final(self).wf(),
            final(self).entries() == used_entries(old(self).entries(), app_id@, permission@, now),
    {
        let ghost e = self.entries();
        match self.find(app_id) {
            Some(i) => {
                proof {
                    lemma_entry_index(e, i as int);
                }
                let ghost rs = e[i as int].1;
                match Self::first_match(&self.apps[i].records, permission, true) {
                    Some(k) => {
                        let mut row = AppRecords { app_id: String::new(), records: Vec::new() };
                        std::mem::swap(&mut row, &mut self.apps[i]);
                        let mut rec = AuditRecord {
                            app_id: String::new(),
                            permission: String::new(),
                            granted: false,
                            granted_at: None,
                            last_used: None,
                            use_count: 0,
                            justification: None,
                        };
                        std::mem::swap(&mut rec, &mut row.records[k]);
                        assert(rec@ == rs[k as int]);
                        rec.last_used = Some(now);
                        rec.use_count = rec.use_count + 1;
                        let ghost nv = rec@;
                        let ghost before = row.records@;
                        row.records.set(k, rec);
                        assert(record_views(row.records@) =~= rs.update(k as int, nv));
                        self.apps.set(i, row);
                        assert(self.entries() =~= e.update(i as int, (app_id@, after_use(rs, permission@, now))));
                    },
                    None => {
                        assert(after_use(rs, permission@, now) == rs);
                        assert(e.update(i as int, (app_id@, rs)) =~= e);
                    },
                }
                proof {
                    lemma_upsert_distinct(e, app_id@, after_use(rs, permission@, now));
                }
            },
            None => {},
        }
    }

    /// Record a use of a permission now.
    pub fn record_use(&mut self, app_id: &str, permission: &str)
        requires
            old(self).wf(),
            ({
                let rs = records_of(old(self).entries(), app_id@);
                let k = first_index(rs, grant_of(permission@));
                k >= 0 ==> rs[k].use_count < u64::MAX
            }),
        ensures
            final(self).wf(),
            exists|t: Timestamp|
                final(self).entries() == #[trigger] used_entries(old(self).entries(), app_id@, permission@, t),
    {
        let now = now_millis();
        self.record_use_at(app_id, permission, now);
        assert(self.entries() == used_entries(old(self).entries(), app_id@, permission@, now));
    }

    /// Revoke a permission: its first record of the application is no
    /// longer granted. Returns whether there was such a record.
    pub fn revoke(&mut self, app_id: &str, permission: &str) -> (r: bool)
        requires
            old(self).wf(),
        ensures
            final(self).wf(),
            r == (first_index(records_of(old(self).entries(), app_id@), record_of(permission@)) >= 0),
            final(self).entries() == if r {
                upsert(
                    old(self).entries(),
                    app_id@,
                    after_revoke(records_of(old(self).entries(), app_id@), permission@),
                )
            } else {
                old(self).entries()
            },
    {
        let ghost e = self.entries();
        match self.find(app_id) {
            Some(i) => {
                proof {
                    lemma_entry_index(e, i as int);
                }
                let ghost rs = e[i as int].1;
                match Self::first_match(&self.apps[i].records, permission, false) {
                    Some(k) => {
                        let mut row = AppRecords { app_id: String::new(), records: Vec::new() };
                        std::mem::swap(&mut row, &mut self.apps[i]);
                        let mut rec = AuditRecord {
                            app_id: String::new(),
                            permission: String::new(),
                            granted: false,
                            granted_at: None,
                            last_used: None,
                            use_count: 0,
                            justification: None,
                        };
                        std::mem::swap(&mut rec, &mut row.records[k]);
                        assert(rec@ == rs[k as int]);
                        rec.granted = false;
                        let ghost nv = rec@;
                        row.records.set(k, rec);
                        assert(record_views(row.records@) =~= rs.update(k as int, nv));
                        self.apps.set(i, row);
                        assert(self.entries() =~= e.update(i as int, (app_id@, after_revoke(rs, permission@))));
                        proof {
                            lemma_upsert_distinct(e, app_id@, after_revoke(rs, permission@));
                        }
                        true
                    },
                    None => false,
                }
            },
            None => {
                assert(first_index(Seq::<AuditRecordView>::empty(), record_of(permission@)) == -1);
                false
            },
        }
    }

    /// Generate a full audit report.
    pub fn report(&self) -> (r: AuditReport)
        requires
            self.counts_fit(),
        ensures
            r.total_apps == self.entries().len(),
            r.total_permissions == all_records(self.entries()).len(),
            r.granted_count == all_records(self.entries()).filter(is_granted()).len(),
            record_views(r.unused_grants@) == all_records(self.entries()).filter(is_unused()),
            record_views(r.critical_grants@) == all_records(self.entries()).filter(is_critical_grant()),
            texts(r.overprivileged_apps@) == overprivileged(self.entries()),
    {
        let ghost e = self.entries();
        let mut total: usize = 0;
        let mut granted_count: usize = 0;
        let mut unused: Vec<AuditRecord> = Vec::new();
        let mut critical: Vec<AuditRecord> = Vec::new();
        let mut over: Vec<String> = Vec::new();
        proof {
            assert(e.take(0) =~= Seq::<(Seq<char>, Seq<AuditRecordView>)>::empty());
            assert(all_records(e.take(0)) =~= Seq::<AuditRecordView>::empty());
            lemma_filter_take_zero(e, is_overprivileged());
            assert(record_views(unused@) =~= Seq::<AuditRecordView>::empty());
            assert(texts(over@) =~= Seq::<Seq<char>>::empty());
        }
        let mut i: usize = 0;
        while i < self.apps.len()
            invariant
                i <= self.apps@.len(),
                e == self.entries(),
                all_records(e).len() <= usize::MAX,
                total == all_records(e.take(i as int)).len(),
                granted_count == all_records(e.take(i as int)).filter(is_granted()).len(),
                record_views(unused@) == all_records(e.take(i as int)).filter(is_unused()),
                record_views(critical@) == all_records(e.take(i as int)).filter(is_critical_grant()),
                texts(over@) == overprivileged(e.take(i as int)),
            decreases self.apps@.len() - i,
        {
            let recs = &self.apps[i].records;
            let ghost done0 = all_records(e.take(i as int));
            let ghost rs = e[i as int].1;
            proof {
                assert(e.take(i + 1).drop_last() =~= e.take(i as int));
                assert(all_records(e.take(i + 1)) == done0 + rs);
                lemma_all_records_take(e, i + 1);
                lemma_filter_take_zero(rs, is_critical_grant());
            }
            total = total + recs.len();
            let mut crit: usize = 0;
            let mut j: usize = 0;
            while j < recs.len()
                invariant
                    j <= recs@.len(),
                    rs == record_views(recs@),
                    (done0 + rs).len() <= usize::MAX,
                    granted_count == (done0 + rs.take(j as int)).filter(is_granted()).len(),
                    record_views(unused@) == (done0 + rs.take(j as int)).filter(is_unused()),
                    record_views(critical@) == (done0 + rs.take(j as int)).filter(is_critical_grant()),
                    crit == rs.take(j as int).filter(is_critical_grant()).len(),
                decreases recs@.len() - j,
            {
                let r = &recs[j];
                let ghost d = done0 + rs.take(j as int);
                proof {
                    assert(rs[j as int] == r@);
                    assert(done0 + rs.take(j + 1) =~= d.push(r@));
                    assert(rs.take(j + 1) =~= rs.take(j as int).push(r@));
                    d.lemma_filter_push(r@, is_granted());
                    d.lemma_filter_push(r@, is_unused());
                    d.lemma_filter_push(r@, is_critical_grant());
                    rs.take(j as int).lemma_filter_push(r@, is_critical_grant());
                    d.filter(is_granted()).lemma_filter_len(is_granted());
                    d.lemma_filter_len(is_granted());
                    rs.take(j as int).lemma_filter_len(is_critical_grant());
                }
                if r.granted {
                    granted_count = granted_count + 1;
                    if r.use_count == 0 {
                        let ghost before = unused@;
                        unused.push(copy_record(r));
                        assert(record_views(unused@) =~= record_views(before).push(r@));
                    }
                    if is_critical_permission(r.permission.as_str()) {
                        let ghost before = critical@;
                        critical.push(copy_record(r));
                        assert(record_views(critical@) =~= record_views(before).push(r@));
                        crit = crit + 1;
                    }
                }
                j = j + 1;
            }
            proof {
                assert(rs.take(recs@.len() as int) =~= rs);
                lemma_filter_map_push(e.take(i as int), e[i as int], is_overprivileged(), entry_app());
                assert(e.take(i + 1) =~= e.take(i as int).push(e[i as int]));
            }
            if crit >= 3 {
                let ghost before = over@;
                over.push(self.apps[i].app_id.clone());
                assert(texts(over@) =~= texts(before).push(e[i as int].0));
            }
            i = i + 1;
        }
        proof {
            assert(e.take(self.apps@.len() as int) =~= e);
        }
        AuditReport {
            total_apps: self.apps.len(),
            total_permissions: total,
            granted_count,
            unused_grants: unused,
            overprivileged_apps: over,
            critical_grants: critical,
        }
    }

    /// The records of one application, if it has any.
    pub fn for_app(&self, app_id: &str) -> (r: Option<&Vec<AuditRecord>>)
        requires
            self.wf(),
        ensures
            match r {
                Some(v) => lookup(self.entries(), app_id@) == Some(record_views(v@)),
                None => lookup(self.entries(), app_id@) == None::<Seq<AuditRecordView>>,
            },
    {
        match self.find(app_id) {
            Some(i) => Some(&self.apps[i].records),
            None => None,
        }
    }

    fn granted_in(records: &Vec<AuditRecord>) -> (n: usize)
        ensures
            n == record_views(records@).filter(is_granted()).len(),
    {
        let ghost rs = record_views(records@);
        let mut n: usize = 0;
        let mut k: usize = 0;
        proof {
            lemma_filter_take_zero(rs, is_granted());
        }
        while k < records.len()
            invariant
                k <= records@.len(),
                rs == record_views(records@),
                n == rs.take(k as int).filter(is_granted()).len(),
            decreases records@.len() - k,
        {
            proof {
                assert(rs.take(k + 1) =~= rs.take(k as int).push(rs[k as int]));
                rs.take(k as int).lemma_filter_push(rs[k as int], is_granted());
                rs.take(k as int).lemma_filter_len(is_granted());
            }
            if records[k].granted {
                n = n + 1;
            }
            k = k + 1;
        }
        assert(rs.take(records@.len() as int) =~= rs);
        n
    }

    /// Applications with the most granted permissions: the `n` highest
    /// counts, most first.
    pub fn most_permissioned(&self, n: usize) -> (r: Vec<(String, usize)>)
        ensures
            self.grant_rows().len() == self.entries().len(),
            forall|i: int|
                0 <= i < self.entries().len() ==> (#[trigger] self.grant_rows()[i]).0@ == self.entries()[i].0
                    && self.grant_rows()[i].1 == self.entries()[i].1.filter(is_granted()).len(),
            is_top_n(self.grant_rows(), n as nat, r@),
    {
        let mut rows: Vec<(String, usize)> = Vec::new();
        let mut k: usize = 0;
        while k < self.apps.len()
            invariant
                k <= self.apps@.len(),
                rows@ == self.grant_rows().take(k as int),
            decreases self.apps@.len() - k,
        {
            let c = Self::granted_in(&self.apps[k].records);
            rows.push((self.apps[k].app_id.clone(), c));
            assert(rows@ =~= self.grant_rows().take(k + 1));
            k = k + 1;
        }
        assert(rows@ =~= self.grant_rows());
        proof {
            assert forall|i: int| 0 <= i < self.entries().len() implies (#[trigger] self.grant_rows()[i]).0@
                == self.entries()[i].0 && self.grant_rows()[i].1 == self.entries()[i].1.filter(is_granted()).len() by {
                let a = self.apps@[i];
                record_views(a.records@).lemma_filter_len(is_granted());
                assert(a.records.len() == a.records@.len());
                assert(record_views(a.records@).len() == a.records@.len());
                assert(self.grant_rows()[i] == (a.app_id, record_views(a.records@).filter(is_granted()).len() as usize));
                assert(self.entries()[i] == (a.app_id@, record_views(a.records@)));
            }
        }
        top_n(rows, n)
    }

    pub fn app_count(&self) -> (r: usize)
        ensures
            r == self.entries().len(),
    {
        self.apps.len()
    }
}

impl Default for PermissionAuditor {
    fn default() -> (r: Self)
        ensures
            r.wf(),
            r.entries() == Seq::<(Seq<char>, Seq<AuditRecordView>)>::empty(),
    {
        Self::new()
    }
}

} // verus!
