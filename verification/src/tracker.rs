//! Usage tracking — records launches, foreground time and sizes per app,
//! and finds archive candidates.

use vstd::prelude::*;
use crate::clock::{Timestamp, now_millis, whole_days, days_between};
use crate::keyed::{Keyed, position_of, has_entry, entry_index, lookup, upsert, entry_keys_distinct, lemma_entry_index, lemma_upsert_distinct};
use crate::ranking::{Scored, scores_fit, sort_desc, lemma_map_same_multiset, stable_desc, stable_sort_desc, lemma_stable_desc_map};
use crate::text::copy_string;

verus! {

#[derive(Debug, Clone)]
pub struct AppUsage {
    pub app_id: String,
    pub display_name: String,
    pub foreground_time_secs: u64,
    pub launch_count: u64,
    pub last_used: Timestamp,
    pub first_seen: Timestamp,
    pub installed_size_bytes: u64,
    pub data_size_bytes: u64,
    pub archived: bool,
}

/// The usage record of an application as plain data.
pub struct UsageView {
    pub app_id: Seq<char>,
    pub display_name: Seq<char>,
    pub foreground_time_secs: u64,
    pub launch_count: u64,
    pub last_used: Timestamp,
    pub first_seen: Timestamp,
    pub installed_size_bytes: u64,
    pub data_size_bytes: u64,
    pub archived: bool,
}

impl View for AppUsage {
    type V = UsageView;

    open spec fn view(&self) -> UsageView {
        UsageView {
            app_id: self.app_id@,
            display_name: self.display_name@,
            foreground_time_secs: self.foreground_time_secs,
            launch_count: self.launch_count,
            last_used: self.last_used,
            first_seen: self.first_seen,
            installed_size_bytes: self.installed_size_bytes,
            data_size_bytes: self.data_size_bytes,
            archived: self.archived,
        }
    }
}

/// An application not used for more than `threshold_days` whole days at `now`.
pub open spec fn unused_at(u: AppUsage, threshold_days: i64, now: Timestamp) -> bool {
    whole_days(now - u.last_used) > threshold_days
}

/// An application to offer for archiving: unused and not archived yet.
pub open spec fn archive_candidate(u: AppUsage, threshold_days: i64, now: Timestamp) -> bool {
    unused_at(u, threshold_days, now) && !u.archived
}

/// The records behind a list of references.
pub open spec fn usage_values(s: Seq<&AppUsage>) -> Seq<AppUsage> {
    s.map_values(|u: &AppUsage| *u)
}

/// The binary and data size of an application.
pub open spec fn total_size_of(u: AppUsage) -> int {
    u.installed_size_bytes + u.data_size_bytes
}

/// The summed binary sizes of a list of applications.
pub open spec fn installed_sum(s: Seq<AppUsage>) -> int
    decreases s.len(),
{
    if s.len() == 0 {
        0
    } else {
        installed_sum(s.drop_last()) + s.last().installed_size_bytes
    }
}

/// Whole days from the last use of `u` to `now`.
pub open spec fn days_since_at(u: AppUsage, now: Timestamp) -> int {
    whole_days(now - u.last_used)
}

impl AppUsage {
    /// Whole days from the last use to `now`.
    pub fn days_since_last_use_at(&self, now: Timestamp) -> (r: i64)
        ensures
            r == days_since_at(*self, now),
    {
        days_between(now, self.last_used)
    }

    /// Whole days from the last use to now.
    pub fn days_since_last_use(&self) -> (r: i64)
        ensures
            exists|now: Timestamp| r == #[trigger] days_since_at(*self, now),
    {
        let now = now_millis();
        self.days_since_last_use_at(now)
    }

    /// Unused for more than `threshold_days` days at `now`?
    pub fn is_unused_at(&self, threshold_days: i64, now: Timestamp) -> (r: bool)
        ensures
            r == unused_at(*self, threshold_days, now),
    {
        self.days_since_last_use_at(now) > threshold_days
    }

    /// Unused for more than `threshold_days` days now?
    pub fn is_unused(&self, threshold_days: i64) -> (r: bool)
        ensures
            exists|now: Timestamp| r == #[trigger] unused_at(*self, threshold_days, now),
    {
        let now = now_millis();
        self.is_unused_at(threshold_days, now)
    }

    pub fn total_size(&self) -> (r: u64)
        requires
            total_size_of(*self) <= u64::MAX,
        ensures
            r == total_size_of(*self),
    {
        self.installed_size_bytes + self.data_size_bytes
    }

    /// Whole days since the application was first seen, at least 1: the
    /// divisor of its launch frequency.
    pub fn days_tracked_at(&self, now: Timestamp) -> (r: i64)
        ensures
            r == if whole_days(now - self.first_seen) > 1 { whole_days(now - self.first_seen) } else { 1 },
    {
        let d = days_between(now, self.first_seen);
        if d > 1 {
            d
        } else {
            1
        }
    }
}

fn copy_usage(u: &AppUsage) -> (r: AppUsage)
    ensures
        r@ == u@,
{
    AppUsage {
        app_id: copy_string(&u.app_id),
        display_name: copy_string(&u.display_name),
        foreground_time_secs: u.foreground_time_secs,
        launch_count: u.launch_count,
        last_used: u.last_used,
        first_seen: u.first_seen,
        installed_size_bytes: u.installed_size_bytes,
        data_size_bytes: u.data_size_bytes,
        archived: u.archived,
    }
}

/// A tracked application under its key.
pub struct UsageEntry {
    pub key: String,
    pub usage: AppUsage,
}

impl Keyed for UsageEntry {
    open spec fn key(&self) -> Seq<char> {
        self.key@
    }

    fn key_str(&self) -> (k: &str) {
        self.key.as_str()
    }
}

/// An application ranked by its binary size, the space archiving frees.
pub struct BySize<'a>(pub &'a AppUsage);

impl<'a> Scored for BySize<'a> {
    open spec fn score(&self) -> int {
        self.0.installed_size_bytes as int
    }

    fn score_value(&self) -> (v: u64) {
        self.0.installed_size_bytes
    }
}

/// An application ranked by the recency of its last use.
pub struct ByRecency<'a>(pub &'a AppUsage);

impl<'a> Scored for ByRecency<'a> {
    open spec fn score(&self) -> int {
        self.0.last_used - i64::MIN
    }

    fn score_value(&self) -> (v: u64) {
        ((self.0.last_used as i128) - (i64::MIN as i128)) as u64
    }
}

/// An application ranked by its binary size.
impl Scored for AppUsage {
    open spec fn score(&self) -> int {
        self.installed_size_bytes as int
    }

    fn score_value(&self) -> (v: u64) {
        self.installed_size_bytes
    }
}

/// The archive candidates among `s` at `now`, most binary size (the space
/// archiving frees) first; candidates of equal size keep their order in
/// `s`.
pub open spec fn archive_order(s: Seq<AppUsage>, threshold_days: i64, now: Timestamp) -> Seq<AppUsage> {
    stable_desc(s.filter(candidate_at(threshold_days, now)))
}

/// The record behind a size-ranked reference.
pub open spec fn unwrap_size<'a>() -> spec_fn(BySize<'a>) -> AppUsage {
    |b: BySize<'a>| *b.0
}

/// The record behind a recency-ranked reference.
pub open spec fn unwrap_recency<'a>() -> spec_fn(ByRecency<'a>) -> AppUsage {
    |b: ByRecency<'a>| *b.0
}

/// An archive candidate under the given threshold at `now`.
pub open spec fn candidate_at(threshold_days: i64, now: Timestamp) -> spec_fn(AppUsage) -> bool {
    |u: AppUsage| archive_candidate(u, threshold_days, now)
}

/// The binary sizes over a prefix of the candidates never exceed those over
/// all of them.
pub proof fn lemma_installed_sum_prefix(s: Seq<AppUsage>, n: int, p: spec_fn(AppUsage) -> bool)
    requires
        0 <= n <= s.len(),
    ensures
        0 <= installed_sum(s.take(n).filter(p)) <= installed_sum(s.filter(p)),
    decreases s.len(),
{
    reveal(Seq::filter);
    if s.len() > 0 {
        let q = s.drop_last();
        if n == s.len() {
            assert(s.take(n) =~= s);
            lemma_installed_sum_prefix(q, q.len() as int, p);
            assert(q.take(q.len() as int) =~= q);
        } else {
            assert(s.take(n) =~= q.take(n));
            lemma_installed_sum_prefix(q, n, p);
        }
        assert(s.filter(p) == if p(s.last()) { q.filter(p).push(s.last()) } else { q.filter(p) });
        if p(s.last()) {
            assert(s.filter(p).drop_last() =~= q.filter(p));
        }
    }
}

/// The record of a first launch.
pub open spec fn first_launch(app_id: Seq<char>, display_name: Seq<char>, now: Timestamp) -> UsageView {
    UsageView {
        app_id,
        display_name,
        foreground_time_secs: 0,
        launch_count: 1,
        last_used: now,
        first_seen: now,
        installed_size_bytes: 0,
        data_size_bytes: 0,
        archived: false,
    }
}

/// The record after one more launch at `now`.
pub open spec fn relaunch(u: UsageView, now: Timestamp) -> UsageView {
    UsageView { launch_count: (u.launch_count + 1) as u64, last_used: now, ..u }
}

/// The entries after a launch of `app_id` at `now`.
pub open spec fn launched(
    s: Seq<(Seq<char>, UsageView)>,
    app_id: Seq<char>,
    display_name: Seq<char>,
    now: Timestamp,
) -> Seq<(Seq<char>, UsageView)> {
    upsert(
        s,
        app_id,
        match lookup(s, app_id) {
            Some(u) => relaunch(u, now),
            None => first_launch(app_id, display_name, now),
        },
    )
}

/// The entries after `seconds` of foreground time of `app_id` at `now`.
pub open spec fn foregrounded(
    s: Seq<(Seq<char>, UsageView)>,
    app_id: Seq<char>,
    seconds: u64,
    now: Timestamp,
) -> Seq<(Seq<char>, UsageView)> {
    match lookup(s, app_id) {
        Some(u) => upsert(
            s,
            app_id,
            UsageView { foreground_time_secs: (u.foreground_time_secs + seconds) as u64, last_used: now, ..u },
        ),
        None => s,
    }
}

pub struct UsageTracker {
    apps: Vec<UsageEntry>,
    archive_threshold_days: i64,
}

impl UsageTracker {
    /// The tracked applications under their keys, in order of first record.
    pub closed spec fn entries(&self) -> Seq<(Seq<char>, UsageView)> {
        self.apps@.map_values(|e: UsageEntry| (e.key@, e.usage@))
    }

    /// The tracked records, in order of first record.
    pub closed spec fn usages(&self) -> Seq<AppUsage> {
        self.apps@.map_values(|e: UsageEntry| e.usage)
    }

    /// Days without use after which an application is an archive candidate.
    pub closed spec fn threshold(&self) -> i64 {
        self.archive_threshold_days
    }

    /// One record per key, and records and entries agree.
    pub open spec fn wf(&self) -> bool {
        &&& entry_keys_distinct(self.entries())
        &&& self.usages().len() == self.entries().len()
        &&& forall|i: int| 0 <= i < self.usages().len() ==> (#[trigger] self.usages()[i])@ == self.entries()[i].1
    }

    pub fn new(archive_threshold_days: i64) -> (r: Self)
        ensures
            r.wf(),
            r.entries() == Seq::<(Seq<char>, UsageView)>::empty(),
            r.threshold() == archive_threshold_days,
    {
        let r = Self { apps: Vec::new(), archive_threshold_days };
        assert(r.entries() =~= Seq::<(Seq<char>, UsageView)>::empty());
        r
    }

    proof fn lemma_index(&self, i: int)
        requires
            self.wf(),
            0 <= i < self.apps@.len(),
        ensures
            self.entries()[i] == (self.apps@[i].key@, self.apps@[i].usage@),
            has_entry(self.entries(), self.apps@[i].key@),
            entry_index(self.entries(), self.apps@[i].key@) == i,
            lookup(self.entries(), self.apps@[i].key@) == Some(self.apps@[i].usage@),
    {
        lemma_entry_index(self.entries(), i);
    }

    proof fn lemma_absent(&self, k: Seq<char>)
        requires
            forall|j: int| 0 <= j < self.apps@.len() ==> self.apps@[j].key@ != k,
        ensures
            !has_entry(self.entries(), k),
            lookup(self.entries(), k) is None,
    {
        if has_entry(self.entries(), k) {
            let j = choose|j: int| 0 <= j < self.entries().len() && (#[trigger] self.entries()[j]).0 == k;
            assert(self.entries()[j].0 == self.apps@[j].key@);
        }
    }

    /// Replace the record at `i`, keeping its key.
    fn replace_at(&mut self, i: usize, u: AppUsage)
        requires
            old(self).wf(),
            i < old(self).apps@.len(),
        ensures
            final(self).wf(),
            final(self).entries() == upsert(old(self).entries(), old(self).apps@[i as int].key@, u@),
            final(self).threshold() == old(self).threshold(),
    {
        proof {
            self.lemma_index(i as int);
        }
        let ghost k = self.apps@[i as int].key@;
        let key = copy_string(&self.apps[i].key);
        self.apps.set(i, UsageEntry { key, usage: u });
        proof {
            assert(self.entries() =~= upsert(old(self).entries(), k, u@));
            lemma_upsert_distinct(old(self).entries(), k, u@);
            assert forall|j: int| 0 <= j < self.usages().len() implies (#[trigger] self.usages()[j])@ == self.entries()[j].1 by {
                if j != i {
                    assert(old(self).usages()[j]@ == old(self).entries()[j].1);
                }
            }
        }
    }

    /// Record a launch at the given instant.
    pub fn record_launch_at(&mut self, app_id: &str, display_name: &str, now: Timestamp)
        requires
            old(self).wf(),
            lookup(old(self).entries(), app_id@) matches Some(u) ==> u.launch_count < u64::MAX,
        ensures
            final(self).wf(),
            final(self).threshold() == old(self).threshold(),
            final(self).entries() == launched(old(self).entries(), app_id@, display_name@, now),
    {
        match position_of(&self.apps, app_id) {
            Some(i) => {
                proof {
                    self.lemma_index(i as int);
                }
                let mut u = copy_usage(&self.apps[i].usage);
                u.launch_count = u.launch_count + 1;
                u.last_used = now;
                self.replace_at(i, u);
            },
            None => {
                proof {
                    self.lemma_absent(app_id@);
                }
                let u = AppUsage {
                    app_id: String::from_str(app_id),
                    display_name: String::from_str(display_name),
                    foreground_time_secs: 0,
                    launch_count: 1,
                    last_used: now,
                    first_seen: now,
                    installed_size_bytes: 0,
                    data_size_bytes: 0,
                    archived: false,
                };
                let ghost uv = u@;
                self.apps.push(UsageEntry { key: String::from_str(app_id), usage: u });
                proof {
                    assert(self.entries() =~= upsert(old(self).entries(), app_id@, uv));
                    lemma_upsert_distinct(old(self).entries(), app_id@, uv);
                    assert forall|j: int| 0 <= j < self.usages().len() implies (#[trigger] self.usages()[j])@ == self.entries()[j].1 by {
                        if j < old(self).usages().len() {
                            assert(old(self).usages()[j]@ == old(self).entries()[j].1);
                        }
                    }
                }
            },
        }
    }

    /// Record a launch now.
    pub fn record_launch(&mut self, app_id: &str, display_name: &str)
        requires
            old(self).wf(),
            lookup(old(self).entries(), app_id@) matches Some(u) ==> u.launch_count < u64::MAX,
        ensures
            final(self).wf(),
            final(self).threshold() == old(self).threshold(),
            exists|now: Timestamp| final(self).entries() == #[trigger] launched(old(self).entries(), app_id@, display_name@, now),
    {
        let now = now_millis();
        self.record_launch_at(app_id, display_name, now);
    }

    /// Add foreground time to a tracked application at the given instant;
    /// an unknown application is ignored.
    pub fn record_foreground_time_at(&mut self, app_id: &str, seconds: u64, now: Timestamp)
        requires
            old(self).wf(),
            lookup(old(self).entries(), app_id@) matches Some(u) ==> u.foreground_time_secs + seconds <= u64::MAX,
        ensures
            final(self).wf(),
            final(self).threshold() == old(self).threshold(),
            final(self).entries() == foregrounded(old(self).entries(), app_id@, seconds, now),
    {
        match position_of(&self.apps, app_id) {
            Some(i) => {
                proof {
                    self.lemma_index(i as int);
                }
                let mut u = copy_usage(&self.apps[i].usage);
                u.foreground_time_secs = u.foreground_time_secs + seconds;
                u.last_used = now;
                self.replace_at(i, u);
            },
            None => {
                proof {
                    self.lemma_absent(app_id@);
                }
            },
        }
    }

    /// Add foreground time to a tracked application now.
    pub fn record_foreground_time(&mut self, app_id: &str, seconds: u64)
        requires
            old(self).wf(),
            lookup(old(self).entries(), app_id@) matches Some(u) ==> u.foreground_time_secs + seconds <= u64::MAX,
        ensures
            final(self).wf(),
            final(self).threshold() == old(self).threshold(),
            exists|now: Timestamp| final(self).entries() == #[trigger] foregrounded(old(self).entries(), app_id@, seconds, now),
    {
        let now = now_millis();
        self.record_foreground_time_at(app_id, seconds, now);
    }

    /// Set the sizes of a tracked application; an unknown one is ignored.
    pub fn update_size(&mut self, app_id: &str, installed: u64, data: u64)
        requires
            old(self).wf(),
        ensures
            final(self).wf(),
            final(self).threshold() == old(self).threshold(),
            final(self).entries() == match lookup(old(self).entries(), app_id@) {
                Some(u) => upsert(
                    old(self).entries(),
                    app_id@,
                    UsageView { installed_size_bytes: installed, data_size_bytes: data, ..u },
                ),
                None => old(self).entries(),
            },
    {
        match position_of(&self.apps, app_id) {
            Some(i) => {
                proof {
                    self.lemma_index(i as int);
                }
                let mut u = copy_usage(&self.apps[i].usage);
                u.installed_size_bytes = installed;
                u.data_size_bytes = data;
                self.replace_at(i, u);
            },
            None => {
                proof {
                    self.lemma_absent(app_id@);
                }
            },
        }
    }

    /// Mark a tracked application archived; false when it is unknown.
    pub fn mark_archived(&mut self, app_id: &str) -> (r: bool)
        requires
            old(self).wf(),
        ensures
            final(self).wf(),
            final(self).threshold() == old(self).threshold(),
            r == has_entry(old(self).entries(), app_id@),
            final(self).entries() == match lookup(old(self).entries(), app_id@) {
                Some(u) => upsert(old(self).entries(), app_id@, UsageView { archived: true, ..u }),
                None => old(self).entries(),
            },
    {
        match position_of(&self.apps, app_id) {
            Some(i) => {
                proof {
                    self.lemma_index(i as int);
                }
                let mut u = copy_usage(&self.apps[i].usage);
                u.archived = true;
                self.replace_at(i, u);
                true
            },
            None => {
                proof {
                    self.lemma_absent(app_id@);
                }
                false
            },
        }
    }

    /// The record of an application, if it is tracked.
    pub fn get_app(&self, app_id: &str) -> (r: Option<&AppUsage>)
        requires
            self.wf(),
        ensures
            match r {
                Some(u) => lookup(self.entries(), app_id@) == Some(u@),
                None => lookup(self.entries(), app_id@) is None,
            },
    {
        match position_of(&self.apps, app_id) {
            Some(i) => {
                proof {
                    self.lemma_index(i as int);
                }
                Some(&self.apps[i].usage)
            },
            None => {
                proof {
                    self.lemma_absent(app_id@);
                }
                None
            },
        }
    }

    /// Every tracked record, in order of first record.
    pub fn all_apps(&self) -> (r: Vec<&AppUsage>)
        ensures
            usage_values(r@) == self.usages(),
    {
        let mut r: Vec<&AppUsage> = Vec::new();
        let mut i: usize = 0;
        while i < self.apps.len()
            invariant
                i <= self.apps@.len(),
                r@.len() == i,
                usage_values(r@) == self.usages().take(i as int),
            decreases self.apps@.len() - i,
        {
            let ghost rb = r@;
            r.push(&self.apps[i].usage);
            proof {
                assert forall|j: int| 0 <= j < i + 1 implies #[trigger] usage_values(r@)[j] == self.usages().take(i + 1)[j] by {
                    if j < i {
                        assert(r@[j] == rb[j]);
                        assert(usage_values(rb)[j] == self.usages().take(i as int)[j]);
                    }
                }
            }
            assert(usage_values(r@) =~= self.usages().take(i + 1));
            i = i + 1;
        }
        assert(self.usages().take(self.apps@.len() as int) =~= self.usages());
        r
    }

    pub fn app_count(&self) -> (r: usize)
        ensures
            r == self.entries().len(),
    {
        self.apps.len()
    }

    /// Track a record under a key of the caller's choice, replacing any
    /// record under that key.
    pub fn insert_raw(&mut self, app_id: String, usage: AppUsage)
        requires
            old(self).wf(),
        ensures
            final(self).wf(),
            final(self).threshold() == old(self).threshold(),
            final(self).entries() == upsert(old(self).entries(), app_id@, usage@),
    {
        match position_of(&self.apps, app_id.as_str()) {
            Some(i) => {
                proof {
                    self.lemma_index(i as int);
                }
                self.replace_at(i, usage);
            },
            None => {
                proof {
                    self.lemma_absent(app_id@);
                }
                let ghost uv = usage@;
                let ghost k = app_id@;
                self.apps.push(UsageEntry { key: app_id, usage });
                proof {
                    assert(self.entries() =~= upsert(old(self).entries(), k, uv));
                    lemma_upsert_distinct(old(self).entries(), k, uv);
                    assert forall|j: int| 0 <= j < self.usages().len() implies (#[trigger] self.usages()[j])@ == self.entries()[j].1 by {
                        if j < old(self).usages().len() {
                            assert(old(self).usages()[j]@ == old(self).entries()[j].1);
                        }
                    }
                }
            },
        }
    }
}

impl UsageTracker {
    /// Unused, unarchived applications at the given instant, most
    /// reclaimable space (binary size) first.
    pub fn archive_candidates_at(&self, now: Timestamp) -> (r: Vec<&AppUsage>)
        ensures
            usage_values(r@) == archive_order(self.usages(), self.threshold(), now),
            usage_values(r@).to_multiset() == self.usages().filter(candidate_at(self.threshold(), now)).to_multiset(),
            forall|i: int, j: int| 0 <= i < j < r@.len() ==> r@[i].installed_size_bytes >= r@[j].installed_size_bytes,
    {
        let ghost us = self.usages();
        let ghost pred = candidate_at(self.archive_threshold_days, now);
        let mut cands: Vec<BySize> = Vec::new();
        let mut i: usize = 0;
        proof {
            reveal(Seq::filter);
            assert(us.take(0).filter(pred) =~= Seq::<AppUsage>::empty());
            assert(cands@.map_values(unwrap_size()) =~= Seq::<AppUsage>::empty());
        }
        while i < self.apps.len()
            invariant
                i <= self.apps@.len(),
                us == self.usages(),
                pred == candidate_at(self.archive_threshold_days, now),
                cands@.map_values(unwrap_size()) == us.take(i as int).filter(pred),
                scores_fit(cands@),
            decreases self.apps@.len() - i,
        {
            proof {
                assert(us.take(i + 1) =~= us.take(i as int).push(us[i as int]));
                us.take(i as int).lemma_filter_push(us[i as int], pred);
                assert(us[i as int] == self.apps@[i as int].usage);
            }
            let u = &self.apps[i].usage;
            if u.is_unused_at(self.archive_threshold_days, now) && !u.archived {
                let ghost before = cands@;
                cands.push(BySize(u));
                proof {
                    assert(cands@.map_values(unwrap_size()) =~= before.map_values(unwrap_size()).push(*u));
                    assert forall|k: int| 0 <= k < cands@.len() implies (#[trigger] cands@[k]).score() <= u64::MAX by {
                        if k < before.len() {
                            assert(cands@[k] == before[k]);
                        }
                    }
                }
            }
            i = i + 1;
        }
        assert(us.take(us.len() as int) =~= us);
        let ghost cv = cands@;
        let sorted = stable_sort_desc(cands);
        proof {
            lemma_map_same_multiset(sorted@, cv, unwrap_size());
            lemma_stable_desc_map(cv, unwrap_size());
        }
        let mut r: Vec<&AppUsage> = Vec::new();
        let mut k: usize = 0;
        while k < sorted.len()
            invariant
                k <= sorted@.len(),
                r@.len() == k,
                forall|j: int| 0 <= j < k ==> r@[j] == sorted@[j].0,
            decreases sorted@.len() - k,
        {
            r.push(sorted[k].0);
            k = k + 1;
        }
        assert(usage_values(r@) =~= sorted@.map_values(unwrap_size()));
        assert forall|a: int, b: int| 0 <= a < b < r@.len() implies r@[a].installed_size_bytes >= r@[b].installed_size_bytes by {
            assert(sorted@[a].score() >= sorted@[b].score());
        }
        r
    }

    /// Unused, unarchived applications now, most reclaimable space (binary
    /// size) first.
    pub fn archive_candidates(&self) -> (r: Vec<&AppUsage>)
        ensures
            exists|now: Timestamp| usage_values(r@) == #[trigger] archive_order(self.usages(), self.threshold(), now),
            forall|i: int, j: int| 0 <= i < j < r@.len() ==> r@[i].installed_size_bytes >= r@[j].installed_size_bytes,
    {
        let now = now_millis();
        self.archive_candidates_at(now)
    }

    /// The binary size of the archive candidates at the given instant (data
    /// is kept).
    pub fn reclaimable_space_at(&self, now: Timestamp) -> (r: u64)
        requires
            installed_sum(self.usages().filter(candidate_at(self.threshold(), now))) <= u64::MAX,
        ensures
            r == installed_sum(self.usages().filter(candidate_at(self.threshold(), now))),
    {
        let ghost us = self.usages();
        let ghost pred = candidate_at(self.archive_threshold_days, now);
        let mut sum: u64 = 0;
        let mut i: usize = 0;
        proof {
            reveal(Seq::filter);
            assert(us.take(0).filter(pred) =~= Seq::<AppUsage>::empty());
        }
        while i < self.apps.len()
            invariant
                i <= self.apps@.len(),
                us == self.usages(),
                pred == candidate_at(self.archive_threshold_days, now),
                installed_sum(us.filter(pred)) <= u64::MAX,
                sum == installed_sum(us.take(i as int).filter(pred)),
            decreases self.apps@.len() - i,
        {
            proof {
                assert(us.take(i + 1) =~= us.take(i as int).push(us[i as int]));
                us.take(i as int).lemma_filter_push(us[i as int], pred);
                assert(us[i as int] == self.apps@[i as int].usage);
                lemma_installed_sum_prefix(us, i + 1, pred);
            }
            let u = &self.apps[i].usage;
            if u.is_unused_at(self.archive_threshold_days, now) && !u.archived {
                proof {
                    assert(us.take(i + 1).filter(pred).drop_last() =~= us.take(i as int).filter(pred));
                }
                sum = sum + u.installed_size_bytes;
            }
            i = i + 1;
        }
        assert(us.take(us.len() as int) =~= us);
        sum
    }

    /// The binary size of the archive candidates now.
    pub fn reclaimable_space(&self) -> (r: u64)
        requires
            forall|now: Timestamp| #[trigger] installed_sum(self.usages().filter(candidate_at(self.threshold(), now))) <= u64::MAX,
        ensures
            exists|now: Timestamp| r == #[trigger] installed_sum(self.usages().filter(candidate_at(self.threshold(), now))),
    {
        let now = now_millis();
        assert(installed_sum(self.usages().filter(candidate_at(self.threshold(), now))) <= u64::MAX);
        self.reclaimable_space_at(now)
    }

    /// Every tracked record, most recently used first.
    pub fn apps_by_recency(&self) -> (r: Vec<&AppUsage>)
        ensures
            usage_values(r@).to_multiset() == self.usages().to_multiset(),
            forall|i: int, j: int| 0 <= i < j < r@.len() ==> r@[i].last_used >= r@[j].last_used,
    {
        let ghost us = self.usages();
        let mut items: Vec<ByRecency> = Vec::new();
        let mut i: usize = 0;
        while i < self.apps.len()
            invariant
                i <= self.apps@.len(),
                us == self.usages(),
                items@.len() == i,
                forall|j: int| 0 <= j < i ==> (#[trigger] items@[j]).0 == us[j],
            decreases self.apps@.len() - i,
        {
            assert(us[i as int] == self.apps@[i as int].usage);
            items.push(ByRecency(&self.apps[i].usage));
            i = i + 1;
        }
        assert(items@.map_values(unwrap_recency()) =~= us);
        let ghost iv = items@;
        assert(scores_fit(iv));
        let sorted = sort_desc(items);
        proof {
            lemma_map_same_multiset(sorted@, iv, unwrap_recency());
        }
        let mut r: Vec<&AppUsage> = Vec::new();
        let mut k: usize = 0;
        while k < sorted.len()
            invariant
                k <= sorted@.len(),
                r@.len() == k,
                forall|j: int| 0 <= j < k ==> r@[j] == sorted@[j].0,
            decreases sorted@.len() - k,
        {
            r.push(sorted[k].0);
            k = k + 1;
        }
        assert(usage_values(r@) =~= sorted@.map_values(unwrap_recency()));
        assert forall|a: int, b: int| 0 <= a < b < r@.len() implies r@[a].last_used >= r@[b].last_used by {
            assert(sorted@[a].score() >= sorted@[b].score());
        }
        r
    }
}

} // verus!

verus! {

/// What the archive candidates are: an app is offered exactly when it is
/// tracked, not archived, and its last use lies more than the threshold
/// in whole days before `now` (so, for a threshold of `t >= 0` days, at
/// least `t + 1` days of milliseconds before `now`); the offers come most
/// binary size first, each candidate as often as it is tracked.
pub proof fn lemma_archive_candidates_are_unused(s: Seq<AppUsage>, threshold_days: i64, now: Timestamp)
    ensures
        forall|x: AppUsage|
            #[trigger] archive_order(s, threshold_days, now).contains(x) <==> (s.contains(x) && !x.archived
                && whole_days(now - x.last_used) > threshold_days),
        threshold_days >= 0 ==> forall|x: AppUsage|
            #[trigger] archive_order(s, threshold_days, now).contains(x) ==> now - x.last_used >= (threshold_days + 1)
                * 86_400_000,
        forall|i: int, j: int|
            0 <= i < j < archive_order(s, threshold_days, now).len() ==> archive_order(s, threshold_days, now)[i].installed_size_bytes
                >= archive_order(s, threshold_days, now)[j].installed_size_bytes,
        archive_order(s, threshold_days, now).to_multiset() == s.filter(candidate_at(threshold_days, now)).to_multiset(),
{
    let p = candidate_at(threshold_days, now);
    let f = s.filter(p);
    crate::ranking::lemma_stable_desc(f);
    let o = archive_order(s, threshold_days, now);
    assert forall|x: AppUsage|
        #[trigger] o.contains(x) <==> (s.contains(x) && !x.archived && whole_days(now - x.last_used) > threshold_days) by {
        vstd::seq_lib::to_multiset_contains(o, x);
        vstd::seq_lib::to_multiset_contains(f, x);
        if s.contains(x) && p(x) {
            let i = choose|i: int| 0 <= i < s.len() && s[i] == x;
            s.lemma_filter_contains(p, i);
        }
        if f.contains(x) {
            s.lemma_filter_contains_rev(p, x);
            s.filter_lemma(p);
            let k = choose|k: int| 0 <= k < f.len() && f[k] == x;
        }
    }
    if threshold_days >= 0 {
        assert forall|x: AppUsage| #[trigger] o.contains(x) implies now - x.last_used >= (threshold_days + 1) * 86_400_000 by {
            let span = now - x.last_used;
            if span < (threshold_days + 1) * 86_400_000 {
                if span >= 0 {
                    assert(span / 86_400_000 <= threshold_days) by (nonlinear_arith)
                        requires
                            0 <= span < (threshold_days + 1) * 86_400_000,
                            threshold_days >= 0,
                    ;
                }
            }
        }
    }
    assert forall|i: int, j: int| 0 <= i < j < o.len() implies o[i].installed_size_bytes >= o[j].installed_size_bytes by {
        assert(o[i].score() >= o[j].score());
    }
}

} // verus!
