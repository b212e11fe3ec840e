//! Usage statistics — aggregated app usage analytics.

use vstd::prelude::*;
use crate::clock::{Timestamp, now_millis, MILLIS_PER_DAY};
use crate::keyed::{first_index, lemma_first_index, lemma_filter_take_zero, put_first, lemma_put_first_found};
use crate::ranking::{is_top_n, top_n};
use crate::text::str_eq;

verus! {

/// Per-app usage record.
#[derive(Debug, Clone, Copy, PartialEq, Eq, Structural)]
pub struct AppStats {
    pub total_launches: u64,
    pub total_runtime_secs: u64,
    pub last_launched: Option<Timestamp>,
    pub days_active: u32,
    pub avg_session_secs: u64,
    pub peak_memory_bytes: u64,
}

/// The record of an application never seen.
pub open spec fn empty_stats() -> AppStats {
    AppStats {
        total_launches: 0,
        total_runtime_secs: 0,
        last_launched: None,
        days_active: 0,
        avg_session_secs: 0,
        peak_memory_bytes: 0,
    }
}

impl Default for AppStats {
    fn default() -> (r: Self)
        ensures
            r == empty_stats(),
    {
        AppStats {
            total_launches: 0,
            total_runtime_secs: 0,
            last_launched: None,
            days_active: 0,
            avg_session_secs: 0,
            peak_memory_bytes: 0,
        }
    }
}

/// The per-application records as plain data.
pub type StatsEntries = Seq<(Seq<char>, AppStats)>;

/// The entry of `app`.
pub open spec fn for_app(app: Seq<char>) -> spec_fn((Seq<char>, AppStats)) -> bool {
    |e: (Seq<char>, AppStats)| e.0 == app
}

/// The record of `app` (the empty record when it has none).
pub open spec fn stats_of(s: StatsEntries, app: Seq<char>) -> AppStats {
    let k = first_index(s, for_app(app));
    if k < 0 {
        empty_stats()
    } else {
        s[k].1
    }
}

/// The entries with the record of `app` set to `st`, added when new.
pub open spec fn with_stats(s: StatsEntries, app: Seq<char>, st: AppStats) -> StatsEntries {
    let k = first_index(s, for_app(app));
    if k < 0 {
        s.push((app, st))
    } else {
        s.update(k, (app, st))
    }
}

/// Record `st` after a launch at `now`.
pub open spec fn launched(st: AppStats, now: Timestamp) -> AppStats {
    AppStats { total_launches: (st.total_launches + 1) as u64, last_launched: Some(now), ..st }
}

/// Record `st` after `seconds` more of runtime: the average session is
/// recomputed when there has been a launch.
pub open spec fn ran(st: AppStats, seconds: u64) -> AppStats {
    let total = (st.total_runtime_secs + seconds) as u64;
    AppStats {
        total_runtime_secs: total,
        avg_session_secs: if st.total_launches > 0 {
            (total / st.total_launches) as u64
        } else {
            st.avg_session_secs
        },
        ..st
    }
}

/// Record `st` after a memory sample of `bytes`.
pub open spec fn sampled(st: AppStats, bytes: u64) -> AppStats {
    AppStats {
        peak_memory_bytes: if bytes > st.peak_memory_bytes {
            bytes
        } else {
            st.peak_memory_bytes
        },
        ..st
    }
}

/// Not launched within `window` days before `now` (or never launched).
pub open spec fn inactive(st: AppStats, now: Timestamp, window: i64) -> bool {
    match st.last_launched {
        Some(l) => l < now - window * MILLIS_PER_DAY,
        None => true,
    }
}

/// An entry not launched within the window.
pub open spec fn unused_at(now: Timestamp, window: i64) -> spec_fn((Seq<char>, AppStats)) -> bool {
    |e: (Seq<char>, AppStats)| inactive(e.1, now, window)
}

/// An entry launched within the window.
pub open spec fn active_at(now: Timestamp, window: i64) -> spec_fn((Seq<char>, AppStats)) -> bool {
    |e: (Seq<char>, AppStats)| !inactive(e.1, now, window)
}

/// The application of an entry.
pub open spec fn entry_app() -> spec_fn((Seq<char>, AppStats)) -> Seq<char> {
    |e: (Seq<char>, AppStats)| e.0
}

/// The characters of a list of names.
pub open spec fn name_views(s: Seq<&str>) -> Seq<Seq<char>> {
    s.map_values(|x: &str| x@)
}

/// After a launch at `now` the application's record counts one more launch
/// and was last launched at `now`.
pub proof fn lemma_launch_counted(s: StatsEntries, app: Seq<char>, now: Timestamp)
    requires
        stats_of(s, app).total_launches < u64::MAX,
    ensures
        stats_of(with_stats(s, app, launched(stats_of(s, app), now)), app).total_launches
            == stats_of(s, app).total_launches + 1,
        stats_of(with_stats(s, app, launched(stats_of(s, app), now)), app).last_launched == Some(now),
{
    let st = launched(stats_of(s, app), now);
    assert(with_stats(s, app, st) == put_first(s, for_app(app), (app, st)));
    lemma_put_first_found(s, for_app(app), (app, st));
}

/// Usage statistics aggregator.
pub struct UsageStats {
    apps: Vec<(String, AppStats)>,
    active_window_days: i64,
}

impl UsageStats {
    /// Each application with its record, in the order first seen.
    pub closed spec fn entries(&self) -> StatsEntries {
        self.apps@.map_values(|e: (String, AppStats)| (e.0@, e.1))
    }

    /// The activity window in days.
    pub closed spec fn window(&self) -> i64 {
        self.active_window_days
    }

    /// Each application with its launch count.
    pub closed spec fn launch_rows(&self) -> Seq<(String, u64)> {
        self.apps@.map_values(|e: (String, AppStats)| (e.0, e.1.total_launches))
    }

    /// Each application with its total runtime.
    pub closed spec fn runtime_rows(&self) -> Seq<(String, u64)> {
        self.apps@.map_values(|e: (String, AppStats)| (e.0, e.1.total_runtime_secs))
    }

    pub fn new() -> (r: Self)
        ensures
            r.entries() == Seq::<(Seq<char>, AppStats)>::empty(),
            r.window() == 30,
    {
        let r = Self { apps: Vec::new(), active_window_days: 30 };
        assert(r.entries() =~= Seq::<(Seq<char>, AppStats)>::empty());
        r
    }

    fn index_of(&self, app_id: &str) -> (r: Option<usize>)
        ensures
            first_index(self.entries(), for_app(app_id@)) == match r {
                Some(k) => k as int,
                None => -1,
            },
            match r {
                Some(k) => k < self.entries().len(),
                None => true,
            },
    {
        let ghost s = self.entries();
        let mut k: usize = 0;
        while k < self.apps.len()
            invariant
                k <= self.apps@.len(),
                s == self.entries(),
                forall|j: int| 0 <= j < k ==> !for_app(app_id@)(#[trigger] s[j]),
            decreases self.apps@.len() - k,
        {
            if str_eq(self.apps[k].0.as_str(), app_id) {
                proof {
                    lemma_first_index(s, for_app(app_id@), k as int);
                }
                return Some(k);
            }
            k = k + 1;
        }
        proof {
            lemma_first_index(s, for_app(app_id@), k as int);
        }
        None
    }

    fn current(&self, app_id: &str) -> (r: (Option<usize>, AppStats))
        ensures
            r.1 == stats_of(self.entries(), app_id@),
            first_index(self.entries(), for_app(app_id@)) == match r.0 {
                Some(k) => k as int,
                None => -1,
            },
            match r.0 {
                Some(k) => k < self.entries().len(),
                None => true,
            },
    {
        match self.index_of(app_id) {
            Some(k) => (Some(k), self.apps[k].1),
            None => (None, AppStats::default()),
        }
    }

    fn store(&mut self, at: Option<usize>, app_id: &str, st: AppStats)
        requires
            first_index(old(self).entries(), for_app(app_id@)) == match at {
                Some(k) => k as int,
                None => -1,
            },
            match at {
                Some(k) => k < old(self).entries().len(),
                None => true,
            },
        ensures
            final(self).entries() == with_stats(old(self).entries(), app_id@, st),
            final(self).window() == old(self).window(),
    {
        let ghost s = self.entries();
        match at {
            Some(k) => {
                self.apps.set(k, (String::from_str(app_id), st));
                assert(self.entries() =~= s.update(k as int, (app_id@, st)));
            },
            None => {
                self.apps.push((String::from_str(app_id), st));
                assert(self.entries() =~= s.push((app_id@, st)));
            },
        }
    }

    /// Record a launch at the given instant.
    pub fn record_launch_at(&mut self, app_id: &str, now: Timestamp)
        requires
            stats_of(old(self).entries(), app_id@).total_launches < u64::MAX,
        ensures
            final(self).entries() == with_stats(
                old(self).entries(),
                app_id@,
                launched(stats_of(old(self).entries(), app_id@), now),
            ),
            final(self).window() == old(self).window(),
    {
        let (at, mut st) = self.current(app_id);
        st.total_launches = st.total_launches + 1;
        st.last_launched = Some(now);
        self.store(at, app_id, st);
    }

    /// Record a launch now.
    pub fn record_launch(&mut self, app_id: &str)
        requires
            stats_of(old(self).entries(), app_id@).total_launches < u64::MAX,
        ensures
            exists|t: Timestamp|
                final(self).entries() == with_stats(
                    old(self).entries(),
                    app_id@,
                    #[trigger] launched(stats_of(old(self).entries(), app_id@), t),
                ),
            final(self).window() == old(self).window(),
    {
        let now = now_millis();
        self.record_launch_at(app_id, now);
        assert(self.entries() == with_stats(
            old(self).entries(),
            app_id@,
            launched(stats_of(old(self).entries(), app_id@), now),
        ));
    }

    /// Record runtime for an app.
    pub fn record_runtime(&mut self, app_id: &str, seconds: u64)
        requires
            stats_of(old(self).entries(), app_id@).total_runtime_secs + seconds <= u64::MAX,
        ensures
            final(self).entries() == with_stats(
                old(self).entries(),
                app_id@,
                ran(stats_of(old(self).entries(), app_id@), seconds),
            ),
            final(self).window() == old(self).window(),
    {
        let (at, mut st) = self.current(app_id);
        st.total_runtime_secs = st.total_runtime_secs + seconds;
        if st.total_launches > 0 {
            st.avg_session_secs = st.total_runtime_secs / st.total_launches;
        }
        self.store(at, app_id, st);
    }

    /// Record a memory sample; the peak keeps the largest.
    pub fn record_memory(&mut self, app_id: &str, bytes: u64)
        ensures
            final(self).entries() == with_stats(
                old(self).entries(),
                app_id@,
                sampled(stats_of(old(self).entries(), app_id@), bytes),
            ),
            final(self).window() == old(self).window(),
    {
        let (at, mut st) = self.current(app_id);
        if bytes > st.peak_memory_bytes {
            st.peak_memory_bytes = bytes;
        }
        self.store(at, app_id, st);
    }

    fn rows(&self, by_runtime: bool) -> (r: Vec<(String, u64)>)
        ensures
            r@ == if by_runtime {
                self.runtime_rows()
            } else {
                self.launch_rows()
            },
    {
        let ghost target = if by_runtime {
            self.runtime_rows()
        } else {
            self.launch_rows()
        };
        let mut rows: Vec<(String, u64)> = Vec::new();
        let mut k: usize = 0;
        while k < self.apps.len()
            invariant
                k <= self.apps@.len(),
                target == (if by_runtime {
                    self.runtime_rows()
                } else {
                    self.launch_rows()
                }),
                rows@ == target.take(k as int),
            decreases self.apps@.len() - k,
        {
            let v = if by_runtime {
                self.apps[k].1.total_runtime_secs
            } else {
                self.apps[k].1.total_launches
            };
            rows.push((self.apps[k].0.clone(), v));
            assert(rows@ =~= target.take(k + 1));
            k = k + 1;
        }
        assert(rows@ =~= target);
        rows
    }

    /// The `n` applications launched most often, most first.
    pub fn most_used(&self, n: usize) -> (r: Vec<(String, u64)>)
        ensures
            self.launch_rows().len() == self.entries().len(),
            forall|i: int|
                0 <= i < self.entries().len() ==> (#[trigger] self.launch_rows()[i]).0@ == self.entries()[i].0
                    && self.launch_rows()[i].1 == self.entries()[i].1.total_launches,
            is_top_n(self.launch_rows(), n as nat, r@),
    {
        let rows = self.rows(false);
        assert forall|i: int| 0 <= i < self.entries().len() implies (#[trigger] self.launch_rows()[i]).0@
            == self.entries()[i].0 && self.launch_rows()[i].1 == self.entries()[i].1.total_launches by {
            assert(self.launch_rows()[i] == (self.apps@[i].0, self.apps@[i].1.total_launches));
            assert(self.entries()[i] == (self.apps@[i].0@, self.apps@[i].1));
        }
        top_n(rows, n)
    }

    /// The `n` applications with the most runtime, most first.
    pub fn longest_used(&self, n: usize) -> (r: Vec<(String, u64)>)
        ensures
            self.runtime_rows().len() == self.entries().len(),
            forall|i: int|
                0 <= i < self.entries().len() ==> (#[trigger] self.runtime_rows()[i]).0@ == self.entries()[i].0
                    && self.runtime_rows()[i].1 == self.entries()[i].1.total_runtime_secs,
            is_top_n(self.runtime_rows(), n as nat, r@),
    {
        let rows = self.rows(true);
        assert forall|i: int| 0 <= i < self.entries().len() implies (#[trigger] self.runtime_rows()[i]).0@
            == self.entries()[i].0 && self.runtime_rows()[i].1 == self.entries()[i].1.total_runtime_secs by {
            assert(self.runtime_rows()[i] == (self.apps@[i].0, self.apps@[i].1.total_runtime_secs));
            assert(self.entries()[i] == (self.apps@[i].0@, self.apps@[i].1));
        }
        top_n(rows, n)
    }

    fn is_inactive(st: &AppStats, now: Timestamp, window: i64) -> (r: bool)
        ensures
            r == inactive(*st, now, window),
    {
        match st.last_launched {
            Some(l) => {
                let cutoff: i128 = (now as i128) - (window as i128) * 86_400_000i128;
                (l as i128) < cutoff
            },
            None => true,
        }
    }

    fn names_where(&self, now: Timestamp, unused: bool) -> (r: Vec<&str>)
        ensures
            name_views(r@) == self.entries().filter(
                if unused {
                    unused_at(now, self.window())
                } else {
                    active_at(now, self.window())
                },
            ).map_values(entry_app()),
    {
        let ghost s = self.entries();
        let ghost p = if unused {
            unused_at(now, self.window())
        } else {
            active_at(now, self.window())
        };
        let mut r: Vec<&str> = Vec::new();
        let mut i: usize = 0;
        proof {
            lemma_filter_take_zero(s, p);
            assert(name_views(r@) =~= Seq::<Seq<char>>::empty());
        }
        while i < self.apps.len()
            invariant
                i <= self.apps@.len(),
                s == self.entries(),
                p == (if unused {
                    unused_at(now, self.window())
                } else {
                    active_at(now, self.window())
                }),
                name_views(r@) == s.take(i as int).filter(p).map_values(entry_app()),
            decreases self.apps@.len() - i,
        {
            let e = &self.apps[i];
            proof {
                assert(s[i as int] == (e.0@, e.1));
                assert(s.take(i + 1) =~= s.take(i as int).push(s[i as int]));
                crate::keyed::lemma_filter_map_push(s.take(i as int), s[i as int], p, entry_app());
            }
            let off = Self::is_inactive(&e.1, now, self.active_window_days);
            if off == unused {
                let ghost before = name_views(r@);
                r.push(e.0.as_str());
                assert(name_views(r@) =~= before.push(e.0@));
            }
            i = i + 1;
        }
        assert(s.take(self.apps@.len() as int) =~= s);
        r
    }

    /// Applications not launched within the window before the given
    /// instant (or never launched), in order first seen.
    pub fn unused_apps_at(&self, now: Timestamp) -> (r: Vec<&str>)
        ensures
            name_views(r@) == self.entries().filter(unused_at(now, self.window())).map_values(entry_app()),
    {
        self.names_where(now, true)
    }

    /// Applications not launched within the window (or never launched).
    pub fn unused_apps(&self) -> (r: Vec<&str>)
        ensures
            exists|t: Timestamp|
                name_views(r@) == self.entries().filter(#[trigger] unused_at(t, self.window())).map_values(
                    entry_app(),
                ),
    {
        let now = now_millis();
        let r = self.unused_apps_at(now);
        assert(name_views(r@) == self.entries().filter(unused_at(now, self.window())).map_values(entry_app()));
        r
    }

    /// Applications launched within the window before the given instant.
    pub fn active_apps_at(&self, now: Timestamp) -> (r: Vec<&str>)
        ensures
            name_views(r@) == self.entries().filter(active_at(now, self.window())).map_values(entry_app()),
    {
        self.names_where(now, false)
    }

    /// Applications launched within the window.
    pub fn active_apps(&self) -> (r: Vec<&str>)
        ensures
            exists|t: Timestamp|
                name_views(r@) == self.entries().filter(#[trigger] active_at(t, self.window())).map_values(
                    entry_app(),
                ),
    {
        let now = now_millis();
        let r = self.active_apps_at(now);
        assert(name_views(r@) == self.entries().filter(active_at(now, self.window())).map_values(entry_app()));
        r
    }

    /// The record of an application.
    pub fn get(&self, app_id: &str) -> (r: Option<&AppStats>)
        ensures
            match r {
                Some(st) => first_index(self.entries(), for_app(app_id@)) >= 0 && *st == stats_of(
                    self.entries(),
                    app_id@,
                ),
                None => first_index(self.entries(), for_app(app_id@)) < 0,
            },
    {
        match self.index_of(app_id) {
            Some(k) => Some(&self.apps[k].1),
            None => None,
        }
    }

    /// Total tracked apps.
    pub fn count(&self) -> (r: usize)
        ensures
            r == self.entries().len(),
    {
        self.apps.len()
    }

    /// Set the activity window in days.
    pub fn set_active_window(&mut self, days: i64)
        ensures
            final(self).window() == days,
            final(self).entries() == old(self).entries(),
    {
        self.active_window_days = days;
    }

    /// The activity window in days.
    pub fn active_window(&self) -> (r: i64)
        ensures
            r == self.window(),
    {
        self.active_window_days
    }
}

impl Default for UsageStats {
    fn default() -> (r: Self)
        ensures
            r.entries() == Seq::<(Seq<char>, AppStats)>::empty(),
            r.window() == 30,
    {
        Self::new()
    }
}

} // verus!
