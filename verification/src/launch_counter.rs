//! Launch counter — per-app launch frequency and cadence tracking.
//!
//! Hours and weekdays are those of UTC; weekdays are counted Monday first.

use vstd::prelude::*;
use vstd::array::*;
use crate::clock::{Timestamp, now_millis, hour_of, weekday_of, hour_and_weekday, days_between, whole_days, MILLIS_PER_DAY};
use crate::keyed::{first_index, lemma_first_index, lemma_filter_take_zero};
use crate::ranking::{Scored, is_top_n, top_n};
use crate::text::str_eq;

verus! {

/// A single launch event.
#[derive(Debug, Clone)]
pub struct LaunchEvent {
    pub app_id: String,
    pub timestamp: Timestamp,
    pub from_autostart: bool,
}

/// Per-app launch statistics.
#[derive(Debug, Clone)]
pub struct LaunchStats {
    pub app_id: String,
    pub total_launches: u64,
    pub first_launch: Timestamp,
    pub last_launch: Timestamp,
    /// Launches per UTC day of the week, Monday first.
    pub by_weekday: [u32; 7],
    /// Launches per UTC hour of the day.
    pub by_hour: [u32; 24],
    pub autostart_launches: u64,
}

/// Launch statistics as plain data.
pub struct StatsView {
    pub app_id: Seq<char>,
    pub total_launches: u64,
    pub first_launch: Timestamp,
    pub last_launch: Timestamp,
    pub by_weekday: Seq<u32>,
    pub by_hour: Seq<u32>,
    pub autostart_launches: u64,
}

impl View for LaunchStats {
    type V = StatsView;

    open spec fn view(&self) -> StatsView {
        StatsView {
            app_id: self.app_id@,
            total_launches: self.total_launches,
            first_launch: self.first_launch,
            last_launch: self.last_launch,
            by_weekday: self.by_weekday@,
            by_hour: self.by_hour@,
            autostart_launches: self.autostart_launches,
        }
    }
}

/// The statistics of an application's first launch `e`.
pub open spec fn first_stats(e: LaunchEvent) -> StatsView {
    StatsView {
        app_id: e.app_id@,
        total_launches: 1,
        first_launch: e.timestamp,
        last_launch: e.timestamp,
        by_weekday: Seq::new(7, |i: int| if i == weekday_of(e.timestamp as int) { 1u32 } else { 0u32 }),
        by_hour: Seq::new(24, |i: int| if i == hour_of(e.timestamp as int) { 1u32 } else { 0u32 }),
        autostart_launches: if e.from_autostart { 1 } else { 0 },
    }
}

/// Statistics `st` after one more launch `e`.
pub open spec fn counted(st: StatsView, e: LaunchEvent) -> StatsView {
    let h = hour_of(e.timestamp as int);
    let w = weekday_of(e.timestamp as int);
    StatsView {
        app_id: st.app_id,
        total_launches: (st.total_launches + 1) as u64,
        first_launch: if e.timestamp < st.first_launch {
            e.timestamp
        } else {
            st.first_launch
        },
        last_launch: if e.timestamp > st.last_launch {
            e.timestamp
        } else {
            st.last_launch
        },
        by_weekday: st.by_weekday.update(w, (st.by_weekday[w] + 1) as u32),
        by_hour: st.by_hour.update(h, (st.by_hour[h] + 1) as u32),
        autostart_launches: if e.from_autostart {
            (st.autostart_launches + 1) as u64
        } else {
            st.autostart_launches
        },
    }
}

/// Launch `e` can be counted in `st` without overflow.
pub open spec fn can_count(st: StatsView, e: LaunchEvent) -> bool {
    &&& st.total_launches < u64::MAX
    &&& st.autostart_launches < u64::MAX
    &&& st.by_weekday[weekday_of(e.timestamp as int)] < u32::MAX
    &&& st.by_hour[hour_of(e.timestamp as int)] < u32::MAX
}

/// `p` is the latest hour with the most launches.
pub open spec fn is_peak_hour(h: Seq<u32>, p: int) -> bool {
    &&& 0 <= p < h.len()
    &&& forall|j: int| 0 <= j < h.len() ==> h[j] <= h[p]
    &&& forall|j: int| p < j < h.len() ==> h[j] < h[p]
}

/// More weekday launches than twice the weekend launches.
pub open spec fn work_pattern(w: Seq<u32>) -> bool {
    w[0] + w[1] + w[2] + w[3] + w[4] > 2 * (w[5] + w[6])
}

/// Whole days from the first launch to `now`, at least one.
pub open spec fn observed_days(st: StatsView, now: Timestamp) -> int {
    let d = whole_days(now - st.first_launch);
    if d > 1 {
        d
    } else {
        1
    }
}

/// The total of a list of counters.
pub open spec fn bucket_sum(s: Seq<u32>) -> int
    decreases s.len(),
{
    if s.len() == 0 {
        0
    } else {
        bucket_sum(s.drop_last()) + s.last()
    }
}

/// Raising one counter by one raises the total by one.
pub proof fn lemma_bucket_sum_bump(s: Seq<u32>, i: int)
    requires
        0 <= i < s.len(),
        s[i] < u32::MAX,
    ensures
        bucket_sum(s.update(i, (s[i] + 1) as u32)) == bucket_sum(s) + 1,
    decreases s.len(),
{
    let t = s.update(i, (s[i] + 1) as u32);
    if i < s.len() - 1 {
        assert(t.drop_last() =~= s.drop_last().update(i, (s[i] + 1) as u32));
        lemma_bucket_sum_bump(s.drop_last(), i);
    } else {
        assert(t.drop_last() =~= s.drop_last());
    }
}

proof fn lemma_bucket_sum_zeros(n: nat)
    ensures
        bucket_sum(Seq::new(n, |i: int| 0u32)) == 0,
    decreases n,
{
    if n > 0 {
        assert(Seq::new(n, |i: int| 0u32).drop_last() =~= Seq::new((n - 1) as nat, |i: int| 0u32));
        lemma_bucket_sum_zeros((n - 1) as nat);
    }
}

/// The hour and weekday counters each add up to the launch count.
pub open spec fn buckets_consistent(st: StatsView) -> bool {
    &&& st.by_hour.len() == 24
    &&& st.by_weekday.len() == 7
    &&& bucket_sum(st.by_hour) == st.total_launches
    &&& bucket_sum(st.by_weekday) == st.total_launches
}

/// A first launch starts consistent counters.
pub proof fn lemma_first_stats_consistent(e: LaunchEvent)
    ensures
        buckets_consistent(first_stats(e)),
{
    let h = hour_of(e.timestamp as int);
    let w = weekday_of(e.timestamp as int);
    lemma_bucket_sum_zeros(24);
    lemma_bucket_sum_zeros(7);
    assert(first_stats(e).by_hour =~= Seq::new(24, |i: int| 0u32).update(h, 1u32));
    assert(first_stats(e).by_weekday =~= Seq::new(7, |i: int| 0u32).update(w, 1u32));
    lemma_bucket_sum_bump(Seq::new(24, |i: int| 0u32), h);
    lemma_bucket_sum_bump(Seq::new(7, |i: int| 0u32), w);
}

/// Counting a launch keeps the counters consistent: the launch count and
/// the totals of the hour and weekday counters move together.
pub proof fn lemma_counted_consistent(st: StatsView, e: LaunchEvent)
    requires
        buckets_consistent(st),
        can_count(st, e),
    ensures
        buckets_consistent(counted(st, e)),
{
    lemma_bucket_sum_bump(st.by_hour, hour_of(e.timestamp as int));
    lemma_bucket_sum_bump(st.by_weekday, weekday_of(e.timestamp as int));
}

impl LaunchStats {
    /// The statistics of a first launch.
    pub fn new(event: &LaunchEvent) -> (r: Self)
        ensures
            r@ == first_stats(*event),
            r.by_hour@.len() == 24,
            r.by_weekday@.len() == 7,
    {
        let (h, w) = hour_and_weekday(event.timestamp);
        let mut by_hour = [0u32; 24];
        by_hour.set(h, 1);
        let mut by_weekday = [0u32; 7];
        by_weekday.set(w, 1);
        let r = Self {
            app_id: event.app_id.clone(),
            total_launches: 1,
            first_launch: event.timestamp,
            last_launch: event.timestamp,
            by_weekday,
            by_hour,
            autostart_launches: if event.from_autostart {
                1
            } else {
                0
            },
        };
        assert(r@.by_hour =~= first_stats(*event).by_hour);
        assert(r@.by_weekday =~= first_stats(*event).by_weekday);
        r
    }

    /// Count one more launch.
    pub fn record(&mut self, event: &LaunchEvent)
        requires
            can_count(old(self)@, *event),
        ensures
            final(self)@ == counted(old(self)@, *event),
    {
        let (h, w) = hour_and_weekday(event.timestamp);
        self.total_launches = self.total_launches + 1;
        if event.timestamp > self.last_launch {
            self.last_launch = event.timestamp;
        }
        if event.timestamp < self.first_launch {
            self.first_launch = event.timestamp;
        }
        let c = self.by_hour[h];
        self.by_hour.set(h, c + 1);
        let d = self.by_weekday[w];
        self.by_weekday.set(w, d + 1);
        if event.from_autostart {
            self.autostart_launches = self.autostart_launches + 1;
        }
    }

    /// The latest hour of day with the most launches.
    pub fn peak_hour(&self) -> (r: usize)
        ensures
            is_peak_hour(self@.by_hour, r as int),
    {
        let mut p: usize = 0;
        let mut i: usize = 1;
        while i < 24
            invariant
                1 <= i <= 24,
                p < i,
                self.by_hour@.len() == 24,
                forall|j: int| 0 <= j < i ==> self.by_hour@[j] <= self.by_hour@[p as int],
                forall|j: int| p < j < i ==> self.by_hour@[j] < self.by_hour@[p as int],
            decreases 24 - i,
        {
            if self.by_hour[i] >= self.by_hour[p] {
                p = i;
            }
            i = i + 1;
        }
        p
    }

    /// Whole days from the first launch to the given instant, at least one:
    /// the divisor of the launches-per-day average.
    pub fn days_observed_at(&self, now: Timestamp) -> (r: i64)
        ensures
            r == observed_days(self@, now),
    {
        let d = days_between(now, self.first_launch);
        if d > 1 {
            d
        } else {
            1
        }
    }

    /// Is the app used mostly on weekdays?
    pub fn is_work_app(&self) -> (r: bool)
        ensures
            r == work_pattern(self@.by_weekday),
    {
        let w = &self.by_weekday;
        let weekday: u64 = w[0] as u64 + w[1] as u64 + w[2] as u64 + w[3] as u64 + w[4] as u64;
        let weekend: u64 = w[5] as u64 + w[6] as u64;
        weekday > weekend * 2
    }
}

impl<'a> Scored for &'a LaunchStats {
    open spec fn score(&self) -> int {
        self.total_launches as int
    }

    fn score_value(&self) -> (v: u64) {
        self.total_launches
    }
}

/// The views of a list of statistics references.
pub open spec fn stats_views(s: Seq<&LaunchStats>) -> Seq<StatsView> {
    s.map_values(|x: &LaunchStats| x@)
}

/// The statistics of `app`.
pub open spec fn stats_for_app(app: Seq<char>) -> spec_fn(StatsView) -> bool {
    |st: StatsView| st.app_id == app
}

/// The statistics after launch `e`: the application's are counted, or
/// started.
pub open spec fn after_launch(s: Seq<StatsView>, e: LaunchEvent) -> Seq<StatsView> {
    let k = first_index(s, stats_for_app(e.app_id@));
    if k < 0 {
        s.push(first_stats(e))
    } else {
        s.update(k, counted(s[k], e))
    }
}

/// The event log after `e`, the oldest event leaving when there are more
/// than `limit`.
pub open spec fn logged(s: Seq<LaunchEvent>, e: LaunchEvent, limit: nat) -> Seq<LaunchEvent> {
    let s1 = s.push(e);
    if s1.len() > limit {
        s1.drop_first()
    } else {
        s1
    }
}

/// Statistics of an application launched at login at least once.
pub open spec fn autostarted() -> spec_fn(StatsView) -> bool {
    |st: StatsView| st.autostart_launches > 0
}

/// Statistics of an application not launched within `days` days of `now`.
pub open spec fn dormant(days: i64, now: Timestamp) -> spec_fn(StatsView) -> bool {
    |st: StatsView| st.last_launch < now - days * MILLIS_PER_DAY
}

/// Statistics of an application used mostly on weekdays.
pub open spec fn work_app() -> spec_fn(StatsView) -> bool {
    |st: StatsView| work_pattern(st.by_weekday)
}

/// Launch counter — tracks multiple apps.
pub struct LaunchCounter {
    stats: Vec<LaunchStats>,
    events: Vec<LaunchEvent>,
    history_limit: usize,
}

impl LaunchCounter {
    /// The per-application statistics, in the order first launched.
    pub closed spec fn stats(&self) -> Seq<StatsView> {
        self.stats@.map_values(|s: LaunchStats| s@)
    }

    /// The statistics, by reference.
    pub closed spec fn stat_refs(&self) -> Seq<&LaunchStats> {
        self.stats@.map_values(|s: LaunchStats| &s)
    }

    /// The recorded launches, oldest first.
    pub closed spec fn log(&self) -> Seq<LaunchEvent> {
        self.events@
    }

    /// The number of launches kept.
    pub closed spec fn limit(&self) -> nat {
        self.history_limit as nat
    }

    /// Every application's hour and weekday counters add up to its launch
    /// count.
    pub open spec fn wf(&self) -> bool {
        forall|i: int| 0 <= i < self.stats().len() ==> buckets_consistent(#[trigger] self.stats()[i])
    }

    pub fn new() -> (r: Self)
        ensures
            r.wf(),
            r.stats() == Seq::<StatsView>::empty(),
            r.log() == Seq::<LaunchEvent>::empty(),
            r.limit() == 10_000,
    {
        let r = Self { stats: Vec::new(), events: Vec::new(), history_limit: 10_000 };
        assert(r.stats() =~= Seq::<StatsView>::empty());
        r
    }

    fn index_of(&self, app_id: &str) -> (r: Option<usize>)
        ensures
            first_index(self.stats(), stats_for_app(app_id@)) == match r {
                Some(k) => k as int,
                None => -1,
            },
            match r {
                Some(k) => k < self.stats().len(),
                None => true,
            },
    {
        let ghost s = self.stats();
        let mut k: usize = 0;
        while k < self.stats.len()
            invariant
                k <= self.stats@.len(),
                s == self.stats(),
                forall|j: int| 0 <= j < k ==> !stats_for_app(app_id@)(#[trigger] s[j]),
            decreases self.stats@.len() - k,
        {
            if str_eq(self.stats[k].app_id.as_str(), app_id) {
                proof {
                    lemma_first_index(s, stats_for_app(app_id@), k as int);
                }
                return Some(k);
            }
            k = k + 1;
        }
        proof {
            lemma_first_index(s, stats_for_app(app_id@), k as int);
        }
        None
    }

    /// Record a launch.
    pub fn record(&mut self, event: LaunchEvent)
        requires
            old(self).wf(),
            ({
                let k = first_index(old(self).stats(), stats_for_app(event.app_id@));
                k >= 0 ==> can_count(old(self).stats()[k], event)
            }),
        ensures
            final(self).wf(),
            final(self).stats() == after_launch(old(self).stats(), event),
            final(self).log() == logged(old(self).log(), event, old(self).limit()),
            final(self).limit() == old(self).limit(),
    {
        let ghost s = self.stats();
        match self.index_of(event.app_id.as_str()) {
            Some(k) => {
                let mut st = LaunchStats {
                    app_id: String::new(),
                    total_launches: 0,
                    first_launch: 0,
                    last_launch: 0,
                    by_weekday: [0u32; 7],
                    by_hour: [0u32; 24],
                    autostart_launches: 0,
                };
                std::mem::swap(&mut st, &mut self.stats[k]);
                assert(st@ == s[k as int]);
                proof {
                    lemma_counted_consistent(st@, event);
                }
                st.record(&event);
                let ghost sv = st@;
                self.stats.set(k, st);
                assert(self.stats() =~= s.update(k as int, sv));
            },
            None => {
                let st = LaunchStats::new(&event);
                proof {
                    lemma_first_stats_consistent(event);
                }
                self.stats.push(st);
                assert(self.stats() =~= s.push(first_stats(event)));
            },
        }
        let ghost l = self.events@;
        self.events.push(event);
        if self.events.len() > self.history_limit {
            self.events.remove(0);
            assert(self.events@ =~= l.push(event).drop_first());
        }
    }

    /// The statistics of an application.
    pub fn stats_for(&self, app_id: &str) -> (r: Option<&LaunchStats>)
        ensures
            match r {
                Some(st) => {
                    let k = first_index(self.stats(), stats_for_app(app_id@));
                    k >= 0 && st@ == self.stats()[k]
                },
                None => first_index(self.stats(), stats_for_app(app_id@)) < 0,
            },
    {
        match self.index_of(app_id) {
            Some(k) => Some(&self.stats[k]),
            None => None,
        }
    }

    /// The `n` applications launched most often, most first.
    pub fn top_apps(&self, n: usize) -> (r: Vec<&LaunchStats>)
        ensures
            stats_views(self.stat_refs()) == self.stats(),
            is_top_n(self.stat_refs(), n as nat, r@),
    {
        let mut refs: Vec<&LaunchStats> = Vec::new();
        let mut k: usize = 0;
        while k < self.stats.len()
            invariant
                k <= self.stats@.len(),
                refs@ == self.stat_refs().take(k as int),
            decreases self.stats@.len() - k,
        {
            refs.push(&self.stats[k]);
            assert(refs@ =~= self.stat_refs().take(k + 1));
            k = k + 1;
        }
        assert(refs@ =~= self.stat_refs());
        assert(stats_views(self.stat_refs()) =~= self.stats());
        top_n(refs, n)
    }

    fn select(&self, kind: u8, days: i64, now: Timestamp) -> (r: Vec<&LaunchStats>)
        requires
            kind < 3,
        ensures
            stats_views(r@) == self.stats().filter(
                if kind == 0 {
                    autostarted()
                } else if kind == 1 {
                    dormant(days, now)
                } else {
                    work_app()
                },
            ),
    {
        let ghost s = self.stats();
        let ghost p = if kind == 0 {
            autostarted()
        } else if kind == 1 {
            dormant(days, now)
        } else {
            work_app()
        };
        let cutoff: i128 = (now as i128) - (days as i128) * 86_400_000i128;
        let mut r: Vec<&LaunchStats> = Vec::new();
        let mut i: usize = 0;
        proof {
            lemma_filter_take_zero(s, p);
            assert(stats_views(r@) =~= Seq::<StatsView>::empty());
        }
        while i < self.stats.len()
            invariant
                i <= self.stats@.len(),
                kind < 3,
                s == self.stats(),
                cutoff == now - days * MILLIS_PER_DAY,
                p == (if kind == 0 {
                    autostarted()
                } else if kind == 1 {
                    dormant(days, now)
                } else {
                    work_app()
                }),
                stats_views(r@) == s.take(i as int).filter(p),
            decreases self.stats@.len() - i,
        {
            let st = &self.stats[i];
            proof {
                assert(s.take(i + 1) =~= s.take(i as int).push(st@));
                s.take(i as int).lemma_filter_push(st@, p);
            }
            let keep = if kind == 0 {
                st.autostart_launches > 0
            } else if kind == 1 {
                (st.last_launch as i128) < cutoff
            } else {
                st.is_work_app()
            };
            if keep {
                let ghost before = stats_views(r@);
                r.push(st);
                assert(stats_views(r@) =~= before.push(st@));
            }
            i = i + 1;
        }
        assert(s.take(self.stats@.len() as int) =~= s);
        r
    }

    /// Applications launched at login at least once.
    pub fn autostart_apps(&self) -> (r: Vec<&LaunchStats>)
        ensures
            stats_views(r@) == self.stats().filter(autostarted()),
    {
        self.select(0, 0, 0)
    }

    /// Applications not launched within `days` days of the given instant.
    pub fn dormant_apps_at(&self, days: i64, now: Timestamp) -> (r: Vec<&LaunchStats>)
        ensures
            stats_views(r@) == self.stats().filter(dormant(days, now)),
    {
        self.select(1, days, now)
    }

    /// Applications not launched within `days` days.
    pub fn dormant_apps(&self, days: i64) -> (r: Vec<&LaunchStats>)
        ensures
            exists|t: Timestamp| stats_views(r@) == self.stats().filter(#[trigger] dormant(days, t)),
    {
        let now = now_millis();
        let r = self.dormant_apps_at(days, now);
        assert(stats_views(r@) == self.stats().filter(dormant(days, now)));
        r
    }

    /// Applications used mostly on weekdays.
    pub fn work_apps(&self) -> (r: Vec<&LaunchStats>)
        ensures
            stats_views(r@) == self.stats().filter(work_app()),
    {
        self.select(2, 0, 0)
    }

    /// Total apps tracked.
    pub fn app_count(&self) -> (r: usize)
        ensures
            r == self.stats().len(),
    {
        self.stats.len()
    }

    /// Launch events retained.
    pub fn total_events(&self) -> (r: usize)
        ensures
            r == self.log().len(),
    {
        self.events.len()
    }
}

impl Default for LaunchCounter {
    fn default() -> (r: Self)
        ensures
            r.wf(),
            r.stats() == Seq::<StatsView>::empty(),
            r.log() == Seq::<LaunchEvent>::empty(),
            r.limit() == 10_000,
    {
        Self::new()
    }
}

} // verus!
