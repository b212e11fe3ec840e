//! Traffic meter — per-app bandwidth tracking with daily/monthly totals.

use vstd::prelude::*;
use crate::clock::{Timestamp, now_millis, utc_formatted, format_utc, is_utc_pattern};
use crate::keyed::{first_index, lemma_first_index, lemma_first_index_spec, lemma_filter_take_zero};
use crate::ranking::{Scored, is_top_n, top_n, scores_fit};
use crate::text::{str_eq, decimal, fixed_text, format_fixed, u64_to_decimal};

verus! {

/// A traffic sample in bytes.
#[derive(Debug, Clone)]
pub struct TrafficSample {
    pub app_id: String,
    pub timestamp: Timestamp,
    pub bytes_sent: u64,
    pub bytes_received: u64,
    pub interface: String,
}

/// Bytes sent and received in one period (a day `YYYY-MM-DD` or a month
/// `YYYY-MM`).
pub type PeriodTotals = Vec<(String, (u64, u64))>;

/// Period totals as plain data.
pub type PeriodView = Seq<(Seq<char>, (u64, u64))>;

/// The plain form of period totals.
pub open spec fn period_view(v: Seq<(String, (u64, u64))>) -> PeriodView {
    v.map_values(|e: (String, (u64, u64))| (e.0@, e.1))
}

/// An entry of the period `key`.
pub open spec fn for_period(key: Seq<char>) -> spec_fn((Seq<char>, (u64, u64))) -> bool {
    |e: (Seq<char>, (u64, u64))| e.0 == key
}

/// The bytes recorded for period `key`, or none.
pub open spec fn period_of(p: PeriodView, key: Seq<char>) -> (u64, u64) {
    let k = first_index(p, for_period(key));
    if k < 0 {
        (0, 0)
    } else {
        p[k].1
    }
}

/// The period totals after adding `sent` and `received` bytes to `key`.
pub open spec fn add_period(p: PeriodView, key: Seq<char>, sent: u64, received: u64) -> PeriodView {
    let k = first_index(p, for_period(key));
    if k < 0 {
        p.push((key, (sent, received)))
    } else {
        p.update(k, (key, ((p[k].1.0 + sent) as u64, (p[k].1.1 + received) as u64)))
    }
}

/// Per-app traffic totals.
#[derive(Debug, Clone)]
pub struct AppTraffic {
    pub app_id: String,
    pub total_sent: u64,
    pub total_received: u64,
    pub first_seen: Timestamp,
    pub last_seen: Timestamp,
    pub daily: PeriodTotals,
    pub monthly: PeriodTotals,
}

/// Per-app traffic totals as plain data.
pub struct AppTrafficView {
    pub app_id: Seq<char>,
    pub total_sent: u64,
    pub total_received: u64,
    pub first_seen: Timestamp,
    pub last_seen: Timestamp,
    pub daily: PeriodView,
    pub monthly: PeriodView,
}

impl View for AppTraffic {
    type V = AppTrafficView;

    open spec fn view(&self) -> AppTrafficView {
        AppTrafficView {
            app_id: self.app_id@,
            total_sent: self.total_sent,
            total_received: self.total_received,
            first_seen: self.first_seen,
            last_seen: self.last_seen,
            daily: period_view(self.daily@),
            monthly: period_view(self.monthly@),
        }
    }
}

/// Every period total stays within the overall totals.
pub open spec fn periods_bounded(a: AppTrafficView) -> bool {
    &&& forall|i: int|
        0 <= i < a.daily.len() ==> (#[trigger] a.daily[i]).1.0 <= a.total_sent && a.daily[i].1.1
            <= a.total_received
    &&& forall|i: int|
        0 <= i < a.monthly.len() ==> (#[trigger] a.monthly[i]).1.0 <= a.total_sent && a.monthly[i].1.1
            <= a.total_received
}

fn period_index(p: &PeriodTotals, key: &str) -> (r: Option<usize>)
    ensures
        first_index(period_view(p@), for_period(key@)) == match r {
            Some(k) => k as int,
            None => -1,
        },
        match r {
            Some(k) => k < p@.len(),
            None => true,
        },
{
    let ghost s = period_view(p@);
    let mut k: usize = 0;
    while k < p.len()
        invariant
            k <= p@.len(),
            s == period_view(p@),
            forall|j: int| 0 <= j < k ==> !for_period(key@)(#[trigger] s[j]),
        decreases p@.len() - k,
    {
        if str_eq(p[k].0.as_str(), key) {
            proof {
                lemma_first_index(s, for_period(key@), k as int);
            }
            return Some(k);
        }
        k = k + 1;
    }
    proof {
        lemma_first_index(s, for_period(key@), k as int);
    }
    None
}

fn lookup_period(p: &PeriodTotals, key: &str) -> (r: (u64, u64))
    ensures
        r == period_of(period_view(p@), key@),
{
    match period_index(p, key) {
        Some(k) => p[k].1,
        None => (0, 0),
    }
}

fn add_to_period(p: &mut PeriodTotals, key: &str, sent: u64, received: u64)
    requires
        forall|i: int|
            0 <= i < old(p)@.len() ==> (#[trigger] old(p)@[i]).1.0 + sent <= u64::MAX && old(p)@[i].1.1
                + received <= u64::MAX,
    ensures
        period_view(final(p)@) == add_period(period_view(old(p)@), key@, sent, received),
{
    let ghost s = period_view(p@);
    match period_index(p, key) {
        Some(k) => {
            let (a, b) = p[k].1;
            assert(p@[k as int].1.0 + sent <= u64::MAX);
            p.set(k, (String::from_str(key), (a + sent, b + received)));
            assert(period_view(p@) =~= s.update(k as int, (key@, ((s[k as int].1.0 + sent) as u64, (s[k as int].1.1 + received) as u64))));
        },
        None => {
            p.push((String::from_str(key), (sent, received)));
            assert(period_view(p@) =~= s.push((key@, (sent, received))));
        },
    }
}

/// The period totals stay within `ts` and `tr` after adding the bytes,
/// where they were within the totals before.
proof fn lemma_add_period_bounded(p: PeriodView, key: Seq<char>, sent: u64, received: u64, ts: int, tr: int)
    requires
        forall|i: int| 0 <= i < p.len() ==> (#[trigger] p[i]).1.0 + sent <= ts && p[i].1.1 + received <= tr,
        sent <= ts,
        received <= tr,
    ensures
        forall|i: int|
            0 <= i < add_period(p, key, sent, received).len() ==> (#[trigger] add_period(
                p,
                key,
                sent,
                received,
            )[i]).1.0 <= ts && add_period(p, key, sent, received)[i].1.1 <= tr,
{
    lemma_first_index_spec(p, for_period(key));
}

/// An application with the given id.
pub open spec fn app_named(app_id: Seq<char>) -> spec_fn(AppTrafficView) -> bool {
    |a: AppTrafficView| a.app_id == app_id
}

/// The totals of an application first seen at `ts`, before any bytes.
pub open spec fn fresh_traffic(app_id: Seq<char>, ts: Timestamp) -> AppTrafficView {
    AppTrafficView {
        app_id,
        total_sent: 0,
        total_received: 0,
        first_seen: ts,
        last_seen: ts,
        daily: Seq::empty(),
        monthly: Seq::empty(),
    }
}

/// Application totals `a` after sample `s`, counted on `day` and `month`.
pub open spec fn counted(a: AppTrafficView, s: TrafficSample, day: Seq<char>, month: Seq<char>) -> AppTrafficView {
    AppTrafficView {
        app_id: a.app_id,
        total_sent: (a.total_sent + s.bytes_sent) as u64,
        total_received: (a.total_received + s.bytes_received) as u64,
        first_seen: if s.timestamp < a.first_seen {
            s.timestamp
        } else {
            a.first_seen
        },
        last_seen: if s.timestamp > a.last_seen {
            s.timestamp
        } else {
            a.last_seen
        },
        daily: add_period(a.daily, day, s.bytes_sent, s.bytes_received),
        monthly: add_period(a.monthly, month, s.bytes_sent, s.bytes_received),
    }
}

/// The applications after recording sample `s` on `day` and `month`.
pub open spec fn after_sample(
    apps: Seq<AppTrafficView>,
    s: TrafficSample,
    day: Seq<char>,
    month: Seq<char>,
) -> Seq<AppTrafficView> {
    let k = first_index(apps, app_named(s.app_id@));
    if k < 0 {
        apps.push(counted(fresh_traffic(s.app_id@, s.timestamp), s, day, month))
    } else {
        apps.update(k, counted(apps[k], s, day, month))
    }
}

/// The bytes of period `key` summed over `apps`, daily or monthly.
pub open spec fn period_sum(apps: Seq<AppTrafficView>, key: Seq<char>, daily: bool) -> (int, int)
    decreases apps.len(),
{
    if apps.len() == 0 {
        (0, 0)
    } else {
        let (s, r) = period_sum(apps.drop_last(), key, daily);
        let p = if daily {
            period_of(apps.last().daily, key)
        } else {
            period_of(apps.last().monthly, key)
        };
        (s + p.0, r + p.1)
    }
}

proof fn lemma_period_sum_take(apps: Seq<AppTrafficView>, key: Seq<char>, daily: bool, n: int)
    requires
        0 <= n <= apps.len(),
    ensures
        0 <= period_sum(apps.take(n), key, daily).0 <= period_sum(apps, key, daily).0,
        0 <= period_sum(apps.take(n), key, daily).1 <= period_sum(apps, key, daily).1,
    decreases apps.len(),
{
    if n < apps.len() {
        assert(apps.take(n) =~= apps.drop_last().take(n));
        lemma_period_sum_take(apps.drop_last(), key, daily, n);
    } else {
        assert(apps.take(n) =~= apps);
        if apps.len() > 0 {
            lemma_period_sum_take(apps.drop_last(), key, daily, apps.len() - 1);
            assert(apps.drop_last().take(apps.len() - 1) =~= apps.drop_last());
        }
    }
}

/// An application whose bytes in period `key` exceed `threshold`.
pub open spec fn over_in(key: Seq<char>, daily: bool, threshold: u64) -> spec_fn(AppTrafficView) -> bool {
    |a: AppTrafficView| {
        let p = if daily {
            period_of(a.daily, key)
        } else {
            period_of(a.monthly, key)
        };
        p.0 + p.1 > threshold
    }
}

impl AppTraffic {
    /// Bytes sent and received.
    pub fn total_bytes(&self) -> (r: u64)
        requires
            self.total_sent + self.total_received <= u64::MAX,
        ensures
            r == self.total_sent + self.total_received,
    {
        self.total_sent + self.total_received
    }

    /// Bytes sent and received on the day `day` (`YYYY-MM-DD`).
    pub fn day_bytes(&self, day: &str) -> (r: (u64, u64))
        ensures
            r == period_of(self@.daily, day@),
    {
        lookup_period(&self.daily, day)
    }

    /// Bytes sent and received in the month `month` (`YYYY-MM`).
    pub fn month_bytes(&self, month: &str) -> (r: (u64, u64))
        ensures
            r == period_of(self@.monthly, month@),
    {
        lookup_period(&self.monthly, month)
    }

    /// Bytes sent and received today (UTC).
    pub fn today_bytes(&self) -> (r: (u64, u64))
        ensures
            exists|t: Timestamp|
                r == match #[trigger] utc_formatted(t, "%Y-%m-%d"@) {
                    Some(day) => period_of(self@.daily, day),
                    None => (0u64, 0u64),
                },
    {
        let now = now_millis();
        let r = match format_utc(now, "%Y-%m-%d") {
            Some(day) => self.day_bytes(day.as_str()),
            None => (0, 0),
        };
        assert(r == match utc_formatted(now, "%Y-%m-%d"@) {
            Some(day) => period_of(self@.daily, day),
            None => (0u64, 0u64),
        });
        r
    }

    /// Bytes sent and received this month (UTC).
    pub fn this_month_bytes(&self) -> (r: (u64, u64))
        ensures
            exists|t: Timestamp|
                r == match #[trigger] utc_formatted(t, "%Y-%m"@) {
                    Some(month) => period_of(self@.monthly, month),
                    None => (0u64, 0u64),
                },
    {
        let now = now_millis();
        let r = match format_utc(now, "%Y-%m") {
            Some(month) => self.month_bytes(month.as_str()),
            None => (0, 0),
        };
        assert(r == match utc_formatted(now, "%Y-%m"@) {
            Some(month) => period_of(self@.monthly, month),
            None => (0u64, 0u64),
        });
        r
    }
}

impl<'a> Scored for &'a AppTraffic {
    open spec fn score(&self) -> int {
        self.total_sent + self.total_received
    }

    fn score_value(&self) -> (v: u64) {
        self.total_sent + self.total_received
    }
}

/// The views of a list of application references.
pub open spec fn traffic_views(s: Seq<&AppTraffic>) -> Seq<AppTrafficView> {
    s.map_values(|a: &AppTraffic| a@)
}

/// Traffic meter.
pub struct TrafficMeter {
    apps: Vec<AppTraffic>,
    total_samples: u64,
}

impl TrafficMeter {
    /// The per-application totals, in the order first seen.
    pub closed spec fn apps(&self) -> Seq<AppTrafficView> {
        self.apps@.map_values(|a: AppTraffic| a@)
    }

    /// The applications' totals, by reference.
    pub closed spec fn app_refs(&self) -> Seq<&AppTraffic> {
        self.apps@.map_values(|a: AppTraffic| &a)
    }

    /// The number of samples recorded.
    pub closed spec fn samples(&self) -> u64 {
        self.total_samples
    }

    /// Every application's period totals stay within its overall totals.
    pub open spec fn wf(&self) -> bool {
        forall|i: int| 0 <= i < self.apps().len() ==> periods_bounded(#[trigger] self.apps()[i])
    }

    /// Sample `s` can be counted without overflow.
    pub open spec fn fits(&self, s: TrafficSample) -> bool {
        let k = first_index(self.apps(), app_named(s.app_id@));
        &&& self.samples() < u64::MAX
        &&& k >= 0 ==> self.apps()[k].total_sent + s.bytes_sent <= u64::MAX && self.apps()[k].total_received
            + s.bytes_received <= u64::MAX
    }

    pub fn new() -> (r: Self)
        ensures
            r.wf(),
            r.apps() == Seq::<AppTrafficView>::empty(),
            r.samples() == 0,
    {
        let r = Self { apps: Vec::new(), total_samples: 0 };
        assert(r.apps() =~= Seq::<AppTrafficView>::empty());
        r
    }

    fn index_of(&self, app_id: &str) -> (r: Option<usize>)
        ensures
            first_index(self.apps(), app_named(app_id@)) == match r {
                Some(k) => k as int,
                None => -1,
            },
            match r {
                Some(k) => k < self.apps().len(),
                None => true,
            },
    {
        let ghost s = self.apps();
        let mut k: usize = 0;
        while k < self.apps.len()
            invariant
                k <= self.apps@.len(),
                s == self.apps(),
                forall|j: int| 0 <= j < k ==> !app_named(app_id@)(#[trigger] s[j]),
            decreases self.apps@.len() - k,
        {
            if str_eq(self.apps[k].app_id.as_str(), app_id) {
                proof {
                    lemma_first_index(s, app_named(app_id@), k as int);
                }
                return Some(k);
            }
            k = k + 1;
        }
        proof {
            lemma_first_index(s, app_named(app_id@), k as int);
        }
        None
    }

    fn count_into(a: &mut AppTraffic, sample: &TrafficSample, day: &str, month: &str)
        requires
            periods_bounded(old(a)@),
            old(a).total_sent + sample.bytes_sent <= u64::MAX,
            old(a).total_received + sample.bytes_received <= u64::MAX,
        ensures
            final(a)@ == counted(old(a)@, *sample, day@, month@),
            periods_bounded(final(a)@),
    {
        let ghost before = a@;
        a.total_sent = a.total_sent + sample.bytes_sent;
        a.total_received = a.total_received + sample.bytes_received;
        if sample.timestamp > a.last_seen {
            a.last_seen = sample.timestamp;
        }
        if sample.timestamp < a.first_seen {
            a.first_seen = sample.timestamp;
        }
        proof {
            assert forall|i: int| 0 <= i < old(a)@.daily.len() implies (#[trigger] old(a)@.daily[i]).1.0
                + sample.bytes_sent <= a.total_sent && old(a)@.daily[i].1.1 + sample.bytes_received
                <= a.total_received by {}
            assert forall|i: int| 0 <= i < old(a)@.monthly.len() implies (#[trigger] old(a)@.monthly[i]).1.0
                + sample.bytes_sent <= a.total_sent && old(a)@.monthly[i].1.1 + sample.bytes_received
                <= a.total_received by {}
            lemma_add_period_bounded(
                before.daily,
                day@,
                sample.bytes_sent,
                sample.bytes_received,
                a.total_sent as int,
                a.total_received as int,
            );
            lemma_add_period_bounded(
                before.monthly,
                month@,
                sample.bytes_sent,
                sample.bytes_received,
                a.total_sent as int,
                a.total_received as int,
            );
            assert forall|i: int| 0 <= i < a.daily@.len() implies (#[trigger] a.daily@[i]).1.0 + sample.bytes_sent
                <= u64::MAX && a.daily@[i].1.1 + sample.bytes_received <= u64::MAX by {
                assert(period_view(a.daily@)[i] == (a.daily@[i].0@, a.daily@[i].1));
            }
            assert forall|i: int| 0 <= i < a.monthly@.len() implies (#[trigger] a.monthly@[i]).1.0
                + sample.bytes_sent <= u64::MAX && a.monthly@[i].1.1 + sample.bytes_received <= u64::MAX by {
                assert(period_view(a.monthly@)[i] == (a.monthly@[i].0@, a.monthly@[i].1));
            }
        }
        add_to_period(&mut a.daily, day, sample.bytes_sent, sample.bytes_received);
        add_to_period(&mut a.monthly, month, sample.bytes_sent, sample.bytes_received);
    }

    /// Record a sample counted on the day `day` and the month `month` (its
    /// UTC date as `YYYY-MM-DD` and `YYYY-MM`).
    pub fn record_in(&mut self, sample: TrafficSample, day: &str, month: &str)
        requires
            old(self).wf(),
            old(self).fits(sample),
        ensures
            final(self).wf(),
            final(self).apps() == after_sample(old(self).apps(), sample, day@, month@),
            final(self).samples() == old(self).samples() + 1,
    {
        let ghost s = self.apps();
        match self.index_of(sample.app_id.as_str()) {
            Some(k) => {
                let mut a = AppTraffic {
                    app_id: String::new(),
                    total_sent: 0,
                    total_received: 0,
                    first_seen: 0,
                    last_seen: 0,
                    daily: Vec::new(),
                    monthly: Vec::new(),
                };
                std::mem::swap(&mut a, &mut self.apps[k]);
                assert(a@ == s[k as int]);
                Self::count_into(&mut a, &sample, day, month);
                self.apps.set(k, a);
                assert(self.apps() =~= s.update(k as int, counted(s[k as int], sample, day@, month@)));
            },
            None => {
                let mut a = AppTraffic {
                    app_id: sample.app_id.clone(),
                    total_sent: 0,
                    total_received: 0,
                    first_seen: sample.timestamp,
                    last_seen: sample.timestamp,
                    daily: Vec::new(),
                    monthly: Vec::new(),
                };
                assert(a@.daily =~= Seq::<(Seq<char>, (u64, u64))>::empty());
                assert(a@.monthly =~= Seq::<(Seq<char>, (u64, u64))>::empty());
                assert(a@ == fresh_traffic(sample.app_id@, sample.timestamp));
                Self::count_into(&mut a, &sample, day, month);
                self.apps.push(a);
                assert(self.apps() =~= s.push(
                    counted(fresh_traffic(sample.app_id@, sample.timestamp), sample, day@, month@),
                ));
            },
        }
        self.total_samples = self.total_samples + 1;
    }

    /// Record a sample, counted on its UTC day and month. Returns `false`,
    /// recording nothing, where chrono cannot render the sample's instant.
    pub fn record(&mut self, sample: TrafficSample) -> (r: bool)
        requires
            old(self).wf(),
            old(self).fits(sample),
        ensures
            final(self).wf(),
            r == (utc_formatted(sample.timestamp, "%Y-%m-%d"@) is Some && utc_formatted(
                sample.timestamp,
                "%Y-%m"@,
            ) is Some),
            r ==> final(self).apps() == after_sample(
                old(self).apps(),
                sample,
                utc_formatted(sample.timestamp, "%Y-%m-%d"@)->0,
                utc_formatted(sample.timestamp, "%Y-%m"@)->0,
            ) && final(self).samples() == old(self).samples() + 1,
            !r ==> final(self).apps() == old(self).apps() && final(self).samples() == old(self).samples(),
    {
        let day = format_utc(sample.timestamp, "%Y-%m-%d");
        let month = format_utc(sample.timestamp, "%Y-%m");
        match (day, month) {
            (Some(d), Some(m)) => {
                self.record_in(sample, d.as_str(), m.as_str());
                true
            },
            _ => false,
        }
    }

    /// The totals of one application.
    pub fn get(&self, app_id: &str) -> (r: Option<&AppTraffic>)
        ensures
            match r {
                Some(a) => first_index(self.apps(), app_named(app_id@)) >= 0 && a@ == self.apps()[first_index(
                    self.apps(),
                    app_named(app_id@),
                )],
                None => first_index(self.apps(), app_named(app_id@)) < 0,
            },
    {
        match self.index_of(app_id) {
            Some(k) => Some(&self.apps[k]),
            None => None,
        }
    }

    /// The `n` applications with the most bytes, most first.
    pub fn top_apps(&self, n: usize) -> (r: Vec<&AppTraffic>)
        requires
            forall|i: int|
                0 <= i < self.apps().len() ==> (#[trigger] self.apps()[i]).total_sent + self.apps()[i].total_received
                    <= u64::MAX,
        ensures
            traffic_views(self.app_refs()) == self.apps(),
            is_top_n(self.app_refs(), n as nat, r@),
    {
        let mut refs: Vec<&AppTraffic> = Vec::new();
        let mut k: usize = 0;
        while k < self.apps.len()
            invariant
                k <= self.apps@.len(),
                refs@ == self.app_refs().take(k as int),
            decreases self.apps@.len() - k,
        {
            refs.push(&self.apps[k]);
            assert(refs@ =~= self.app_refs().take(k + 1));
            k = k + 1;
        }
        assert(refs@ =~= self.app_refs());
        assert(traffic_views(self.app_refs()) =~= self.apps());
        assert forall|i: int| 0 <= i < refs@.len() implies (#[trigger] refs@[i]).score() <= u64::MAX by {
            assert(self.apps()[i] == refs@[i]@);
        }
        top_n(refs, n)
    }

    fn period_totals(&self, key: &str, daily: bool) -> (r: (u64, u64))
        requires
            period_sum(self.apps(), key@, daily).0 <= u64::MAX,
            period_sum(self.apps(), key@, daily).1 <= u64::MAX,
        ensures
            r.0 == period_sum(self.apps(), key@, daily).0,
            r.1 == period_sum(self.apps(), key@, daily).1,
    {
        let ghost s = self.apps();
        let mut sent: u64 = 0;
        let mut recv: u64 = 0;
        let mut i: usize = 0;
        assert(s.take(0) =~= Seq::<AppTrafficView>::empty());
        while i < self.apps.len()
            invariant
                i <= self.apps@.len(),
                s == self.apps(),
                period_sum(s, key@, daily).0 <= u64::MAX,
                period_sum(s, key@, daily).1 <= u64::MAX,
                sent == period_sum(s.take(i as int), key@, daily).0,
                recv == period_sum(s.take(i as int), key@, daily).1,
            decreases self.apps@.len() - i,
        {
            let a = &self.apps[i];
            let (ps, pr) = if daily {
                a.day_bytes(key)
            } else {
                a.month_bytes(key)
            };
            proof {
                assert(s.take(i + 1).drop_last() =~= s.take(i as int));
                assert(s.take(i + 1).last() == a@);
                lemma_period_sum_take(s, key@, daily, i + 1);
            }
            sent = sent + ps;
            recv = recv + pr;
            i = i + 1;
        }
        assert(s.take(self.apps@.len() as int) =~= s);
        (sent, recv)
    }

    /// Bytes sent and received across all applications on the day `day`.
    pub fn total_on_day(&self, day: &str) -> (r: (u64, u64))
        requires
            period_sum(self.apps(), day@, true).0 <= u64::MAX,
            period_sum(self.apps(), day@, true).1 <= u64::MAX,
        ensures
            r.0 == period_sum(self.apps(), day@, true).0,
            r.1 == period_sum(self.apps(), day@, true).1,
    {
        self.period_totals(day, true)
    }

    /// Bytes sent and received across all applications in the month `month`.
    pub fn total_in_month(&self, month: &str) -> (r: (u64, u64))
        requires
            period_sum(self.apps(), month@, false).0 <= u64::MAX,
            period_sum(self.apps(), month@, false).1 <= u64::MAX,
        ensures
            r.0 == period_sum(self.apps(), month@, false).0,
            r.1 == period_sum(self.apps(), month@, false).1,
    {
        self.period_totals(month, false)
    }

    fn period_key_now(pattern: &str) -> (r: Option<String>)
        requires
            is_utc_pattern(pattern@),
        ensures
            exists|t: Timestamp|
                match r {
                    Some(k) => #[trigger] utc_formatted(t, pattern@) == Some(k@),
                    None => utc_formatted(t, pattern@) is None,
                },
    {
        let now = now_millis();
        let r = format_utc(now, pattern);
        assert(match r {
            Some(k) => utc_formatted(now, pattern@) == Some(k@),
            None => utc_formatted(now, pattern@) is None,
        });
        r
    }

    /// Bytes sent and received across all applications today (UTC); zero
    /// where chrono cannot render the current instant.
    pub fn total_today(&self) -> (r: (u64, u64))
        requires
            forall|day: Seq<char>|
                #![trigger period_sum(self.apps(), day, true)]
                period_sum(self.apps(), day, true).0 <= u64::MAX && period_sum(self.apps(), day, true).1
                    <= u64::MAX,
        ensures
            exists|t: Timestamp|
                match #[trigger] utc_formatted(t, "%Y-%m-%d"@) {
                    Some(day) => r.0 == period_sum(self.apps(), day, true).0 && r.1 == period_sum(
                        self.apps(),
                        day,
                        true,
                    ).1,
                    None => r == (0u64, 0u64),
                },
    {
        match Self::period_key_now("%Y-%m-%d") {
            Some(day) => self.total_on_day(day.as_str()),
            None => (0, 0),
        }
    }

    /// Bytes sent and received across all applications this month (UTC);
    /// zero where chrono cannot render the current instant.
    pub fn total_this_month(&self) -> (r: (u64, u64))
        requires
            forall|month: Seq<char>|
                #![trigger period_sum(self.apps(), month, false)]
                period_sum(self.apps(), month, false).0 <= u64::MAX && period_sum(self.apps(), month, false).1
                    <= u64::MAX,
        ensures
            exists|t: Timestamp|
                match #[trigger] utc_formatted(t, "%Y-%m"@) {
                    Some(month) => r.0 == period_sum(self.apps(), month, false).0 && r.1 == period_sum(
                        self.apps(),
                        month,
                        false,
                    ).1,
                    None => r == (0u64, 0u64),
                },
    {
        match Self::period_key_now("%Y-%m") {
            Some(month) => self.total_in_month(month.as_str()),
            None => (0, 0),
        }
    }

    fn over(&self, key: &str, daily: bool, threshold: u64) -> (r: Vec<&AppTraffic>)
        ensures
            traffic_views(r@) == self.apps().filter(over_in(key@, daily, threshold)),
    {
        let ghost s = self.apps();
        let ghost p = over_in(key@, daily, threshold);
        let mut r: Vec<&AppTraffic> = Vec::new();
        let mut i: usize = 0;
        proof {
            lemma_filter_take_zero(s, p);
            assert(traffic_views(r@) =~= Seq::<AppTrafficView>::empty());
        }
        while i < self.apps.len()
            invariant
                i <= self.apps@.len(),
                s == self.apps(),
                p == over_in(key@, daily, threshold),
                traffic_views(r@) == s.take(i as int).filter(p),
            decreases self.apps@.len() - i,
        {
            let a = &self.apps[i];
            proof {
                assert(s.take(i + 1) =~= s.take(i as int).push(a@));
                s.take(i as int).lemma_filter_push(a@, p);
            }
            let (ps, pr) = if daily {
                a.day_bytes(key)
            } else {
                a.month_bytes(key)
            };
            if (ps as u128) + (pr as u128) > threshold as u128 {
                let ghost before = traffic_views(r@);
                r.push(a);
                assert(traffic_views(r@) =~= before.push(a@));
            }
            i = i + 1;
        }
        assert(s.take(self.apps@.len() as int) =~= s);
        r
    }

    /// Applications whose bytes on the day `day` exceed the threshold.
    pub fn over_on_day(&self, day: &str, threshold_bytes: u64) -> (r: Vec<&AppTraffic>)
        ensures
            traffic_views(r@) == self.apps().filter(over_in(day@, true, threshold_bytes)),
    {
        self.over(day, true, threshold_bytes)
    }

    /// Applications whose bytes in the month `month` exceed the threshold.
    pub fn over_in_month(&self, month: &str, threshold_bytes: u64) -> (r: Vec<&AppTraffic>)
        ensures
            traffic_views(r@) == self.apps().filter(over_in(month@, false, threshold_bytes)),
    {
        self.over(month, false, threshold_bytes)
    }

    /// Applications whose bytes today (UTC) exceed the threshold; none
    /// where chrono cannot render the current instant.
    pub fn daily_over(&self, threshold_bytes: u64) -> (r: Vec<&AppTraffic>)
        ensures
            exists|t: Timestamp|
                match #[trigger] utc_formatted(t, "%Y-%m-%d"@) {
                    Some(day) => traffic_views(r@) == self.apps().filter(over_in(day, true, threshold_bytes)),
                    None => r@.len() == 0,
                },
    {
        match Self::period_key_now("%Y-%m-%d") {
            Some(day) => self.over_on_day(day.as_str(), threshold_bytes),
            None => Vec::new(),
        }
    }

    /// Applications whose bytes this month (UTC) exceed the threshold; none
    /// where chrono cannot render the current instant.
    pub fn monthly_over(&self, threshold_bytes: u64) -> (r: Vec<&AppTraffic>)
        ensures
            exists|t: Timestamp|
                match #[trigger] utc_formatted(t, "%Y-%m"@) {
                    Some(month) => traffic_views(r@) == self.apps().filter(over_in(month, false, threshold_bytes)),
                    None => r@.len() == 0,
                },
    {
        match Self::period_key_now("%Y-%m") {
            Some(month) => self.over_in_month(month.as_str(), threshold_bytes),
            None => Vec::new(),
        }
    }

    /// A byte count for people: `B` below a kibibyte, else KB, MB, GB or TB
    /// (powers of 1024) with two decimals.
    pub fn format_bytes(bytes: u64) -> (r: String)
        ensures
            r@ == traffic_bytes_text(bytes as nat),
    {
        if bytes >= 1099511627776 {
            format_fixed(bytes, 1099511627776, 2, " TB")
        } else if bytes >= 1073741824 {
            format_fixed(bytes, 1073741824, 2, " GB")
        } else if bytes >= 1048576 {
            format_fixed(bytes, 1048576, 2, " MB")
        } else if bytes >= 1024 {
            format_fixed(bytes, 1024, 2, " KB")
        } else {
            let mut s = u64_to_decimal(bytes);
            s.append(" B");
            s
        }
    }

    pub fn app_count(&self) -> (r: usize)
        ensures
            r == self.apps().len(),
    {
        self.apps.len()
    }

    pub fn total_samples(&self) -> (r: u64)
        ensures
            r == self.samples(),
    {
        self.total_samples
    }
}

/// A byte count for people, with two decimals in the largest unit that
/// fits (KB, MB, GB or TB, powers of 1024), or whole bytes.
pub open spec fn traffic_bytes_text(b: nat) -> Seq<char> {
    if b >= 1099511627776 {
        fixed_text(b, 1099511627776, 2) + " TB"@
    } else if b >= 1073741824 {
        fixed_text(b, 1073741824, 2) + " GB"@
    } else if b >= 1048576 {
        fixed_text(b, 1048576, 2) + " MB"@
    } else if b >= 1024 {
        fixed_text(b, 1024, 2) + " KB"@
    } else {
        decimal(b) + " B"@
    }
}

impl Default for TrafficMeter {
    fn default() -> (r: Self)
        ensures
            r.wf(),
            r.apps() == Seq::<AppTrafficView>::empty(),
            r.samples() == 0,
    {
        Self::new()
    }
}

} // verus!
