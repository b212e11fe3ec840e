//! Background activity — what apps do when no user is present.
//!
//! The tracker counts events, bytes and sensitive accesses per
//! application; the CPU time of events, a fractional quantity, is summed
//! by the caller.

use vstd::prelude::*;
use crate::clock::Timestamp;
use crate::keyed::{first_index, lemma_first_index, lemma_first_index_spec, lemma_filter_take_zero};
use crate::ranking::{Scored, is_top_n, top_n};
use crate::text::str_eq;

verus! {

#[derive(Debug, Clone, Copy, PartialEq, Eq, Hash, Structural)]
pub enum ActivityType {
    NetworkRequest,
    FileWrite,
    FileRead,
    LocationQuery,
    MicrophoneAccess,
    CameraAccess,
    ClipboardRead,
    NotificationPosted,
    SystemCall,
    DatabaseQuery,
}

/// Activities that touch the user's surroundings or data: location,
/// microphone, camera and clipboard.
pub open spec fn sensitive_activity(a: ActivityType) -> bool {
    match a {
        ActivityType::LocationQuery | ActivityType::MicrophoneAccess | ActivityType::CameraAccess
        | ActivityType::ClipboardRead => true,
        _ => false,
    }
}

impl ActivityType {
    pub fn is_sensitive(&self) -> (r: bool)
        ensures
            r == sensitive_activity(*self),
    {
        matches!(
            self,
            ActivityType::LocationQuery | ActivityType::MicrophoneAccess | ActivityType::CameraAccess
                | ActivityType::ClipboardRead
        )
    }
}

/// The name of an activity, as its `Debug` form writes it.
pub open spec fn activity_name(a: ActivityType) -> Seq<char> {
    match a {
        ActivityType::NetworkRequest => "NetworkRequest"@,
        ActivityType::FileWrite => "FileWrite"@,
        ActivityType::FileRead => "FileRead"@,
        ActivityType::LocationQuery => "LocationQuery"@,
        ActivityType::MicrophoneAccess => "MicrophoneAccess"@,
        ActivityType::CameraAccess => "CameraAccess"@,
        ActivityType::ClipboardRead => "ClipboardRead"@,
        ActivityType::NotificationPosted => "NotificationPosted"@,
        ActivityType::SystemCall => "SystemCall"@,
        ActivityType::DatabaseQuery => "DatabaseQuery"@,
    }
}

impl ActivityType {
    /// The name of the activity.
    pub fn name(&self) -> (r: &'static str)
        ensures
            r@ == activity_name(*self),
    {
        match self {
            ActivityType::NetworkRequest => "NetworkRequest",
            ActivityType::FileWrite => "FileWrite",
            ActivityType::FileRead => "FileRead",
            ActivityType::LocationQuery => "LocationQuery",
            ActivityType::MicrophoneAccess => "MicrophoneAccess",
            ActivityType::CameraAccess => "CameraAccess",
            ActivityType::ClipboardRead => "ClipboardRead",
            ActivityType::NotificationPosted => "NotificationPosted",
            ActivityType::SystemCall => "SystemCall",
            ActivityType::DatabaseQuery => "DatabaseQuery",
        }
    }
}

/// A background activity event (its CPU time is kept by the caller).
#[derive(Debug, Clone)]
pub struct BackgroundEvent {
    pub app_id: String,
    pub activity: ActivityType,
    pub timestamp: Timestamp,
    pub bytes_used: u64,
    pub user_present: bool,
}

/// A background event as plain data.
pub struct EventView {
    pub app_id: Seq<char>,
    pub activity: ActivityType,
    pub timestamp: Timestamp,
    pub bytes_used: u64,
    pub user_present: bool,
}

impl View for BackgroundEvent {
    type V = EventView;

    open spec fn view(&self) -> EventView {
        EventView {
            app_id: self.app_id@,
            activity: self.activity,
            timestamp: self.timestamp,
            bytes_used: self.bytes_used,
            user_present: self.user_present,
        }
    }
}

/// Per-app background activity summary (without CPU time).
#[derive(Debug, Clone)]
pub struct AppBackgroundStats {
    pub app_id: String,
    pub total_events: u64,
    pub network_bytes: u64,
    pub sensitive_count: u64,
    /// Events per activity name, in order of first occurrence.
    pub by_activity: Vec<(String, u64)>,
    pub first_seen: Timestamp,
    pub last_seen: Timestamp,
}

/// A summary as plain data.
pub struct StatsView {
    pub app_id: Seq<char>,
    pub total_events: u64,
    pub network_bytes: u64,
    pub sensitive_count: u64,
    pub by_activity: Seq<(Seq<char>, u64)>,
    pub first_seen: Timestamp,
    pub last_seen: Timestamp,
}

/// The plain form of per-activity counts.
pub open spec fn counts_view(v: Seq<(String, u64)>) -> Seq<(Seq<char>, u64)> {
    v.map_values(|e: (String, u64)| (e.0@, e.1))
}

impl View for AppBackgroundStats {
    type V = StatsView;

    open spec fn view(&self) -> StatsView {
        StatsView {
            app_id: self.app_id@,
            total_events: self.total_events,
            network_bytes: self.network_bytes,
            sensitive_count: self.sensitive_count,
            by_activity: counts_view(self.by_activity@),
            first_seen: self.first_seen,
            last_seen: self.last_seen,
        }
    }
}

/// The count of activity `name`.
pub open spec fn for_name(name: Seq<char>) -> spec_fn((Seq<char>, u64)) -> bool {
    |e: (Seq<char>, u64)| e.0 == name
}

/// The counts with one more event of activity `name`.
pub open spec fn bumped(t: Seq<(Seq<char>, u64)>, name: Seq<char>) -> Seq<(Seq<char>, u64)> {
    let k = first_index(t, for_name(name));
    if k < 0 {
        t.push((name, 1))
    } else {
        t.update(k, (name, (t[k].1 + 1) as u64))
    }
}

/// The summary started by an application's first event `e`.
pub open spec fn fresh_stats(e: EventView) -> StatsView {
    StatsView {
        app_id: e.app_id,
        total_events: 0,
        network_bytes: 0,
        sensitive_count: 0,
        by_activity: Seq::empty(),
        first_seen: e.timestamp,
        last_seen: e.timestamp,
    }
}

/// Summary `st` after background event `e` (one with no user present).
pub open spec fn counted(st: StatsView, e: EventView) -> StatsView {
    StatsView {
        app_id: st.app_id,
        total_events: (st.total_events + 1) as u64,
        network_bytes: if e.activity == ActivityType::NetworkRequest {
            (st.network_bytes + e.bytes_used) as u64
        } else {
            st.network_bytes
        },
        sensitive_count: if sensitive_activity(e.activity) {
            (st.sensitive_count + 1) as u64
        } else {
            st.sensitive_count
        },
        by_activity: bumped(st.by_activity, activity_name(e.activity)),
        first_seen: if e.timestamp < st.first_seen {
            e.timestamp
        } else {
            st.first_seen
        },
        last_seen: e.timestamp,
    }
}

/// The summary of `app`.
pub open spec fn stats_for_app(app: Seq<char>) -> spec_fn(StatsView) -> bool {
    |st: StatsView| st.app_id == app
}

/// The summaries after event `e`: the application's summary is started if
/// new, and counts the event when no user was present.
pub open spec fn after_event(s: Seq<StatsView>, e: EventView) -> Seq<StatsView> {
    let k = first_index(s, stats_for_app(e.app_id));
    let base = if k < 0 {
        fresh_stats(e)
    } else {
        s[k]
    };
    let st = if e.user_present {
        base
    } else {
        counted(base, e)
    };
    if k < 0 {
        s.push(st)
    } else {
        s.update(k, st)
    }
}

/// Every per-activity count and the sensitive count stay within the event
/// count.
pub open spec fn counts_bounded(st: StatsView) -> bool {
    &&& st.sensitive_count <= st.total_events
    &&& forall|i: int| 0 <= i < st.by_activity.len() ==> (#[trigger] st.by_activity[i]).1 <= st.total_events
}

/// Event `e` can be counted without overflow.
pub open spec fn can_count(s: Seq<StatsView>, e: EventView) -> bool {
    let k = first_index(s, stats_for_app(e.app_id));
    k >= 0 && !e.user_present ==> s[k].total_events < u64::MAX && (e.activity == ActivityType::NetworkRequest
        ==> s[k].network_bytes + e.bytes_used <= u64::MAX)
}

/// The event log after `e`, the oldest event leaving when there are more
/// than `limit`.
pub open spec fn logged(s: Seq<EventView>, e: EventView, limit: nat) -> Seq<EventView> {
    let s1 = s.push(e);
    if s1.len() > limit {
        s1.drop_first()
    } else {
        s1
    }
}

/// A summary with at least `min` sensitive accesses.
pub open spec fn sensitive_at_least(min: u64) -> spec_fn(StatsView) -> bool {
    |st: StatsView| st.sensitive_count >= min
}

/// A background event of `app`.
pub open spec fn background_of(app: Seq<char>) -> spec_fn(EventView) -> bool {
    |e: EventView| e.app_id == app && !e.user_present
}

/// The views of a list of summary references.
pub open spec fn stats_views(s: Seq<&AppBackgroundStats>) -> Seq<StatsView> {
    s.map_values(|x: &AppBackgroundStats| x@)
}

/// The views of a list of event references.
pub open spec fn event_views(s: Seq<&BackgroundEvent>) -> Seq<EventView> {
    s.map_values(|x: &BackgroundEvent| x@)
}

impl<'a> Scored for &'a AppBackgroundStats {
    open spec fn score(&self) -> int {
        self.network_bytes as int
    }

    fn score_value(&self) -> (v: u64) {
        self.network_bytes
    }
}

fn bump(t: &mut Vec<(String, u64)>, name: &str, bound: u64)
    requires
        bound >= 1,
        forall|i: int| 0 <= i < old(t)@.len() ==> (#[trigger] old(t)@[i]).1 < bound,
    ensures
        counts_view(final(t)@) == bumped(counts_view(old(t)@), name@),
        forall|i: int| 0 <= i < final(t)@.len() ==> (#[trigger] final(t)@[i]).1 <= bound,
{
    let ghost s = counts_view(t@);
    let mut k: usize = 0;
    while k < t.len()
        invariant
            k <= t@.len(),
            s == counts_view(t@),
            t@ == old(t)@,
            forall|i: int| 0 <= i < t@.len() ==> (#[trigger] t@[i]).1 < bound,
            forall|j: int| 0 <= j < k ==> !for_name(name@)(#[trigger] s[j]),
        decreases t@.len() - k,
    {
        if str_eq(t[k].0.as_str(), name) {
            proof {
                lemma_first_index(s, for_name(name@), k as int);
            }
            let c = t[k].1;
            t.set(k, (String::from_str(name), c + 1));
            assert(counts_view(t@) =~= s.update(k as int, (name@, (s[k as int].1 + 1) as u64)));
            assert forall|i: int| 0 <= i < t@.len() implies (#[trigger] t@[i]).1 <= bound by {
                if i != k {
                    assert(t@[i] == old(t)@[i]);
                }
            }
            return;
        }
        k = k + 1;
    }
    proof {
        lemma_first_index(s, for_name(name@), k as int);
    }
    let ghost before = t@;
    t.push((String::from_str(name), 1));
    assert(counts_view(t@) =~= s.push((name@, 1)));
    assert forall|i: int| 0 <= i < t@.len() implies (#[trigger] t@[i]).1 <= bound by {
        if i < before.len() {
            assert(t@[i] == before[i]);
        }
    }
}

/// Background activity tracker.
pub struct BackgroundActivity {
    events: Vec<BackgroundEvent>,
    stats: Vec<AppBackgroundStats>,
    history_limit: usize,
}

impl BackgroundActivity {
    /// The recorded events, oldest first.
    pub closed spec fn log(&self) -> Seq<EventView> {
        self.events@.map_values(|e: BackgroundEvent| e@)
    }

    /// The per-application summaries, in the order first seen.
    pub closed spec fn summaries(&self) -> Seq<StatsView> {
        self.stats@.map_values(|s: AppBackgroundStats| s@)
    }

    /// The summaries, by reference.
    pub closed spec fn summary_refs(&self) -> Seq<&AppBackgroundStats> {
        self.stats@.map_values(|s: AppBackgroundStats| &s)
    }

    /// The number of events kept.
    pub closed spec fn limit(&self) -> nat {
        self.history_limit as nat
    }

    /// Every summary's counts stay within its event count.
    pub open spec fn wf(&self) -> bool {
        forall|i: int| 0 <= i < self.summaries().len() ==> counts_bounded(#[trigger] self.summaries()[i])
    }

    pub fn new() -> (r: Self)
        ensures
            r.wf(),
            r.log() == Seq::<EventView>::empty(),
            r.summaries() == Seq::<StatsView>::empty(),
            r.limit() == 10_000,
    {
        let r = Self { events: Vec::new(), stats: Vec::new(), history_limit: 10_000 };
        assert(r.log() =~= Seq::<EventView>::empty());
        assert(r.summaries() =~= Seq::<StatsView>::empty());
        r
    }

    fn index_of(&self, app_id: &str) -> (r: Option<usize>)
        ensures
            first_index(self.summaries(), stats_for_app(app_id@)) == match r {
                Some(k) => k as int,
                None => -1,
            },
            match r {
                Some(k) => k < self.summaries().len(),
                None => true,
            },
    {
        let ghost s = self.summaries();
        let mut k: usize = 0;
        while k < self.stats.len()
            invariant
                k <= self.stats@.len(),
                s == self.summaries(),
                forall|j: int| 0 <= j < k ==> !stats_for_app(app_id@)(#[trigger] s[j]),
            decreases self.stats@.len() - k,
        {
            if str_eq(self.stats[k].app_id.as_str(), app_id) {
                proof {
                    lemma_first_index(s, stats_for_app(app_id@), k as int);
                }
                return Some(k);
            }
            k = k + 1;
        }
        proof {
            lemma_first_index(s, stats_for_app(app_id@), k as int);
        }
        None
    }

    fn count_into(st: &mut AppBackgroundStats, event: &BackgroundEvent)
        requires
            counts_bounded(old(st)@),
            old(st).total_events < u64::MAX,
            event.activity == ActivityType::NetworkRequest ==> old(st).network_bytes + event.bytes_used <= u64::MAX,
        ensures
            final(st)@ == counted(old(st)@, event@),
            counts_bounded(final(st)@),
    {
        let bound = st.total_events + 1;
        proof {
            assert forall|i: int| 0 <= i < st.by_activity@.len() implies (#[trigger] st.by_activity@[i]).1 < bound by {
                assert(counts_view(st.by_activity@)[i] == (st.by_activity@[i].0@, st.by_activity@[i].1));
                assert(st@.by_activity[i].1 <= st@.total_events);
            }
        }
        st.total_events = bound;
        st.last_seen = event.timestamp;
        if event.timestamp < st.first_seen {
            st.first_seen = event.timestamp;
        }
        if event.activity == ActivityType::NetworkRequest {
            st.network_bytes = st.network_bytes + event.bytes_used;
        }
        if event.activity.is_sensitive() {
            st.sensitive_count = st.sensitive_count + 1;
        }
        bump(&mut st.by_activity, event.activity.name(), bound);
        proof {
            assert forall|i: int| 0 <= i < st@.by_activity.len() implies (#[trigger] st@.by_activity[i]).1
                <= st@.total_events by {
                assert(st@.by_activity[i] == (st.by_activity@[i].0@, st.by_activity@[i].1));
            }
        }
    }

    /// Record an event; it is counted only when no user was present.
    pub fn observe(&mut self, event: BackgroundEvent)
        requires
            old(self).wf(),
            can_count(old(self).summaries(), event@),
        ensures
            final(self).wf(),
            final(self).summaries() == after_event(old(self).summaries(), event@),
            final(self).log() == logged(old(self).log(), event@, old(self).limit()),
            final(self).limit() == old(self).limit(),
    {
        let ghost s = self.summaries();
        let ghost ev = event@;
        match self.index_of(event.app_id.as_str()) {
            Some(k) => {
                let mut st = AppBackgroundStats {
                    app_id: String::new(),
                    total_events: 0,
                    network_bytes: 0,
                    sensitive_count: 0,
                    by_activity: Vec::new(),
                    first_seen: 0,
                    last_seen: 0,
                };
                std::mem::swap(&mut st, &mut self.stats[k]);
                assert(st@ == s[k as int]);
                if !event.user_present {
                    Self::count_into(&mut st, &event);
                }
                let ghost sv = st@;
                self.stats.set(k, st);
                assert(self.summaries() =~= s.update(k as int, sv));
            },
            None => {
                let mut st = AppBackgroundStats {
                    app_id: event.app_id.clone(),
                    total_events: 0,
                    network_bytes: 0,
                    sensitive_count: 0,
                    by_activity: Vec::new(),
                    first_seen: event.timestamp,
                    last_seen: event.timestamp,
                };
                assert(st@.by_activity =~= Seq::<(Seq<char>, u64)>::empty());
                assert(st@ == fresh_stats(ev));
                if !event.user_present {
                    Self::count_into(&mut st, &event);
                }
                let ghost sv = st@;
                self.stats.push(st);
                assert(self.summaries() =~= s.push(sv));
            },
        }
        let ghost l = self.log();
        self.events.push(event);
        assert(self.log() =~= l.push(ev));
        if self.events.len() > self.history_limit {
            self.events.remove(0);
            assert(self.log() =~= l.push(ev).drop_first());
        }
    }

    /// The summary of an application.
    pub fn stats_for(&self, app_id: &str) -> (r: Option<&AppBackgroundStats>)
        ensures
            match r {
                Some(st) => {
                    let k = first_index(self.summaries(), stats_for_app(app_id@));
                    k >= 0 && st@ == self.summaries()[k]
                },
                None => first_index(self.summaries(), stats_for_app(app_id@)) < 0,
            },
    {
        match self.index_of(app_id) {
            Some(k) => Some(&self.stats[k]),
            None => None,
        }
    }

    /// The `n` applications with the most background network bytes, most
    /// first.
    pub fn top_network_users(&self, n: usize) -> (r: Vec<&AppBackgroundStats>)
        ensures
            stats_views(self.summary_refs()) == self.summaries(),
            is_top_n(self.summary_refs(), n as nat, r@),
    {
        let mut refs: Vec<&AppBackgroundStats> = Vec::new();
        let mut k: usize = 0;
        while k < self.stats.len()
            invariant
                k <= self.stats@.len(),
                refs@ == self.summary_refs().take(k as int),
            decreases self.stats@.len() - k,
        {
            refs.push(&self.stats[k]);
            assert(refs@ =~= self.summary_refs().take(k + 1));
            k = k + 1;
        }
        assert(refs@ =~= self.summary_refs());
        assert(stats_views(self.summary_refs()) =~= self.summaries());
        top_n(refs, n)
    }

    /// Applications with at least `min` sensitive background accesses.
    pub fn sensitive_offenders(&self, min: u64) -> (r: Vec<&AppBackgroundStats>)
        ensures
            stats_views(r@) == self.summaries().filter(sensitive_at_least(min)),
    {
        let ghost s = self.summaries();
        let ghost p = sensitive_at_least(min);
        let mut r: Vec<&AppBackgroundStats> = Vec::new();
        let mut i: usize = 0;
        proof {
            lemma_filter_take_zero(s, p);
            assert(stats_views(r@) =~= Seq::<StatsView>::empty());
        }
        while i < self.stats.len()
            invariant
                i <= self.stats@.len(),
                s == self.summaries(),
                p == sensitive_at_least(min),
                stats_views(r@) == s.take(i as int).filter(p),
            decreases self.stats@.len() - i,
        {
            let st = &self.stats[i];
            proof {
                assert(s.take(i + 1) =~= s.take(i as int).push(st@));
                s.take(i as int).lemma_filter_push(st@, p);
            }
            if st.sensitive_count >= min {
                let ghost before = stats_views(r@);
                r.push(st);
                assert(stats_views(r@) =~= before.push(st@));
            }
            i = i + 1;
        }
        assert(s.take(self.stats@.len() as int) =~= s);
        r
    }

    /// The background events of an application, oldest first.
    pub fn background_events_for(&self, app_id: &str) -> (r: Vec<&BackgroundEvent>)
        ensures
            event_views(r@) == self.log().filter(background_of(app_id@)),
    {
        let ghost s = self.log();
        let ghost p = background_of(app_id@);
        let mut r: Vec<&BackgroundEvent> = Vec::new();
        let mut i: usize = 0;
        proof {
            lemma_filter_take_zero(s, p);
            assert(event_views(r@) =~= Seq::<EventView>::empty());
        }
        while i < self.events.len()
            invariant
                i <= self.events@.len(),
                s == self.log(),
                p == background_of(app_id@),
                event_views(r@) == s.take(i as int).filter(p),
            decreases self.events@.len() - i,
        {
            let e = &self.events[i];
            proof {
                assert(s.take(i + 1) =~= s.take(i as int).push(e@));
                s.take(i as int).lemma_filter_push(e@, p);
            }
            if str_eq(e.app_id.as_str(), app_id) && !e.user_present {
                let ghost before = event_views(r@);
                r.push(e);
                assert(event_views(r@) =~= before.push(e@));
            }
            i = i + 1;
        }
        assert(s.take(self.events@.len() as int) =~= s);
        r
    }

    /// Total apps tracked.
    pub fn app_count(&self) -> (r: usize)
        ensures
            r == self.summaries().len(),
    {
        self.stats.len()
    }

    /// Total events recorded.
    pub fn event_count(&self) -> (r: usize)
        ensures
            r == self.log().len(),
    {
        self.events.len()
    }
}

impl Default for BackgroundActivity {
    fn default() -> (r: Self)
        ensures
            r.wf(),
            r.log() == Seq::<EventView>::empty(),
            r.summaries() == Seq::<StatsView>::empty(),
            r.limit() == 10_000,
    {
        Self::new()
    }
}

} // verus!
