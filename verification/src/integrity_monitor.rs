//! Integrity monitor — track binary hashes for installed apps and detect changes.

use vstd::prelude::*;
use crate::bounded::{keep_last, push_bounded};
use crate::clock::{Timestamp, now_millis};
use crate::keyed::lemma_filter_take_zero;
use crate::paths::{same_path, paths_equal};
use crate::text::{str_eq, copy_string};

verus! {

/// A baseline hash for an application binary.
#[derive(Debug, Clone)]
pub struct BinaryBaseline {
    pub app_id: String,
    pub binary_path: String,
    pub hash_hex: String,
    pub hash_algorithm: String,
    pub size_bytes: u64,
    pub recorded_at: Timestamp,
    pub version: String,
}

/// An integrity event.
#[derive(Debug, Clone)]
pub struct IntegrityEvent {
    pub app_id: String,
    pub binary_path: String,
    pub event_type: EventType,
    pub old_hash: Option<String>,
    pub new_hash: String,
    pub timestamp: Timestamp,
}

#[derive(Debug, Clone, Copy, PartialEq, Eq, Structural)]
pub enum EventType {
    Baseline,
    Unchanged,
    HashChanged,
    SizeChanged,
    Missing,
    NewBinary,
}

/// An integrity event as plain data.
pub struct IntegrityEventView {
    pub app_id: Seq<char>,
    pub binary_path: Seq<char>,
    pub event_type: EventType,
    pub old_hash: Option<Seq<char>>,
    pub new_hash: Seq<char>,
    pub timestamp: Timestamp,
}

/// The characters of an optional text.
pub open spec fn opt_text(s: Option<String>) -> Option<Seq<char>> {
    match s {
        Some(t) => Some(t@),
        None => None,
    }
}

impl View for IntegrityEvent {
    type V = IntegrityEventView;

    open spec fn view(&self) -> IntegrityEventView {
        IntegrityEventView {
            app_id: self.app_id@,
            binary_path: self.binary_path@,
            event_type: self.event_type,
            old_hash: opt_text(self.old_hash),
            new_hash: self.new_hash@,
            timestamp: self.timestamp,
        }
    }
}

/// The views of a list of events.
pub open spec fn event_views(s: Seq<IntegrityEvent>) -> Seq<IntegrityEventView> {
    s.map_values(|e: IntegrityEvent| e@)
}

/// The index of the first baseline for path `p`, or -1.
pub open spec fn first_path_index(s: Seq<BinaryBaseline>, p: Seq<char>) -> int
    decreases s.len(),
{
    if s.len() == 0 {
        -1
    } else if same_path(s[0].binary_path@, p) {
        0
    } else {
        let k = first_path_index(s.drop_first(), p);
        if k < 0 {
            -1
        } else {
            k + 1
        }
    }
}

/// The baseline of path `p`, if any.
pub open spec fn baseline_for(s: Seq<BinaryBaseline>, p: Seq<char>) -> Option<BinaryBaseline> {
    let k = first_path_index(s, p);
    if k < 0 {
        None
    } else {
        Some(s[k])
    }
}

/// The baselines after recording `b`: it replaces the baseline of its
/// path, or is added.
pub open spec fn with_baseline(s: Seq<BinaryBaseline>, b: BinaryBaseline) -> Seq<BinaryBaseline> {
    let k = first_path_index(s, b.binary_path@);
    if k < 0 {
        s.push(b)
    } else {
        s.update(k, b)
    }
}

/// Where the scan stops: no match before `i`, and a match at `i` (or the end).
pub proof fn lemma_first_path_index(s: Seq<BinaryBaseline>, p: Seq<char>, i: int)
    requires
        0 <= i <= s.len(),
        forall|j: int| 0 <= j < i ==> !same_path(#[trigger] s[j].binary_path@, p),
        i < s.len() ==> same_path(s[i].binary_path@, p),
    ensures
        first_path_index(s, p) == if i < s.len() { i } else { -1 },
    decreases s.len(),
{
    if s.len() > 0 {
        if i > 0 {
            assert(!same_path(s[0].binary_path@, p));
            assert forall|j: int| 0 <= j < i - 1 implies !same_path(#[trigger] s.drop_first()[j].binary_path@, p) by {
                assert(s.drop_first()[j] == s[j + 1]);
            }
            if i - 1 < s.drop_first().len() {
                assert(s.drop_first()[i - 1] == s[i]);
            }
            lemma_first_path_index(s.drop_first(), p, i - 1);
        }
    }
}

/// After `b` is recorded, the baselines hold `b` for its path (paths
/// compare equal to themselves, as `Path` equality does).
pub proof fn lemma_recorded_baseline_found(s: Seq<BinaryBaseline>, b: BinaryBaseline)
    requires
        same_path(b.binary_path@, b.binary_path@),
    ensures
        baseline_for(with_baseline(s, b), b.binary_path@) == Some(b),
{
    let p = b.binary_path@;
    let k = first_path_index(s, p);
    lemma_first_path_index_spec(s, p);
    let t = with_baseline(s, b);
    if k < 0 {
        assert forall|j: int| 0 <= j < s.len() implies !same_path(#[trigger] t[j].binary_path@, p) by {
            assert(t[j] == s[j]);
        }
        lemma_first_path_index(t, p, s.len() as int);
    } else {
        assert forall|j: int| 0 <= j < k implies !same_path(#[trigger] t[j].binary_path@, p) by {
            assert(t[j] == s[j]);
        }
        lemma_first_path_index(t, p, k);
    }
}

/// What `first_path_index` returns: -1 when no path matches, else a match
/// with no match before it.
proof fn lemma_first_path_index_spec(s: Seq<BinaryBaseline>, p: Seq<char>)
    ensures
        -1 <= first_path_index(s, p) < s.len(),
        first_path_index(s, p) >= 0 ==> same_path(s[first_path_index(s, p)].binary_path@, p),
        forall|j: int|
            0 <= j < s.len() && (first_path_index(s, p) < 0 || j < first_path_index(s, p)) ==> !same_path(
                #[trigger] s[j].binary_path@,
                p,
            ),
    decreases s.len(),
{
    if s.len() > 0 && !same_path(s[0].binary_path@, p) {
        lemma_first_path_index_spec(s.drop_first(), p);
        assert forall|j: int|
            0 <= j < s.len() && (first_path_index(s, p) < 0 || j < first_path_index(s, p)) implies !same_path(
            #[trigger] s[j].binary_path@,
            p,
        ) by {
            if j > 0 {
                assert(s[j] == s.drop_first()[j - 1]);
            }
        }
    }
}

/// Checking a binary against the baseline just recorded for it, with the
/// recorded hash and size, reports it unchanged and names the recorded
/// hash.
pub proof fn lemma_baseline_then_check_unchanged(
    s: Seq<BinaryBaseline>,
    b: BinaryBaseline,
    app_id: Seq<char>,
    now: Timestamp,
)
    requires
        same_path(b.binary_path@, b.binary_path@),
    ensures
        check_event(with_baseline(s, b), app_id, b.binary_path@, b.hash_hex@, b.size_bytes, now).event_type
            == EventType::Unchanged,
        check_event(with_baseline(s, b), app_id, b.binary_path@, b.hash_hex@, b.size_bytes, now).old_hash
            == Some(b.hash_hex@),
{
    lemma_recorded_baseline_found(s, b);
}

/// A different size is reported as such, whatever the hash.
pub proof fn lemma_baseline_then_check_size_changed(
    s: Seq<BinaryBaseline>,
    b: BinaryBaseline,
    app_id: Seq<char>,
    hash: Seq<char>,
    size: u64,
    now: Timestamp,
)
    requires
        same_path(b.binary_path@, b.binary_path@),
        size != b.size_bytes,
    ensures
        check_event(with_baseline(s, b), app_id, b.binary_path@, hash, size, now).event_type
            == EventType::SizeChanged,
{
    lemma_recorded_baseline_found(s, b);
}

/// The event of a check of path `p` against the baselines.
pub open spec fn check_event(
    s: Seq<BinaryBaseline>,
    app_id: Seq<char>,
    p: Seq<char>,
    hash: Seq<char>,
    size: u64,
    now: Timestamp,
) -> IntegrityEventView {
    match baseline_for(s, p) {
        None => IntegrityEventView {
            app_id,
            binary_path: p,
            event_type: EventType::NewBinary,
            old_hash: None,
            new_hash: hash,
            timestamp: now,
        },
        Some(b) => IntegrityEventView {
            app_id,
            binary_path: p,
            event_type: if b.hash_hex@ == hash && b.size_bytes == size {
                EventType::Unchanged
            } else if b.size_bytes != size {
                EventType::SizeChanged
            } else {
                EventType::HashChanged
            },
            old_hash: Some(b.hash_hex@),
            new_hash: hash,
            timestamp: now,
        },
    }
}

/// The event logged when baseline `b` is recorded at `t`.
pub open spec fn baseline_event(b: BinaryBaseline, t: Timestamp) -> IntegrityEventView {
    IntegrityEventView {
        app_id: b.app_id@,
        binary_path: b.binary_path@,
        event_type: EventType::Baseline,
        old_hash: None,
        new_hash: b.hash_hex@,
        timestamp: t,
    }
}

/// The event logged when the binary at `p` is found missing at `t`.
pub open spec fn missing_event(
    s: Seq<BinaryBaseline>,
    app_id: Seq<char>,
    p: Seq<char>,
    t: Timestamp,
) -> IntegrityEventView {
    IntegrityEventView {
        app_id,
        binary_path: p,
        event_type: EventType::Missing,
        old_hash: match baseline_for(s, p) {
            Some(b) => Some(b.hash_hex@),
            None => None,
        },
        new_hash: Seq::empty(),
        timestamp: t,
    }
}

/// Integrity monitor.
pub struct IntegrityMonitor {
    baselines: Vec<BinaryBaseline>,
    events: Vec<IntegrityEvent>,
    history_limit: usize,
}

impl IntegrityMonitor {
    /// The recorded baselines.
    pub closed spec fn baseline_list(&self) -> Seq<BinaryBaseline> {
        self.baselines@
    }

    /// The retained events, oldest first.
    pub closed spec fn event_log(&self) -> Seq<IntegrityEventView> {
        event_views(self.events@)
    }

    /// The number of events retained.
    pub closed spec fn limit(&self) -> nat {
        self.history_limit as nat
    }

    /// The event log stays within its limit.
    pub open spec fn wf(&self) -> bool {
        self.event_log().len() <= self.limit()
    }

    pub fn new() -> (r: Self)
        ensures
            r.wf(),
            r.baseline_list() == Seq::<BinaryBaseline>::empty(),
            r.event_log() == Seq::<IntegrityEventView>::empty(),
            r.limit() == 5000,
    {
        let r = Self { baselines: Vec::new(), events: Vec::new(), history_limit: 5000 };
        assert(r.event_log() =~= Seq::<IntegrityEventView>::empty());
        r
    }

    fn find(&self, path: &str) -> (r: Option<usize>)
        ensures
            match r {
                Some(i) => first_path_index(self.baseline_list(), path@) == i && i < self.baseline_list().len(),
                None => first_path_index(self.baseline_list(), path@) == -1,
            },
    {
        let mut i: usize = 0;
        while i < self.baselines.len()
            invariant
                i <= self.baselines@.len(),
                forall|j: int| 0 <= j < i ==> !same_path(#[trigger] self.baselines@[j].binary_path@, path@),
            decreases self.baselines@.len() - i,
        {
            if paths_equal(self.baselines[i].binary_path.as_str(), path) {
                proof {
                    lemma_first_path_index(self.baselines@, path@, i as int);
                }
                return Some(i);
            }
            i = i + 1;
        }
        proof {
            lemma_first_path_index(self.baselines@, path@, i as int);
        }
        None
    }

    fn log(&mut self, e: IntegrityEvent)
        requires
            old(self).wf(),
        ensures
            final(self).wf(),
            final(self).event_log() == keep_last(old(self).event_log().push(e@), old(self).limit()),
            final(self).baseline_list() == old(self).baseline_list(),
            final(self).limit() == old(self).limit(),
    {
        let ghost ev = e@;
        push_bounded(&mut self.events, e, self.history_limit);
        proof {
            let o = old(self).events@.push(e);
            assert(event_views(o) =~= old(self).event_log().push(ev));
            if o.len() > self.history_limit {
                assert(event_views(self.events@) =~= event_views(o).subrange(
                    o.len() - self.history_limit,
                    o.len() as int,
                ));
            } else {
                assert(event_views(self.events@) =~= event_views(o));
            }
        }
    }

    /// Record a baseline hash at the given instant.
    pub fn record_baseline_at(&mut self, baseline: BinaryBaseline, now: Timestamp)
        requires
            old(self).wf(),
        ensures
            final(self).wf(),
            final(self).event_log() == keep_last(
                old(self).event_log().push(baseline_event(baseline, now)),
                old(self).limit(),
            ),
            final(self).baseline_list() == with_baseline(old(self).baseline_list(), baseline),
            final(self).limit() == old(self).limit(),
    {
        let e = IntegrityEvent {
            app_id: copy_string(&baseline.app_id),
            binary_path: copy_string(&baseline.binary_path),
            event_type: EventType::Baseline,
            old_hash: None,
            new_hash: copy_string(&baseline.hash_hex),
            timestamp: now,
        };
        self.log(e);
        match self.find(baseline.binary_path.as_str()) {
            Some(i) => {
                self.baselines.set(i, baseline);
            },
            None => {
                self.baselines.push(baseline);
            },
        }
    }

    /// Record a baseline hash now.
    pub fn record_baseline(&mut self, baseline: BinaryBaseline)
        requires
            old(self).wf(),
        ensures
            final(self).wf(),
            final(self).baseline_list() == with_baseline(old(self).baseline_list(), baseline),
            final(self).limit() == old(self).limit(),
            exists|t: Timestamp|
                final(self).event_log() == keep_last(
                    old(self).event_log().push(#[trigger] baseline_event(baseline, t)),
                    old(self).limit(),
                ),
    {
        let now = now_millis();
        let ghost b = baseline;
        self.record_baseline_at(baseline, now);
        assert(self.event_log() == keep_last(
            old(self).event_log().push(baseline_event(b, now)),
            old(self).limit(),
        ));
    }

    /// Check an observed binary against its baseline at the given instant.
    pub fn check_at(&mut self, app_id: &str, path: &str, new_hash: &str, new_size: u64, now: Timestamp) -> (r:
        IntegrityEvent)
        requires
            old(self).wf(),
        ensures
            final(self).wf(),
            r@ == check_event(old(self).baseline_list(), app_id@, path@, new_hash@, new_size, now),
            final(self).event_log() == keep_last(old(self).event_log().push(r@), old(self).limit()),
            final(self).baseline_list() == old(self).baseline_list(),
            final(self).limit() == old(self).limit(),
    {
        let event = match self.find(path) {
            None => IntegrityEvent {
                app_id: String::from_str(app_id),
                binary_path: String::from_str(path),
                event_type: EventType::NewBinary,
                old_hash: None,
                new_hash: String::from_str(new_hash),
                timestamp: now,
            },
            Some(i) => {
                let b = &self.baselines[i];
                let kind = if str_eq(b.hash_hex.as_str(), new_hash) && b.size_bytes == new_size {
                    EventType::Unchanged
                } else if b.size_bytes != new_size {
                    EventType::SizeChanged
                } else {
                    EventType::HashChanged
                };
                IntegrityEvent {
                    app_id: String::from_str(app_id),
                    binary_path: String::from_str(path),
                    event_type: kind,
                    old_hash: Some(copy_string(&b.hash_hex)),
                    new_hash: String::from_str(new_hash),
                    timestamp: now,
                }
            },
        };
        let copy = IntegrityEvent {
            app_id: copy_string(&event.app_id),
            binary_path: copy_string(&event.binary_path),
            event_type: event.event_type,
            old_hash: match &event.old_hash {
                Some(h) => Some(copy_string(h)),
                None => None,
            },
            new_hash: copy_string(&event.new_hash),
            timestamp: event.timestamp,
        };
        self.log(copy);
        event
    }

    /// Check an observed binary against its baseline now.
    pub fn check(&mut self, app_id: &str, path: &str, new_hash: &str, new_size: u64) -> (r: IntegrityEvent)
        requires
            old(self).wf(),
        ensures
            final(self).wf(),
            r@ == check_event(old(self).baseline_list(), app_id@, path@, new_hash@, new_size, r.timestamp),
            final(self).event_log() == keep_last(old(self).event_log().push(r@), old(self).limit()),
            final(self).baseline_list() == old(self).baseline_list(),
            final(self).limit() == old(self).limit(),
    {
        let now = now_millis();
        self.check_at(app_id, path, new_hash, new_size, now)
    }

    /// Record at the given instant that a binary is missing.
    pub fn mark_missing_at(&mut self, app_id: &str, path: &str, now: Timestamp)
        requires
            old(self).wf(),
        ensures
            final(self).wf(),
            final(self).event_log() == keep_last(
                old(self).event_log().push(missing_event(old(self).baseline_list(), app_id@, path@, now)),
                old(self).limit(),
            ),
            final(self).baseline_list() == old(self).baseline_list(),
            final(self).limit() == old(self).limit(),
    {
        let old_hash = match self.find(path) {
            Some(i) => Some(copy_string(&self.baselines[i].hash_hex)),
            None => None,
        };
        let e = IntegrityEvent {
            app_id: String::from_str(app_id),
            binary_path: String::from_str(path),
            event_type: EventType::Missing,
            old_hash,
            new_hash: String::new(),
            timestamp: now,
        };
        self.log(e);
    }

    /// Record now that a binary is missing.
    pub fn mark_missing(&mut self, app_id: &str, path: &str)
        requires
            old(self).wf(),
        ensures
            final(self).wf(),
            final(self).baseline_list() == old(self).baseline_list(),
            final(self).limit() == old(self).limit(),
            exists|t: Timestamp|
                final(self).event_log() == keep_last(
                    old(self).event_log().push(
                        #[trigger] missing_event(old(self).baseline_list(), app_id@, path@, t),
                    ),
                    old(self).limit(),
                ),
    {
        let now = now_millis();
        self.mark_missing_at(app_id, path, now);
        assert(self.event_log() == keep_last(
            old(self).event_log().push(missing_event(old(self).baseline_list(), app_id@, path@, now)),
            old(self).limit(),
        ));
    }

    /// Events of one type, oldest first.
    pub fn events_by_type(&self, kind: &EventType) -> (r: Vec<&IntegrityEvent>)
        ensures
            event_views(r@.map_values(|e: &IntegrityEvent| *e)) == self.event_log().filter(
                |e: IntegrityEventView| e.event_type == *kind,
            ),
    {
        let ghost ev = event_views(self.events@);
        let ghost pred = |e: IntegrityEventView| e.event_type == *kind;
        let mut r: Vec<&IntegrityEvent> = Vec::new();
        let mut i: usize = 0;
        proof {
            lemma_filter_take_zero(ev, pred);
            assert(event_views(r@.map_values(|e: &IntegrityEvent| *e)) =~= Seq::<IntegrityEventView>::empty());
        }
        while i < self.events.len()
            invariant
                i <= self.events@.len(),
                ev == event_views(self.events@),
                pred == (|e: IntegrityEventView| e.event_type == *kind),
                event_views(r@.map_values(|e: &IntegrityEvent| *e)) == ev.take(i as int).filter(pred),
            decreases self.events@.len() - i,
        {
            proof {
                assert(ev.take(i + 1) =~= ev.take(i as int).push(self.events@[i as int]@));
                ev.take(i as int).lemma_filter_push(self.events@[i as int]@, pred);
            }
            let ghost rb = r@;
            if self.events[i].event_type == *kind {
                r.push(&self.events[i]);
                assert(event_views(r@.map_values(|e: &IntegrityEvent| *e)) =~= event_views(
                    rb.map_values(|e: &IntegrityEvent| *e),
                ).push(self.events@[i as int]@));
            }
            i = i + 1;
        }
        assert(ev.take(self.events@.len() as int) =~= ev);
        r
    }

    /// Events of one application, oldest first.
    pub fn events_for_app(&self, app_id: &str) -> (r: Vec<&IntegrityEvent>)
        ensures
            event_views(r@.map_values(|e: &IntegrityEvent| *e)) == self.event_log().filter(
                |e: IntegrityEventView| e.app_id == app_id@,
            ),
    {
        let ghost ev = event_views(self.events@);
        let ghost pred = |e: IntegrityEventView| e.app_id == app_id@;
        let mut r: Vec<&IntegrityEvent> = Vec::new();
        let mut i: usize = 0;
        proof {
            lemma_filter_take_zero(ev, pred);
            assert(event_views(r@.map_values(|e: &IntegrityEvent| *e)) =~= Seq::<IntegrityEventView>::empty());
        }
        while i < self.events.len()
            invariant
                i <= self.events@.len(),
                ev == event_views(self.events@),
                pred == (|e: IntegrityEventView| e.app_id == app_id@),
                event_views(r@.map_values(|e: &IntegrityEvent| *e)) == ev.take(i as int).filter(pred),
            decreases self.events@.len() - i,
        {
            proof {
                assert(ev.take(i + 1) =~= ev.take(i as int).push(self.events@[i as int]@));
                ev.take(i as int).lemma_filter_push(self.events@[i as int]@, pred);
            }
            let ghost rb = r@;
            if str_eq(self.events[i].app_id.as_str(), app_id) {
                r.push(&self.events[i]);
                assert(event_views(r@.map_values(|e: &IntegrityEvent| *e)) =~= event_views(
                    rb.map_values(|e: &IntegrityEvent| *e),
                ).push(self.events@[i as int]@));
            }
            i = i + 1;
        }
        assert(ev.take(self.events@.len() as int) =~= ev);
        r
    }

    /// The last `n` events, oldest first.
    pub fn recent(&self, n: usize) -> (r: Vec<&IntegrityEvent>)
        ensures
            event_views(r@.map_values(|e: &IntegrityEvent| *e)) == keep_last(self.event_log(), n as nat),
    {
        let len = self.events.len();
        let start = if len > n { len - n } else { 0 };
        let mut r: Vec<&IntegrityEvent> = Vec::new();
        let mut i: usize = start;
        while i < len
            invariant
                len == self.events@.len(),
                start <= i <= len,
                event_views(r@.map_values(|e: &IntegrityEvent| *e)) == event_views(self.events@).subrange(
                    start as int,
                    i as int,
                ),
            decreases len - i,
        {
            let ghost rb = r@;
            r.push(&self.events[i]);
            assert(r@.map_values(|e: &IntegrityEvent| *e) =~= rb.map_values(|e: &IntegrityEvent| *e).push(
                self.events@[i as int],
            ));
            assert(event_views(r@.map_values(|e: &IntegrityEvent| *e)) =~= event_views(
                rb.map_values(|e: &IntegrityEvent| *e),
            ).push(self.events@[i as int]@));
            assert(event_views(r@.map_values(|e: &IntegrityEvent| *e)) =~= event_views(self.events@).subrange(
                start as int,
                i + 1,
            ));
            i = i + 1;
        }
        assert(event_views(self.events@).subrange(start as int, len as int) =~= keep_last(self.event_log(), n as nat));
        r
    }

    pub fn baseline_count(&self) -> (r: usize)
        ensures
            r == self.baseline_list().len(),
    {
        self.baselines.len()
    }

    pub fn event_count(&self) -> (r: usize)
        ensures
            r == self.event_log().len(),
    {
        self.events.len()
    }
}

impl Default for IntegrityMonitor {
    fn default() -> (r: Self)
        ensures
            r.wf(),
            r.baseline_list() == Seq::<BinaryBaseline>::empty(),
            r.event_log() == Seq::<IntegrityEventView>::empty(),
            r.limit() == 5000,
    {
        Self::new()
    }
}

} // verus!
