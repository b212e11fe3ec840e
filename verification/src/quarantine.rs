//! App quarantine — temporarily isolate suspicious applications.

use vstd::prelude::*;
use crate::clock::{Timestamp, now_millis};
use crate::keyed::{
    first_index, lemma_first_index, lemma_first_index_spec, lemma_filter_take_zero, distinct_by,
    lemma_filter_distinct_by, lemma_filter_map_push, put_first, lemma_put_first_found,
};
use crate::text::{str_eq, texts, copy_string};

verus! {

/// A quarantined app.
#[derive(Debug, Clone)]
pub struct QuarantinedApp {
    pub app_id: String,
    pub reason: String,
    pub quarantined_at: Timestamp,
    pub release_after: Option<Timestamp>,
    pub original_permissions: Vec<String>,
    pub network_disabled: bool,
    pub auto_quarantine: bool,
}

/// A quarantined app as plain data.
pub struct QuarantinedView {
    pub app_id: Seq<char>,
    pub reason: Seq<char>,
    pub quarantined_at: Timestamp,
    pub release_after: Option<Timestamp>,
    pub original_permissions: Seq<Seq<char>>,
    pub network_disabled: bool,
    pub auto_quarantine: bool,
}

impl View for QuarantinedApp {
    type V = QuarantinedView;

    open spec fn view(&self) -> QuarantinedView {
        QuarantinedView {
            app_id: self.app_id@,
            reason: self.reason@,
            quarantined_at: self.quarantined_at,
            release_after: self.release_after,
            original_permissions: texts(self.original_permissions@),
            network_disabled: self.network_disabled,
            auto_quarantine: self.auto_quarantine,
        }
    }
}

/// Quarantine reason categories.
#[derive(Debug, Clone, Copy, PartialEq, Eq, Structural)]
pub enum QuarantineReason {
    SuspiciousBehavior,
    PolicyViolation,
    UnauthorizedAccess,
    UnknownPublisher,
    ManualReview,
    SignatureMismatch,
}

/// A quarantine action in the history.
#[derive(Debug, Clone)]
pub struct QuarantineRecord {
    pub app_id: String,
    pub action: QuarantineAction,
    pub timestamp: Timestamp,
    pub reason: String,
}

#[derive(Debug, Clone, Copy, PartialEq, Eq, Structural)]
pub enum QuarantineAction {
    Quarantined,
    Released,
    Expired,
}

/// A history record as plain data.
pub struct RecordView {
    pub app_id: Seq<char>,
    pub action: QuarantineAction,
    pub timestamp: Timestamp,
    pub reason: Seq<char>,
}

impl View for QuarantineRecord {
    type V = RecordView;

    open spec fn view(&self) -> RecordView {
        RecordView { app_id: self.app_id@, action: self.action, timestamp: self.timestamp, reason: self.reason@ }
    }
}

/// The key of a quarantined app.
pub open spec fn app_key() -> spec_fn(QuarantinedView) -> Seq<char> {
    |q: QuarantinedView| q.app_id
}

/// The quarantined app `app`.
pub open spec fn for_app(app: Seq<char>) -> spec_fn(QuarantinedView) -> bool {
    |q: QuarantinedView| q.app_id == app
}

/// Is `app` among the quarantined?
pub open spec fn held(s: Seq<QuarantinedView>, app: Seq<char>) -> bool {
    first_index(s, for_app(app)) >= 0
}

/// The quarantine of `app` for `reason` at `now`.
pub open spec fn held_view(app: Seq<char>, reason: Seq<char>, release_after: Option<Timestamp>, now: Timestamp) -> QuarantinedView {
    QuarantinedView {
        app_id: app,
        reason,
        quarantined_at: now,
        release_after,
        original_permissions: Seq::empty(),
        network_disabled: true,
        auto_quarantine: false,
    }
}

/// The quarantined apps after quarantining `q`: it replaces an earlier
/// quarantine of the same app, or is added.
pub open spec fn with_quarantine(s: Seq<QuarantinedView>, q: QuarantinedView) -> Seq<QuarantinedView> {
    let k = first_index(s, for_app(q.app_id));
    if k < 0 {
        s.push(q)
    } else {
        s.update(k, q)
    }
}

/// A quarantine whose release time has come at `now`.
pub open spec fn due(now: Timestamp) -> spec_fn(QuarantinedView) -> bool {
    |q: QuarantinedView|
        match q.release_after {
            Some(t) => t <= now,
            None => false,
        }
}

/// A quarantine whose release time has not come at `now`.
pub open spec fn not_due(now: Timestamp) -> spec_fn(QuarantinedView) -> bool {
    |q: QuarantinedView| !due(now)(q)
}

/// The history record of a quarantine expiring at `now`.
pub open spec fn expiry_record(now: Timestamp) -> spec_fn(QuarantinedView) -> RecordView {
    |q: QuarantinedView| RecordView { app_id: q.app_id, action: QuarantineAction::Expired, timestamp: now, reason: q.reason }
}

/// A history record of `app`.
pub open spec fn record_of(app: Seq<char>) -> spec_fn(RecordView) -> bool {
    |r: RecordView| r.app_id == app
}

/// The views of a list of quarantine references.
pub open spec fn held_views(s: Seq<&QuarantinedApp>) -> Seq<QuarantinedView> {
    s.map_values(|q: &QuarantinedApp| q@)
}

/// The views of a list of history references.
pub open spec fn record_views(s: Seq<&QuarantineRecord>) -> Seq<RecordView> {
    s.map_values(|r: &QuarantineRecord| r@)
}

/// After the expirations at `now` are processed, no remaining quarantine
/// is due at `now`, and every released one was.
pub proof fn lemma_no_quarantine_left_due(s: Seq<QuarantinedView>, now: Timestamp)
    ensures
        forall|i: int| 0 <= i < s.filter(not_due(now)).len() ==> !due(now)(#[trigger] s.filter(not_due(now))[i]),
        forall|i: int| 0 <= i < s.filter(due(now)).len() ==> due(now)(#[trigger] s.filter(due(now))[i]),
{
    s.filter_lemma(not_due(now));
    s.filter_lemma(due(now));
}

/// After quarantining an app, its quarantine is the one just made.
pub proof fn lemma_quarantine_then_entry(s: Seq<QuarantinedView>, q: QuarantinedView)
    ensures
        held(with_quarantine(s, q), q.app_id),
        with_quarantine(s, q)[first_index(with_quarantine(s, q), for_app(q.app_id))] == q,
{
    assert(with_quarantine(s, q) == put_first(s, for_app(q.app_id), q));
    lemma_put_first_found(s, for_app(q.app_id), q);
}

/// Quarantine manager.
pub struct QuarantineManager {
    quarantined: Vec<QuarantinedApp>,
    history: Vec<QuarantineRecord>,
}

impl QuarantineManager {
    /// The quarantined apps, in the order first quarantined.
    pub closed spec fn entries(&self) -> Seq<QuarantinedView> {
        self.quarantined@.map_values(|q: QuarantinedApp| q@)
    }

    /// The history of quarantine actions, oldest first.
    pub closed spec fn log(&self) -> Seq<RecordView> {
        self.history@.map_values(|r: QuarantineRecord| r@)
    }

    /// One quarantine per app.
    pub open spec fn wf(&self) -> bool {
        distinct_by(self.entries(), app_key())
    }

    pub fn new() -> (r: Self)
        ensures
            r.wf(),
            r.entries() == Seq::<QuarantinedView>::empty(),
            r.log() == Seq::<RecordView>::empty(),
    {
        let r = Self { quarantined: Vec::new(), history: Vec::new() };
        assert(r.entries() =~= Seq::<QuarantinedView>::empty());
        assert(r.log() =~= Seq::<RecordView>::empty());
        r
    }

    fn index_of(&self, app_id: &str) -> (r: Option<usize>)
        ensures
            first_index(self.entries(), for_app(app_id@)) == match r {
                Some(k) => k as int,
                None => -1,
            },
            match r {
                Some(k) => k < self.entries().len(),
                None => true,
            },
    {
        let ghost s = self.entries();
        let mut k: usize = 0;
        while k < self.quarantined.len()
            invariant
                k <= self.quarantined@.len(),
                s == self.entries(),
                forall|j: int| 0 <= j < k ==> !for_app(app_id@)(#[trigger] s[j]),
            decreases self.quarantined@.len() - k,
        {
            if str_eq(self.quarantined[k].app_id.as_str(), app_id) {
                proof {
                    lemma_first_index(s, for_app(app_id@), k as int);
                }
                return Some(k);
            }
            k = k + 1;
        }
        proof {
            lemma_first_index(s, for_app(app_id@), k as int);
        }
        None
    }

    /// Quarantine an app at the given instant, replacing an earlier
    /// quarantine of it.
    pub fn quarantine_at(&mut self, app_id: &str, reason: &str, release_after: Option<Timestamp>, now: Timestamp)
        requires
            old(self).wf(),
        ensures
            final(self).wf(),
            final(self).entries() == with_quarantine(
                old(self).entries(),
                held_view(app_id@, reason@, release_after, now),
            ),
            final(self).log() == old(self).log().push(
                RecordView { app_id: app_id@, action: QuarantineAction::Quarantined, timestamp: now, reason: reason@ },
            ),
            held(final(self).entries(), app_id@),
    {
        let ghost s = self.entries();
        let ghost v = held_view(app_id@, reason@, release_after, now);
        let q = QuarantinedApp {
            app_id: String::from_str(app_id),
            reason: String::from_str(reason),
            quarantined_at: now,
            release_after,
            original_permissions: Vec::new(),
            network_disabled: true,
            auto_quarantine: false,
        };
        assert(q@.original_permissions =~= Seq::<Seq<char>>::empty());
        proof {
            lemma_first_index_spec(s, for_app(app_id@));
        }
        match self.index_of(app_id) {
            Some(k) => {
                self.quarantined.set(k, q);
                assert(self.entries() =~= s.update(k as int, v));
                assert forall|i: int, j: int|
                    0 <= i < self.entries().len() && 0 <= j < self.entries().len() && i != j implies app_key()(
                    self.entries()[i],
                ) != app_key()(self.entries()[j]) by {
                    if i != k && j != k {
                        assert(app_key()(s[i]) != app_key()(s[j]));
                    } else if i == k {
                        assert(app_key()(s[k as int]) != app_key()(s[j]));
                    } else {
                        assert(app_key()(s[i]) != app_key()(s[k as int]));
                    }
                }
                proof {
                    lemma_first_index_spec(self.entries(), for_app(app_id@));
                    assert(for_app(app_id@)(self.entries()[k as int]));
                }
            },
            None => {
                self.quarantined.push(q);
                assert(self.entries() =~= s.push(v));
                assert forall|i: int, j: int|
                    0 <= i < self.entries().len() && 0 <= j < self.entries().len() && i != j implies app_key()(
                    self.entries()[i],
                ) != app_key()(self.entries()[j]) by {
                    if i < s.len() && j < s.len() {
                        assert(app_key()(s[i]) != app_key()(s[j]));
                    } else if i < s.len() {
                        assert(!for_app(app_id@)(s[i]));
                    } else {
                        assert(!for_app(app_id@)(s[j]));
                    }
                }
                proof {
                    lemma_first_index_spec(self.entries(), for_app(app_id@));
                    assert(for_app(app_id@)(self.entries()[s.len() as int]));
                }
            },
        }
        let ghost h = self.log();
        self.history.push(
            QuarantineRecord {
                app_id: String::from_str(app_id),
                action: QuarantineAction::Quarantined,
                timestamp: now,
                reason: String::from_str(reason),
            },
        );
        assert(self.log() =~= h.push(
            RecordView { app_id: app_id@, action: QuarantineAction::Quarantined, timestamp: now, reason: reason@ },
        ));
    }

    /// Quarantine an app now.
    pub fn quarantine(&mut self, app_id: &str, reason: &str, release_after: Option<Timestamp>)
        requires
            old(self).wf(),
        ensures
            final(self).wf(),
            exists|t: Timestamp|
                final(self).entries() == with_quarantine(
                    old(self).entries(),
                    #[trigger] held_view(app_id@, reason@, release_after, t),
                ) && final(self).log() == old(self).log().push(
                    RecordView { app_id: app_id@, action: QuarantineAction::Quarantined, timestamp: t, reason: reason@ },
                ),
            held(final(self).entries(), app_id@),
    {
        let now = now_millis();
        self.quarantine_at(app_id, reason, release_after, now);
        assert(self.entries() == with_quarantine(old(self).entries(), held_view(app_id@, reason@, release_after, now)));
    }

    /// Release an app from quarantine at the given instant. Returns whether
    /// it was quarantined.
    pub fn release_at(&mut self, app_id: &str, now: Timestamp) -> (r: bool)
        requires
            old(self).wf(),
        ensures
            final(self).wf(),
            r == held(old(self).entries(), app_id@),
            !held(final(self).entries(), app_id@),
            r ==> ({
                let k = first_index(old(self).entries(), for_app(app_id@));
                &&& final(self).entries() == old(self).entries().remove(k)
                &&& final(self).log() == old(self).log().push(
                    RecordView {
                        app_id: app_id@,
                        action: QuarantineAction::Released,
                        timestamp: now,
                        reason: old(self).entries()[k].reason,
                    },
                )
            }),
            !r ==> final(self).entries() == old(self).entries() && final(self).log() == old(self).log(),
    {
        let ghost s = self.entries();
        proof {
            lemma_first_index_spec(s, for_app(app_id@));
        }
        match self.index_of(app_id) {
            Some(k) => {
                let q = self.quarantined.remove(k);
                assert(self.entries() =~= s.remove(k as int));
                assert forall|i: int, j: int|
                    0 <= i < self.entries().len() && 0 <= j < self.entries().len() && i != j implies app_key()(
                    self.entries()[i],
                ) != app_key()(self.entries()[j]) by {
                    let a = if i < k { i } else { i + 1 };
                    let b = if j < k { j } else { j + 1 };
                    assert(self.entries()[i] == s[a] && self.entries()[j] == s[b]);
                }
                proof {
                    lemma_first_index_spec(self.entries(), for_app(app_id@));
                    if held(self.entries(), app_id@) {
                        let m = first_index(self.entries(), for_app(app_id@));
                        let a = if m < k { m } else { m + 1 };
                        assert(self.entries()[m] == s[a]);
                        assert(app_key()(s[a]) != app_key()(s[k as int]));
                    }
                }
                let ghost h = self.log();
                let ghost reason = q.reason@;
                self.history.push(
                    QuarantineRecord {
                        app_id: String::from_str(app_id),
                        action: QuarantineAction::Released,
                        timestamp: now,
                        reason: q.reason,
                    },
                );
                assert(self.log() =~= h.push(
                    RecordView { app_id: app_id@, action: QuarantineAction::Released, timestamp: now, reason },
                ));
                true
            },
            None => false,
        }
    }

    /// Release an app from quarantine now.
    pub fn release(&mut self, app_id: &str) -> (r: bool)
        requires
            old(self).wf(),
        ensures
            final(self).wf(),
            r == held(old(self).entries(), app_id@),
            !held(final(self).entries(), app_id@),
            r ==> final(self).entries() == old(self).entries().remove(first_index(old(self).entries(), for_app(app_id@))),
            r ==> final(self).log().len() == old(self).log().len() + 1,
            !r ==> final(self).entries() == old(self).entries() && final(self).log() == old(self).log(),
    {
        let now = now_millis();
        self.release_at(app_id, now)
    }

    /// Is the app quarantined?
    pub fn is_quarantined(&self, app_id: &str) -> (r: bool)
        ensures
            r == held(self.entries(), app_id@),
    {
        self.index_of(app_id).is_some()
    }

    /// All quarantined apps.
    pub fn list(&self) -> (r: Vec<&QuarantinedApp>)
        ensures
            held_views(r@) == self.entries(),
    {
        let mut r: Vec<&QuarantinedApp> = Vec::new();
        let mut i: usize = 0;
        while i < self.quarantined.len()
            invariant
                i <= self.quarantined@.len(),
                held_views(r@) == self.entries().take(i as int),
            decreases self.quarantined@.len() - i,
        {
            let ghost before = held_views(r@);
            r.push(&self.quarantined[i]);
            assert(self.entries()[i as int] == self.quarantined@[i as int]@);
            assert(held_views(r@) =~= before.push(self.quarantined@[i as int]@));
            assert(held_views(r@) =~= self.entries().take(i + 1));
            i = i + 1;
        }
        assert(self.entries().take(self.quarantined@.len() as int) =~= self.entries());
        r
    }

    /// Release, at the given instant, the apps whose release time has come.
    /// Returns their ids, in quarantine order.
    pub fn process_expirations_at(&mut self, now: Timestamp) -> (r: Vec<String>)
        requires
            old(self).wf(),
        ensures
            final(self).wf(),
            texts(r@) == old(self).entries().filter(due(now)).map_values(app_key()),
            final(self).entries() == old(self).entries().filter(not_due(now)),
            final(self).log() == old(self).log() + old(self).entries().filter(due(now)).map_values(
                expiry_record(now),
            ),
    {
        let ghost s = self.entries();
        let ghost h = self.log();
        let mut kept: Vec<QuarantinedApp> = Vec::new();
        let mut released: Vec<String> = Vec::new();
        let mut all: Vec<QuarantinedApp> = Vec::new();
        std::mem::swap(&mut all, &mut self.quarantined);
        assert(all@.map_values(|q: QuarantinedApp| q@) == s);
        proof {
            lemma_filter_take_zero(s, due(now));
            lemma_filter_take_zero(s, not_due(now));
            assert(texts(released@) =~= Seq::<Seq<char>>::empty());
            assert(kept@.map_values(|q: QuarantinedApp| q@) =~= Seq::<QuarantinedView>::empty());
            assert(self.log() =~= h + Seq::<RecordView>::empty());
        }
        let mut i: usize = 0;
        while i < all.len()
            invariant
                i <= all@.len(),
                s == all@.map_values(|q: QuarantinedApp| q@),
                texts(released@) == s.take(i as int).filter(due(now)).map_values(app_key()),
                kept@.map_values(|q: QuarantinedApp| q@) == s.take(i as int).filter(not_due(now)),
                self.log() == h + s.take(i as int).filter(due(now)).map_values(expiry_record(now)),
            decreases all@.len() - i,
        {
            let q = &all[i];
            let ghost t = s.take(i as int);
            proof {
                assert(s.take(i + 1) =~= t.push(q@));
                t.lemma_filter_push(q@, not_due(now));
                lemma_filter_map_push(t, q@, due(now), app_key());
                lemma_filter_map_push(t, q@, due(now), expiry_record(now));
            }
            let is_due = match q.release_after {
                Some(at) => at <= now,
                None => false,
            };
            if is_due {
                let ghost before = texts(released@);
                released.push(q.app_id.clone());
                assert(texts(released@) =~= before.push(q@.app_id));
                let ghost lb = self.log();
                self.history.push(
                    QuarantineRecord {
                        app_id: q.app_id.clone(),
                        action: QuarantineAction::Expired,
                        timestamp: now,
                        reason: q.reason.clone(),
                    },
                );
                assert(self.log() =~= lb.push(expiry_record(now)(q@)));
            } else {
                let ghost before = kept@.map_values(|q: QuarantinedApp| q@);
                let c = QuarantinedApp {
                    app_id: q.app_id.clone(),
                    reason: q.reason.clone(),
                    quarantined_at: q.quarantined_at,
                    release_after: q.release_after,
                    original_permissions: copy_strings(&q.original_permissions),
                    network_disabled: q.network_disabled,
                    auto_quarantine: q.auto_quarantine,
                };
                kept.push(c);
                assert(kept@.map_values(|q: QuarantinedApp| q@) =~= before.push(q@));
            }
            i = i + 1;
        }
        assert(s.take(all@.len() as int) =~= s);
        self.quarantined = kept;
        proof {
            lemma_filter_distinct_by(s, app_key(), not_due(now));
        }
        released
    }

    /// Release the apps whose release time has come. Returns their ids.
    pub fn process_expirations(&mut self) -> (r: Vec<String>)
        requires
            old(self).wf(),
        ensures
            final(self).wf(),
            exists|t: Timestamp|
                texts(r@) == old(self).entries().filter(#[trigger] due(t)).map_values(app_key())
                    && final(self).entries() == old(self).entries().filter(not_due(t)) && final(self).log()
                    == old(self).log() + old(self).entries().filter(due(t)).map_values(expiry_record(t)),
    {
        let now = now_millis();
        let r = self.process_expirations_at(now);
        assert(texts(r@) == old(self).entries().filter(due(now)).map_values(app_key()));
        r
    }

    /// The history of one app, oldest first.
    pub fn history_for(&self, app_id: &str) -> (r: Vec<&QuarantineRecord>)
        ensures
            record_views(r@) == self.log().filter(record_of(app_id@)),
    {
        let ghost s = self.log();
        let ghost p = record_of(app_id@);
        let mut r: Vec<&QuarantineRecord> = Vec::new();
        let mut i: usize = 0;
        proof {
            lemma_filter_take_zero(s, p);
            assert(record_views(r@) =~= Seq::<RecordView>::empty());
        }
        while i < self.history.len()
            invariant
                i <= self.history@.len(),
                s == self.log(),
                p == record_of(app_id@),
                record_views(r@) == s.take(i as int).filter(p),
            decreases self.history@.len() - i,
        {
            let x = &self.history[i];
            proof {
                assert(s.take(i + 1) =~= s.take(i as int).push(x@));
                s.take(i as int).lemma_filter_push(x@, p);
            }
            if str_eq(x.app_id.as_str(), app_id) {
                let ghost before = record_views(r@);
                r.push(x);
                assert(record_views(r@) =~= before.push(x@));
            }
            i = i + 1;
        }
        assert(s.take(self.history@.len() as int) =~= s);
        r
    }

    pub fn quarantine_count(&self) -> (r: usize)
        ensures
            r == self.entries().len(),
    {
        self.quarantined.len()
    }

    pub fn history_count(&self) -> (r: usize)
        ensures
            r == self.log().len(),
    {
        self.history.len()
    }
}

fn copy_strings(v: &Vec<String>) -> (r: Vec<String>)
    ensures
        texts(r@) == texts(v@),
{
    let mut r: Vec<String> = Vec::new();
    let mut i: usize = 0;
    while i < v.len()
        invariant
            i <= v@.len(),
            texts(r@) == texts(v@).take(i as int),
        decreases v@.len() - i,
    {
        let ghost before = texts(r@);
        r.push(copy_string(&v[i]));
        assert(texts(r@) =~= before.push(v@[i as int]@));
        assert(texts(r@) =~= texts(v@).take(i + 1));
        i = i + 1;
    }
    assert(texts(v@).take(v@.len() as int) =~= texts(v@));
    r
}

impl Default for QuarantineManager {
    fn default() -> (r: Self)
        ensures
            r.wf(),
            r.entries() == Seq::<QuarantinedView>::empty(),
            r.log() == Seq::<RecordView>::empty(),
    {
        Self::new()
    }
}

} // verus!
