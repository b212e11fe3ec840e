//! App update tracker — monitor application version changes.

use vstd::prelude::*;
use crate::clock::{Timestamp, now_millis, MILLIS_PER_DAY, MILLIS_PER_SECOND};
use crate::keyed::{first_index, lemma_first_index, lemma_filter_take_zero, put_first, lemma_put_first_found};
use crate::tally::{first_keys, lemma_first_keys, is_count_tally, all_ones, count_add};
use crate::text::{str_eq, texts};

verus! {

/// An application version change.
#[derive(Debug, Clone)]
pub struct UpdateEvent {
    pub app_id: String,
    pub old_version: String,
    pub new_version: String,
    pub timestamp: Timestamp,
    pub update_source: UpdateSource,
    pub security_update: bool,
}

#[derive(Debug, Clone, Copy, PartialEq, Eq, Structural)]
pub enum UpdateSource {
    OfficialRepo,
    DirectDownload,
    PackageManager,
    Unknown,
}

/// The name of an update source, as its `Debug` form writes it.
pub open spec fn update_source_name(s: UpdateSource) -> Seq<char> {
    match s {
        UpdateSource::OfficialRepo => "OfficialRepo"@,
        UpdateSource::DirectDownload => "DirectDownload"@,
        UpdateSource::PackageManager => "PackageManager"@,
        UpdateSource::Unknown => "Unknown"@,
    }
}

impl UpdateSource {
    /// The name of the source.
    pub fn name(&self) -> (r: &'static str)
        ensures
            r@ == update_source_name(*self),
    {
        match self {
            UpdateSource::OfficialRepo => "OfficialRepo",
            UpdateSource::DirectDownload => "DirectDownload",
            UpdateSource::PackageManager => "PackageManager",
            UpdateSource::Unknown => "Unknown",
        }
    }
}

/// An update event as plain data.
pub struct UpdateView {
    pub app_id: Seq<char>,
    pub old_version: Seq<char>,
    pub new_version: Seq<char>,
    pub timestamp: Timestamp,
    pub update_source: UpdateSource,
    pub security_update: bool,
}

impl View for UpdateEvent {
    type V = UpdateView;

    open spec fn view(&self) -> UpdateView {
        UpdateView {
            app_id: self.app_id@,
            old_version: self.old_version@,
            new_version: self.new_version@,
            timestamp: self.timestamp,
            update_source: self.update_source,
            security_update: self.security_update,
        }
    }
}

/// The views of a list of event references.
pub open spec fn update_views(s: Seq<&UpdateEvent>) -> Seq<UpdateView> {
    s.map_values(|e: &UpdateEvent| e@)
}

/// The version entry of `app`.
pub open spec fn version_of(app: Seq<char>) -> spec_fn((Seq<char>, Seq<char>)) -> bool {
    |e: (Seq<char>, Seq<char>)| e.0 == app
}

/// The versions after `app` moves to `version`.
pub open spec fn with_version(
    s: Seq<(Seq<char>, Seq<char>)>,
    app: Seq<char>,
    version: Seq<char>,
) -> Seq<(Seq<char>, Seq<char>)> {
    let k = first_index(s, version_of(app));
    if k < 0 {
        s.push((app, version))
    } else {
        s.update(k, (app, version))
    }
}

/// An update of `app`.
pub open spec fn of_app(app: Seq<char>) -> spec_fn(UpdateView) -> bool {
    |e: UpdateView| e.app_id == app
}

/// An update later than `max_age` seconds before `now`.
pub open spec fn newer_than(max_age: i64, now: Timestamp) -> spec_fn(UpdateView) -> bool {
    |e: UpdateView| e.timestamp > now - max_age * MILLIS_PER_SECOND
}

/// A security update.
pub open spec fn is_security() -> spec_fn(UpdateView) -> bool {
    |e: UpdateView| e.security_update
}

/// One `(application, time)` pair per update.
pub open spec fn app_times(s: Seq<UpdateView>) -> Seq<(Seq<char>, int)> {
    s.map_values(|e: UpdateView| (e.app_id, e.timestamp as int))
}

/// One `(source name, 1)` pair per update, for counting per source.
pub open spec fn source_pairs(s: Seq<UpdateView>) -> Seq<(Seq<char>, int)> {
    s.map_values(|e: UpdateView| (update_source_name(e.update_source), 1int))
}

/// The time of the latest update of `app` in `s`, if any.
pub open spec fn latest_update(s: Seq<UpdateView>, app: Seq<char>) -> Option<Timestamp>
    decreases s.len(),
{
    if s.len() == 0 {
        None
    } else {
        let l = latest_update(s.drop_last(), app);
        let e = s.last();
        if e.app_id == app {
            match l {
                Some(t) => Some(if e.timestamp > t { e.timestamp } else { t }),
                None => Some(e.timestamp),
            }
        } else {
            l
        }
    }
}

/// An application whose latest update is older than `days` days before
/// `now`.
pub open spec fn outdated_in(s: Seq<UpdateView>, days: i64, now: Timestamp) -> spec_fn(Seq<char>) -> bool {
    |app: Seq<char>|
        match latest_update(s, app) {
            Some(t) => t < now - days * MILLIS_PER_DAY,
            None => false,
        }
}

/// The applications whose latest update is older than `days` days before
/// `now`, in order of their first update.
pub open spec fn outdated(s: Seq<UpdateView>, days: i64, now: Timestamp) -> Seq<Seq<char>> {
    first_keys(app_times(s)).filter(outdated_in(s, days, now))
}

/// An application has a latest update exactly when it has an update.
pub proof fn lemma_latest_update(s: Seq<UpdateView>, app: Seq<char>)
    ensures
        latest_update(s, app) is Some <==> exists|j: int| 0 <= j < s.len() && (#[trigger] s[j]).app_id == app,
    decreases s.len(),
{
    if s.len() > 0 {
        lemma_latest_update(s.drop_last(), app);
        if exists|j: int| 0 <= j < s.len() && (#[trigger] s[j]).app_id == app {
            let j = choose|j: int| 0 <= j < s.len() && (#[trigger] s[j]).app_id == app;
            if j < s.len() - 1 {
                assert(s.drop_last()[j] == s[j]);
            }
        }
        if exists|j: int| 0 <= j < s.drop_last().len() && (#[trigger] s.drop_last()[j]).app_id == app {
            let j = choose|j: int| 0 <= j < s.drop_last().len() && (#[trigger] s.drop_last()[j]).app_id == app;
            assert(s[j] == s.drop_last()[j]);
        }
    }
}

/// After an update is recorded, the application's current version is the
/// update's new version.
pub proof fn lemma_update_then_current(s: Seq<(Seq<char>, Seq<char>)>, app: Seq<char>, version: Seq<char>)
    ensures
        first_index(with_version(s, app, version), version_of(app)) >= 0,
        with_version(s, app, version)[first_index(with_version(s, app, version), version_of(app))].1 == version,
{
    assert(with_version(s, app, version) == put_first(s, version_of(app), (app, version)));
    lemma_put_first_found(s, version_of(app), (app, version));
}

/// App update tracker.
pub struct UpdateTracker {
    events: Vec<UpdateEvent>,
    current_versions: Vec<(String, String)>,
}

impl UpdateTracker {
    /// The recorded updates, oldest first.
    pub closed spec fn updates(&self) -> Seq<UpdateView> {
        self.events@.map_values(|e: UpdateEvent| e@)
    }

    /// Each application with its current version, in the order first updated.
    pub closed spec fn versions(&self) -> Seq<(Seq<char>, Seq<char>)> {
        self.current_versions@.map_values(|e: (String, String)| (e.0@, e.1@))
    }

    pub fn new() -> (r: Self)
        ensures
            r.updates() == Seq::<UpdateView>::empty(),
            r.versions() == Seq::<(Seq<char>, Seq<char>)>::empty(),
    {
        let r = Self { events: Vec::new(), current_versions: Vec::new() };
        assert(r.updates() =~= Seq::<UpdateView>::empty());
        assert(r.versions() =~= Seq::<(Seq<char>, Seq<char>)>::empty());
        r
    }

    fn version_index(&self, app_id: &str) -> (r: Option<usize>)
        ensures
            first_index(self.versions(), version_of(app_id@)) == match r {
                Some(k) => k as int,
                None => -1,
            },
            match r {
                Some(k) => k < self.versions().len(),
                None => true,
            },
    {
        let ghost s = self.versions();
        let mut k: usize = 0;
        while k < self.current_versions.len()
            invariant
                k <= self.current_versions@.len(),
                s == self.versions(),
                forall|j: int| 0 <= j < k ==> !version_of(app_id@)(#[trigger] s[j]),
            decreases self.current_versions@.len() - k,
        {
            if str_eq(self.current_versions[k].0.as_str(), app_id) {
                proof {
                    lemma_first_index(s, version_of(app_id@), k as int);
                }
                return Some(k);
            }
            k = k + 1;
        }
        proof {
            lemma_first_index(s, version_of(app_id@), k as int);
        }
        None
    }

    /// Record an update: the application's current version becomes the new
    /// one.
    pub fn record_update(&mut self, event: UpdateEvent)
        ensures
            final(self).updates() == old(self).updates().push(event@),
            final(self).versions() == with_version(old(self).versions(), event.app_id@, event.new_version@),
    {
        let ghost s = self.versions();
        let ghost ev = event@;
        let entry = (event.app_id.clone(), event.new_version.clone());
        match self.version_index(event.app_id.as_str()) {
            Some(k) => {
                self.current_versions.set(k, entry);
                assert(self.versions() =~= s.update(k as int, (ev.app_id, ev.new_version)));
            },
            None => {
                self.current_versions.push(entry);
                assert(self.versions() =~= s.push((ev.app_id, ev.new_version)));
            },
        }
        let ghost u = self.updates();
        self.events.push(event);
        assert(self.updates() =~= u.push(ev));
    }

    /// The current version of an application.
    pub fn current_version(&self, app_id: &str) -> (r: Option<&String>)
        ensures
            match r {
                Some(v) => {
                    let k = first_index(self.versions(), version_of(app_id@));
                    k >= 0 && v@ == self.versions()[k].1
                },
                None => first_index(self.versions(), version_of(app_id@)) < 0,
            },
    {
        match self.version_index(app_id) {
            Some(k) => Some(&self.current_versions[k].1),
            None => None,
        }
    }

    fn select(&self, kind: u8, app_id: &str, max_age_secs: i64, now: Timestamp) -> (r: Vec<&UpdateEvent>)
        requires
            kind < 3,
        ensures
            update_views(r@) == self.updates().filter(
                if kind == 0 {
                    of_app(app_id@)
                } else if kind == 1 {
                    newer_than(max_age_secs, now)
                } else {
                    is_security()
                },
            ),
    {
        let ghost s = self.updates();
        let ghost p = if kind == 0 {
            of_app(app_id@)
        } else if kind == 1 {
            newer_than(max_age_secs, now)
        } else {
            is_security()
        };
        let cutoff: i128 = (now as i128) - (max_age_secs as i128) * 1000i128;
        let mut r: Vec<&UpdateEvent> = Vec::new();
        let mut i: usize = 0;
        proof {
            lemma_filter_take_zero(s, p);
            assert(update_views(r@) =~= Seq::<UpdateView>::empty());
        }
        while i < self.events.len()
            invariant
                i <= self.events@.len(),
                kind < 3,
                s == self.updates(),
                cutoff == now - max_age_secs * MILLIS_PER_SECOND,
                p == (if kind == 0 {
                    of_app(app_id@)
                } else if kind == 1 {
                    newer_than(max_age_secs, now)
                } else {
                    is_security()
                }),
                update_views(r@) == s.take(i as int).filter(p),
            decreases self.events@.len() - i,
        {
            let e = &self.events[i];
            proof {
                assert(s.take(i + 1) =~= s.take(i as int).push(e@));
                s.take(i as int).lemma_filter_push(e@, p);
            }
            let keep = if kind == 0 {
                str_eq(e.app_id.as_str(), app_id)
            } else if kind == 1 {
                (e.timestamp as i128) > cutoff
            } else {
                e.security_update
            };
            if keep {
                let ghost before = update_views(r@);
                r.push(e);
                assert(update_views(r@) =~= before.push(e@));
            }
            i = i + 1;
        }
        assert(s.take(self.events@.len() as int) =~= s);
        r
    }

    /// All updates of an application, oldest first.
    pub fn history_for(&self, app_id: &str) -> (r: Vec<&UpdateEvent>)
        ensures
            update_views(r@) == self.updates().filter(of_app(app_id@)),
    {
        self.select(0, app_id, 0, 0)
    }

    /// Updates later than `max_age_secs` seconds before the given instant.
    pub fn recent_at(&self, max_age_secs: i64, now: Timestamp) -> (r: Vec<&UpdateEvent>)
        ensures
            update_views(r@) == self.updates().filter(newer_than(max_age_secs, now)),
    {
        self.select(1, "", max_age_secs, now)
    }

    /// Updates within the last `max_age_secs` seconds.
    pub fn recent(&self, max_age_secs: i64) -> (r: Vec<&UpdateEvent>)
        ensures
            exists|t: Timestamp| update_views(r@) == self.updates().filter(#[trigger] newer_than(max_age_secs, t)),
    {
        let now = now_millis();
        let r = self.recent_at(max_age_secs, now);
        assert(update_views(r@) == self.updates().filter(newer_than(max_age_secs, now)));
        r
    }

    /// Security updates, oldest first.
    pub fn security_updates(&self) -> (r: Vec<&UpdateEvent>)
        ensures
            update_views(r@) == self.updates().filter(is_security()),
    {
        self.select(2, "", 0, 0)
    }

    /// Applications whose latest update is older than `max_age_days` days
    /// before the given instant, in order of their first update.
    pub fn outdated_apps_at(&self, max_age_days: i64, now: Timestamp) -> (r: Vec<String>)
        ensures
            texts(r@) == outdated(self.updates(), max_age_days, now),
    {
        let ghost s = self.updates();
        let mut latest: Vec<(String, Timestamp)> = Vec::new();
        let mut i: usize = 0;
        assert(app_times(s.take(0)) =~= Seq::<(Seq<char>, int)>::empty());
        while i < self.events.len()
            invariant
                i <= self.events@.len(),
                s == self.updates(),
                latest@.len() == first_keys(app_times(s.take(i as int))).len(),
                forall|j: int|
                    0 <= j < latest@.len() ==> (#[trigger] latest@[j]).0@ == first_keys(
                        app_times(s.take(i as int)),
                    )[j] && latest_update(s.take(i as int), latest@[j].0@) == Some(latest@[j].1),
            decreases self.events@.len() - i,
        {
            let e = &self.events[i];
            let ghost t = s.take(i as int);
            let ghost ks = first_keys(app_times(t));
            proof {
                assert(s.take(i + 1) =~= t.push(e@));
                assert(app_times(s.take(i + 1)) =~= app_times(t).push((e@.app_id, e@.timestamp as int)));
                assert(app_times(s.take(i + 1)).drop_last() =~= app_times(t));
                assert(s.take(i + 1).drop_last() =~= t);
                lemma_first_keys(app_times(t));
            }
            let mut k: usize = 0;
            while k < latest.len() && !str_eq(latest[k].0.as_str(), e.app_id.as_str())
                invariant
                    k <= latest@.len(),
                    forall|j: int| 0 <= j < k ==> (#[trigger] latest@[j]).0@ != e@.app_id,
                decreases latest@.len() - k,
            {
                k = k + 1;
            }
            let ghost before = latest@;
            if k < latest.len() {
                let prev = latest[k].1;
                let newest = if e.timestamp > prev {
                    e.timestamp
                } else {
                    prev
                };
                latest.set(k, (e.app_id.clone(), newest));
                proof {
                    assert(ks.contains(e@.app_id)) by {
                        assert(ks[k as int] == e@.app_id);
                    }
                    assert(first_keys(app_times(s.take(i + 1))) == ks);
                    assert forall|j: int| 0 <= j < latest@.len() implies (#[trigger] latest@[j]).0@ == first_keys(
                        app_times(s.take(i + 1)),
                    )[j] && latest_update(s.take(i + 1), latest@[j].0@) == Some(latest@[j].1) by {
                        if j != k {
                            assert(latest@[j] == before[j]);
                            assert(ks[j] != ks[k as int]);
                        }
                    }
                }
            } else {
                latest.push((e.app_id.clone(), e.timestamp));
                proof {
                    assert forall|j: int| 0 <= j < app_times(t).len() implies (#[trigger] app_times(t)[j]).0
                        != e@.app_id by {
                        if app_times(t)[j].0 == e@.app_id {
                            assert(ks.contains(e@.app_id));
                            let m = choose|m: int| 0 <= m < ks.len() && ks[m] == e@.app_id;
                            assert(before[m].0@ == ks[m]);
                        }
                    }
                    assert(!ks.contains(e@.app_id));
                    assert(first_keys(app_times(s.take(i + 1))) == ks.push(e@.app_id));
                    assert forall|j: int| 0 <= j < t.len() implies (#[trigger] t[j]).app_id != e@.app_id by {
                        assert(app_times(t)[j].0 == t[j].app_id);
                    }
                    lemma_latest_update(t, e@.app_id);
                    assert forall|j: int| 0 <= j < latest@.len() implies (#[trigger] latest@[j]).0@ == first_keys(
                        app_times(s.take(i + 1)),
                    )[j] && latest_update(s.take(i + 1), latest@[j].0@) == Some(latest@[j].1) by {
                        if j < before.len() {
                            assert(latest@[j] == before[j]);
                            assert(ks[j] != e@.app_id) by {
                                assert(ks.contains(ks[j]));
                            }
                        }
                    }
                }
            }
            i = i + 1;
        }
        assert(s.take(self.events@.len() as int) =~= s);
        let ghost ks = first_keys(app_times(s));
        let ghost p = outdated_in(s, max_age_days, now);
        let cutoff: i128 = (now as i128) - (max_age_days as i128) * 86_400_000i128;
        let mut r: Vec<String> = Vec::new();
        let mut j: usize = 0;
        proof {
            lemma_filter_take_zero(ks, p);
            assert(texts(r@) =~= Seq::<Seq<char>>::empty());
        }
        while j < latest.len()
            invariant
                j <= latest@.len(),
                ks == first_keys(app_times(s)),
                latest@.len() == ks.len(),
                p == outdated_in(s, max_age_days, now),
                cutoff == now - max_age_days * MILLIS_PER_DAY,
                forall|m: int|
                    0 <= m < latest@.len() ==> (#[trigger] latest@[m]).0@ == ks[m] && latest_update(s, latest@[m].0@)
                        == Some(latest@[m].1),
                texts(r@) == ks.take(j as int).filter(p),
            decreases latest@.len() - j,
        {
            proof {
                assert(ks.take(j + 1) =~= ks.take(j as int).push(ks[j as int]));
                ks.take(j as int).lemma_filter_push(ks[j as int], p);
                assert(latest@[j as int].0@ == ks[j as int]);
            }
            if (latest[j].1 as i128) < cutoff {
                let ghost before = texts(r@);
                r.push(latest[j].0.clone());
                assert(texts(r@) =~= before.push(ks[j as int]));
            }
            j = j + 1;
        }
        assert(ks.take(latest@.len() as int) =~= ks);
        r
    }

    /// Applications whose latest update is older than `max_age_days` days.
    pub fn outdated_apps(&self, max_age_days: i64) -> (r: Vec<String>)
        ensures
            exists|t: Timestamp| texts(r@) == #[trigger] outdated(self.updates(), max_age_days, t),
    {
        let now = now_millis();
        let r = self.outdated_apps_at(max_age_days, now);
        assert(texts(r@) == outdated(self.updates(), max_age_days, now));
        r
    }

    /// The number of updates from each source, by source name, in order of
    /// first occurrence.
    pub fn source_counts(&self) -> (r: Vec<(String, usize)>)
        ensures
            is_count_tally(source_pairs(self.updates()), r@),
    {
        let ghost p = source_pairs(self.updates());
        let mut t: Vec<(String, usize)> = Vec::new();
        let mut i: usize = 0;
        assert(p.take(0) =~= Seq::<(Seq<char>, int)>::empty());
        while i < self.events.len()
            invariant
                i <= self.events@.len(),
                p == source_pairs(self.updates()),
                is_count_tally(p.take(i as int), t@),
            decreases self.events@.len() - i,
        {
            let name = self.events[i].update_source.name();
            proof {
                assert(p.take(i + 1) =~= p.take(i as int).push((name@, 1)));
                assert(all_ones(p.take(i as int)));
            }
            count_add(&mut t, name, Ghost(p.take(i as int)));
            i = i + 1;
        }
        assert(p.take(self.events@.len() as int) =~= p);
        t
    }

    pub fn event_count(&self) -> (r: usize)
        ensures
            r == self.updates().len(),
    {
        self.events.len()
    }

    pub fn tracked_apps(&self) -> (r: usize)
        ensures
            r == self.versions().len(),
    {
        self.current_versions.len()
    }
}

impl Default for UpdateTracker {
    fn default() -> (r: Self)
        ensures
            r.updates() == Seq::<UpdateView>::empty(),
            r.versions() == Seq::<(Seq<char>, Seq<char>)>::empty(),
    {
        Self::new()
    }
}

} // verus!
