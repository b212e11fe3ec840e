//! Uninstall tracker — monitor application removal and flag unexpected losses.

use vstd::prelude::*;
use crate::bounded::{keep_last, push_bounded};
use crate::clock::{Timestamp, now_millis};
use crate::keyed::lemma_filter_take_zero;
use crate::tally::{is_count_tally, count_add, all_ones};
use crate::text::{str_eq, copy_string, concat2, u64_to_decimal, decimal, texts};

verus! {

/// An uninstall event.
#[derive(Debug, Clone)]
pub struct UninstallEvent {
    pub app_id: String,
    pub app_name: String,
    pub version: String,
    pub uninstalled_at: Timestamp,
    pub uninstalled_by: UninstallSource,
    pub user_initiated: bool,
    pub cleanup_level: CleanupLevel,
}

#[derive(Debug, Clone, Copy, PartialEq, Eq, Hash, Structural)]
pub enum UninstallSource {
    PackageManager,
    AppStore,
    Manual,
    Scripted,
    SystemUpdate,
    Unknown,
}

#[derive(Debug, Clone, Copy, PartialEq, Eq, Structural)]
pub enum CleanupLevel {
    /// Only binaries removed.
    Partial,
    /// Binaries and config removed.
    Standard,
    /// Everything including user data.
    Full,
}

/// The name of an uninstall source.
pub open spec fn uninstall_source_name(s: UninstallSource) -> Seq<char> {
    match s {
        UninstallSource::PackageManager => "PackageManager"@,
        UninstallSource::AppStore => "AppStore"@,
        UninstallSource::Manual => "Manual"@,
        UninstallSource::Scripted => "Scripted"@,
        UninstallSource::SystemUpdate => "SystemUpdate"@,
        UninstallSource::Unknown => "Unknown"@,
    }
}

impl UninstallSource {
    /// The name of the source.
    pub fn name(&self) -> (r: &'static str)
        ensures
            r@ == uninstall_source_name(*self),
    {
        match self {
            UninstallSource::PackageManager => "PackageManager",
            UninstallSource::AppStore => "AppStore",
            UninstallSource::Manual => "Manual",
            UninstallSource::Scripted => "Scripted",
            UninstallSource::SystemUpdate => "SystemUpdate",
            UninstallSource::Unknown => "Unknown",
        }
    }
}

/// Flag raised by the tracker.
#[derive(Debug, Clone)]
pub struct UninstallFlag {
    pub app_id: String,
    pub flag_type: FlagType,
    /// Confidence in thousandths.
    pub confidence_permille: u16,
    pub raised_at: Timestamp,
    pub detail: String,
}

#[derive(Debug, Clone, Copy, PartialEq, Eq, Structural)]
pub enum FlagType {
    UnexpectedRemoval,
    CriticalAppRemoved,
    RapidBatchUninstall,
    NonUserInitiated,
    IncompleteCleanup,
}

/// An uninstall flag as plain data.
pub struct UninstallFlagView {
    pub app_id: Seq<char>,
    pub flag_type: FlagType,
    pub confidence_permille: u16,
    pub raised_at: Timestamp,
    pub detail: Seq<char>,
}

impl View for UninstallFlag {
    type V = UninstallFlagView;

    open spec fn view(&self) -> UninstallFlagView {
        UninstallFlagView {
            app_id: self.app_id@,
            flag_type: self.flag_type,
            confidence_permille: self.confidence_permille,
            raised_at: self.raised_at,
            detail: self.detail@,
        }
    }
}

/// The views of a list of flags.
pub open spec fn uflag_views(s: Seq<UninstallFlag>) -> Seq<UninstallFlagView> {
    s.map_values(|f: UninstallFlag| f@)
}

/// One flag when `c` holds, none otherwise.
pub open spec fn uflag_if(c: bool, t: FlagType, app_id: Seq<char>, confidence: u16, detail: Seq<char>, at: Timestamp) -> Seq<
    UninstallFlagView,
> {
    if c {
        seq![UninstallFlagView { app_id, flag_type: t, confidence_permille: confidence, raised_at: at, detail }]
    } else {
        Seq::empty()
    }
}

/// An uninstall within the minute before `now`.
pub open spec fn within_minute(now: Timestamp) -> spec_fn(UninstallEvent) -> bool {
    |e: UninstallEvent| e.uninstalled_at > now - 60_000
}

/// The number of recorded uninstalls within the minute before `now`.
pub open spec fn recent_uninstalls(events: Seq<UninstallEvent>, now: Timestamp) -> nat {
    events.filter(within_minute(now)).len()
}

/// The flags an uninstall raises: a protected application, removal not
/// started by the user, three or more uninstalls within the minute before,
/// and partial cleanup.
pub open spec fn uninstall_flags(
    e: UninstallEvent,
    protected: Seq<Seq<char>>,
    events: Seq<UninstallEvent>,
    now: Timestamp,
) -> Seq<UninstallFlagView> {
    uflag_if(
        protected.contains(e.app_id@),
        FlagType::CriticalAppRemoved,
        e.app_id@,
        950,
        "protected app "@ + e.app_name@ + " was removed"@,
        now,
    ) + uflag_if(
        !e.user_initiated,
        FlagType::NonUserInitiated,
        e.app_id@,
        750,
        "uninstall not user-initiated, source "@ + uninstall_source_name(e.uninstalled_by),
        now,
    ) + uflag_if(
        recent_uninstalls(events, now) >= 3,
        FlagType::RapidBatchUninstall,
        e.app_id@,
        800,
        decimal(recent_uninstalls(events, now) + 1) + "+ uninstalls in 60s"@,
        now,
    ) + uflag_if(
        e.cleanup_level == CleanupLevel::Partial,
        FlagType::IncompleteCleanup,
        e.app_id@,
        600,
        "only partial cleanup for "@ + e.app_name@,
        now,
    )
}

/// The `(source name, 1)` pairs of an uninstall log.
pub open spec fn source_pairs(s: Seq<UninstallEvent>) -> Seq<(Seq<char>, int)> {
    s.map_values(|e: UninstallEvent| (uninstall_source_name(e.uninstalled_by), 1int))
}

/// An uninstall after `cutoff`.
pub open spec fn uninstalled_after(cutoff: int) -> spec_fn(UninstallEvent) -> bool {
    |e: UninstallEvent| e.uninstalled_at > cutoff
}

/// Uninstall tracker.
pub struct UninstallTracker {
    events: Vec<UninstallEvent>,
    flags: Vec<UninstallFlag>,
    protected_apps: Vec<String>,
    history_limit: usize,
}

impl UninstallTracker {
    /// The retained uninstalls, oldest first.
    pub closed spec fn events_log(&self) -> Seq<UninstallEvent> {
        self.events@
    }

    /// Every flag raised, oldest first.
    pub closed spec fn flag_log(&self) -> Seq<UninstallFlagView> {
        uflag_views(self.flags@)
    }

    /// The protected applications, each once.
    pub closed spec fn protected(&self) -> Seq<Seq<char>> {
        texts(self.protected_apps@)
    }

    /// The number of uninstalls retained.
    pub closed spec fn limit(&self) -> nat {
        self.history_limit as nat
    }

    /// The log stays within its limit and protected names are distinct.
    pub open spec fn wf(&self) -> bool {
        &&& self.events_log().len() <= self.limit()
        &&& self.limit() < u64::MAX
        &&& self.protected().no_duplicates()
    }

    pub fn new() -> (r: Self)
        ensures
            r.wf(),
            r.events_log() == Seq::<UninstallEvent>::empty(),
            r.flag_log() == Seq::<UninstallFlagView>::empty(),
            r.protected() == Seq::<Seq<char>>::empty(),
            r.limit() == 5000,
    {
        let r = Self { events: Vec::new(), flags: Vec::new(), protected_apps: Vec::new(), history_limit: 5000 };
        assert(r.flag_log() =~= Seq::<UninstallFlagView>::empty());
        assert(r.protected() =~= Seq::<Seq<char>>::empty());
        r
    }

    fn protected_index(&self, app_id: &str) -> (r: Option<usize>)
        ensures
            match r {
                Some(i) => i < self.protected().len() && self.protected()[i as int] == app_id@,
                None => !self.protected().contains(app_id@),
            },
    {
        let mut i: usize = 0;
        while i < self.protected_apps.len()
            invariant
                i <= self.protected_apps@.len(),
                forall|j: int| 0 <= j < i ==> (#[trigger] self.protected_apps@[j])@ != app_id@,
            decreases self.protected_apps@.len() - i,
        {
            if str_eq(self.protected_apps[i].as_str(), app_id) {
                return Some(i);
            }
            i = i + 1;
        }
        assert forall|j: int| 0 <= j < self.protected().len() implies self.protected()[j] != app_id@ by {
            assert(self.protected()[j] == self.protected_apps@[j]@);
        }
        None
    }

    /// Mark an app as protected: its removal is flagged as critical.
    pub fn protect(&mut self, app_id: &str)
        requires
            old(self).wf(),
        ensures
            final(self).wf(),
            final(self).protected().to_set() == old(self).protected().to_set().insert(app_id@),
            final(self).events_log() == old(self).events_log(),
            final(self).flag_log() == old(self).flag_log(),
            final(self).limit() == old(self).limit(),
    {
        match self.protected_index(app_id) {
            Some(i) => {
                proof {
                    assert(old(self).protected().to_set() =~= old(self).protected().to_set().insert(app_id@)) by {
                        assert(old(self).protected().contains(app_id@));
                    }
                }
            },
            None => {
                self.protected_apps.push(String::from_str(app_id));
                proof {
                    let before = old(self).protected();
                    assert(self.protected() =~= before.push(app_id@));
                    assert forall|x: Seq<char>| #[trigger] self.protected().to_set().contains(x) <==> before.to_set().insert(app_id@).contains(x) by {
                        if self.protected().contains(x) {
                            let k = choose|k: int| 0 <= k < self.protected().len() && self.protected()[k] == x;
                            if k < before.len() {
                                assert(before[k] == x);
                                assert(before.contains(x));
                            }
                        }
                        if before.contains(x) {
                            let k = choose|k: int| 0 <= k < before.len() && before[k] == x;
                            assert(self.protected()[k] == x);
                        }
                        if x == app_id@ {
                            assert(self.protected()[before.len() as int] == x);
                        }
                    }
                    assert(self.protected().to_set() =~= before.to_set().insert(app_id@));
                    assert forall|a: int, b: int| 0 <= a < self.protected().len() && 0 <= b < self.protected().len() && a != b
                        implies self.protected()[a] != self.protected()[b] by {
                        if a < before.len() && b < before.len() {
                        } else if a < before.len() {
                            assert(before.contains(before[a]));
                        } else if b < before.len() {
                            assert(before.contains(before[b]));
                        }
                    }
                }
            },
        }
    }

    /// Remove protection.
    pub fn unprotect(&mut self, app_id: &str)
        requires
            old(self).wf(),
        ensures
            final(self).wf(),
            final(self).protected().to_set() == old(self).protected().to_set().remove(app_id@),
            final(self).events_log() == old(self).events_log(),
            final(self).flag_log() == old(self).flag_log(),
            final(self).limit() == old(self).limit(),
    {
        match self.protected_index(app_id) {
            Some(i) => {
                let ghost before = self.protected();
                self.protected_apps.remove(i);
                proof {
                    assert(self.protected() =~= before.remove(i as int));
                    assert forall|a: int, b: int| 0 <= a < self.protected().len() && 0 <= b < self.protected().len() && a != b
                        implies self.protected()[a] != self.protected()[b] by {
                        let a2 = if a < i { a } else { a + 1 };
                        let b2 = if b < i { b } else { b + 1 };
                        assert(self.protected()[a] == before[a2] && self.protected()[b] == before[b2]);
                    }
                    assert forall|x: Seq<char>| #[trigger] self.protected().to_set().contains(x) <==> old(self).protected().to_set().remove(app_id@).contains(x) by {
                        if self.protected().contains(x) {
                            let k = choose|k: int| 0 <= k < self.protected().len() && self.protected()[k] == x;
                            if k < i {
                                assert(before[k] == x);
                            } else {
                                assert(before[k + 1] == x);
                            }
                            assert(before.contains(x));
                        }
                        if before.contains(x) && x != app_id@ {
                            let k = choose|k: int| 0 <= k < before.len() && before[k] == x;
                            assert(k != i);
                            if k < i {
                                assert(self.protected()[k] == x);
                            } else {
                                assert(self.protected()[k - 1] == x);
                            }
                        }
                    }
                    assert(self.protected().to_set() =~= old(self).protected().to_set().remove(app_id@));
                }
            },
            None => {
                proof {
                    assert(old(self).protected().to_set() =~= old(self).protected().to_set().remove(app_id@));
                }
            },
        }
    }

    fn count_recent(&self, now: Timestamp) -> (r: usize)
        ensures
            r == recent_uninstalls(self.events_log(), now),
            r <= self.events_log().len(),
    {
        let ghost pred = within_minute(now);
        let mut n: usize = 0;
        let mut i: usize = 0;
        proof {
            lemma_filter_take_zero(self.events@, pred);
        }
        let cutoff: i128 = (now as i128) - 60_000;
        while i < self.events.len()
            invariant
                i <= self.events@.len(),
                pred == within_minute(now),
                cutoff == now - 60_000,
                n == self.events@.take(i as int).filter(pred).len(),
            decreases self.events@.len() - i,
        {
            proof {
                assert(self.events@.take(i + 1) =~= self.events@.take(i as int).push(self.events@[i as int]));
                self.events@.take(i as int).lemma_filter_push(self.events@[i as int], pred);
                self.events@.take(i as int).lemma_filter_len(pred);
            }
            if (self.events[i].uninstalled_at as i128) > cutoff {
                n = n + 1;
            }
            i = i + 1;
        }
        assert(self.events@.take(self.events@.len() as int) =~= self.events@);
        proof {
            self.events@.lemma_filter_len(pred);
        }
        n
    }

    /// Record an uninstall at the given instant and return the flags it
    /// raised.
    pub fn record_at(&mut self, event: UninstallEvent, now: Timestamp) -> (r: Vec<UninstallFlag>)
        requires
            old(self).wf(),
        ensures
            final(self).wf(),
            uflag_views(r@) == uninstall_flags(event, old(self).protected(), old(self).events_log(), now),
            final(self).flag_log() == old(self).flag_log() + uflag_views(r@),
            final(self).events_log() == keep_last(old(self).events_log().push(event), old(self).limit()),
            final(self).protected() == old(self).protected(),
            final(self).limit() == old(self).limit(),
    {
        let mut raised: Vec<UninstallFlag> = Vec::new();
        let ghost e = event;
        if self.protected_index(event.app_id.as_str()).is_some() {
            raised.push(UninstallFlag {
                app_id: copy_string(&event.app_id),
                flag_type: FlagType::CriticalAppRemoved,
                confidence_permille: 950,
                raised_at: now,
                detail: crate::text::concat3("protected app ", event.app_name.as_str(), " was removed"),
            });
        }
        let ghost r1 = uflag_views(raised@);
        assert(r1 =~= uflag_if(
            self.protected().contains(e.app_id@),
            FlagType::CriticalAppRemoved,
            e.app_id@,
            950,
            "protected app "@ + e.app_name@ + " was removed"@,
            now,
        ));
        if !event.user_initiated {
            raised.push(UninstallFlag {
                app_id: copy_string(&event.app_id),
                flag_type: FlagType::NonUserInitiated,
                confidence_permille: 750,
                raised_at: now,
                detail: concat2("uninstall not user-initiated, source ", event.uninstalled_by.name()),
            });
        }
        let ghost r2 = uflag_views(raised@);
        assert(r2 =~= r1 + uflag_if(
            !e.user_initiated,
            FlagType::NonUserInitiated,
            e.app_id@,
            750,
            "uninstall not user-initiated, source "@ + uninstall_source_name(e.uninstalled_by),
            now,
        ));
        let recent = self.count_recent(now);
        if recent >= 3 {
            let n = u64_to_decimal((recent as u64) + 1);
            raised.push(UninstallFlag {
                app_id: copy_string(&event.app_id),
                flag_type: FlagType::RapidBatchUninstall,
                confidence_permille: 800,
                raised_at: now,
                detail: concat2(n.as_str(), "+ uninstalls in 60s"),
            });
        }
        let ghost r3 = uflag_views(raised@);
        assert(r3 =~= r2 + uflag_if(
            recent_uninstalls(self.events@, now) >= 3,
            FlagType::RapidBatchUninstall,
            e.app_id@,
            800,
            decimal(recent_uninstalls(self.events@, now) + 1) + "+ uninstalls in 60s"@,
            now,
        ));
        if event.cleanup_level == CleanupLevel::Partial {
            raised.push(UninstallFlag {
                app_id: copy_string(&event.app_id),
                flag_type: FlagType::IncompleteCleanup,
                confidence_permille: 600,
                raised_at: now,
                detail: concat2("only partial cleanup for ", event.app_name.as_str()),
            });
        }
        assert(uflag_views(raised@) =~= r3 + uflag_if(
            e.cleanup_level == CleanupLevel::Partial,
            FlagType::IncompleteCleanup,
            e.app_id@,
            600,
            "only partial cleanup for "@ + e.app_name@,
            now,
        ));
        push_bounded(&mut self.events, event, self.history_limit);
        let mut i: usize = 0;
        let ghost start = uflag_views(self.flags@);
        while i < raised.len()
            invariant
                i <= raised@.len(),
                uflag_views(self.flags@) == start + uflag_views(raised@).take(i as int),
                self.events@ == keep_last(old(self).events@.push(e), old(self).history_limit as nat),
                self.events@.len() <= self.history_limit,
                self.history_limit == old(self).history_limit,
                self.history_limit < u64::MAX,
                self.protected_apps@ == old(self).protected_apps@,
                texts(self.protected_apps@).no_duplicates(),
            decreases raised@.len() - i,
        {
            let f = UninstallFlag {
                app_id: copy_string(&raised[i].app_id),
                flag_type: raised[i].flag_type,
                confidence_permille: raised[i].confidence_permille,
                raised_at: raised[i].raised_at,
                detail: copy_string(&raised[i].detail),
            };
            let ghost before = uflag_views(self.flags@);
            self.flags.push(f);
            assert(uflag_views(self.flags@) =~= before.push(raised@[i as int]@));
            assert(uflag_views(raised@).take(i + 1) =~= uflag_views(raised@).take(i as int).push(raised@[i as int]@));
            i = i + 1;
        }
        assert(uflag_views(raised@).take(raised@.len() as int) =~= uflag_views(raised@));
        raised
    }

    /// Record an uninstall now and return the flags it raised.
    pub fn record(&mut self, event: UninstallEvent) -> (r: Vec<UninstallFlag>)
        requires
            old(self).wf(),
        ensures
            final(self).wf(),
            exists|now: Timestamp|
                uflag_views(r@) == #[trigger] uninstall_flags(event, old(self).protected(), old(self).events_log(), now),
            final(self).flag_log() == old(self).flag_log() + uflag_views(r@),
            final(self).events_log() == keep_last(old(self).events_log().push(event), old(self).limit()),
            final(self).protected() == old(self).protected(),
            final(self).limit() == old(self).limit(),
    {
        let now = now_millis();
        self.record_at(event, now)
    }

    /// The retained uninstalls, oldest first.
    pub fn events(&self) -> (r: &[UninstallEvent])
        ensures
            r@ == self.events_log(),
    {
        self.events.as_slice()
    }

    /// Every flag raised, oldest first.
    pub fn flags(&self) -> (r: &[UninstallFlag])
        ensures
            uflag_views(r@) == self.flag_log(),
    {
        self.flags.as_slice()
    }

    /// Flags of a type, oldest first.
    pub fn flags_by_type(&self, t: &FlagType) -> (r: Vec<&UninstallFlag>)
        ensures
            uflag_views(r@.map_values(|f: &UninstallFlag| *f)) == self.flag_log().filter(
                |f: UninstallFlagView| f.flag_type == *t,
            ),
    {
        let ghost fv = uflag_views(self.flags@);
        let ghost pred = |f: UninstallFlagView| f.flag_type == *t;
        let mut r: Vec<&UninstallFlag> = Vec::new();
        let mut i: usize = 0;
        proof {
            lemma_filter_take_zero(fv, pred);
            assert(uflag_views(r@.map_values(|f: &UninstallFlag| *f)) =~= Seq::<UninstallFlagView>::empty());
        }
        while i < self.flags.len()
            invariant
                i <= self.flags@.len(),
                fv == uflag_views(self.flags@),
                pred == (|f: UninstallFlagView| f.flag_type == *t),
                uflag_views(r@.map_values(|f: &UninstallFlag| *f)) == fv.take(i as int).filter(pred),
            decreases self.flags@.len() - i,
        {
            proof {
                assert(fv.take(i + 1) =~= fv.take(i as int).push(self.flags@[i as int]@));
                fv.take(i as int).lemma_filter_push(self.flags@[i as int]@, pred);
            }
            let ghost rb = r@;
            if self.flags[i].flag_type == *t {
                r.push(&self.flags[i]);
                assert(uflag_views(r@.map_values(|f: &UninstallFlag| *f)) =~= uflag_views(
                    rb.map_values(|f: &UninstallFlag| *f),
                ).push(self.flags@[i as int]@));
            }
            i = i + 1;
        }
        assert(fv.take(self.flags@.len() as int) =~= fv);
        r
    }

    /// Uninstalls per source name, in order of first appearance.
    pub fn source_counts(&self) -> (r: Vec<(String, usize)>)
        ensures
            is_count_tally(source_pairs(self.events_log()), r@),
    {
        let ghost p = source_pairs(self.events@);
        let mut t: Vec<(String, usize)> = Vec::new();
        let mut i: usize = 0;
        assert(p.take(0) =~= Seq::<(Seq<char>, int)>::empty());
        while i < self.events.len()
            invariant
                i <= self.events@.len(),
                p == source_pairs(self.events@),
                is_count_tally(p.take(i as int), t@),
            decreases self.events@.len() - i,
        {
            proof {
                assert(p.take(i + 1) =~= p.take(i as int).push((uninstall_source_name(self.events@[i as int].uninstalled_by), 1)));
                assert(all_ones(p.take(i as int)));
            }
            count_add(&mut t, self.events[i].uninstalled_by.name(), Ghost(p.take(i as int)));
            i = i + 1;
        }
        assert(p.take(self.events@.len() as int) =~= p);
        t
    }

    /// Uninstalls after the cutoff `secs` seconds before `now`.
    pub fn recent_at(&self, secs: i64, now: Timestamp) -> (r: Vec<&UninstallEvent>)
        ensures
            r@.map_values(|e: &UninstallEvent| *e) == self.events_log().filter(uninstalled_after(now - secs * 1000)),
    {
        let ghost pred = uninstalled_after(now - secs * 1000);
        let c: i128 = (now as i128) - (secs as i128) * 1000;
        let mut r: Vec<&UninstallEvent> = Vec::new();
        let mut i: usize = 0;
        while i < self.events.len()
            invariant
                i <= self.events@.len(),
                c == now - secs * 1000,
                pred == uninstalled_after(now - secs * 1000),
                r@.map_values(|e: &UninstallEvent| *e) == self.events@.take(i as int).filter(pred),
            decreases self.events@.len() - i,
        {
            proof {
                assert(self.events@.take(i + 1) =~= self.events@.take(i as int).push(self.events@[i as int]));
                self.events@.take(i as int).lemma_filter_push(self.events@[i as int], pred);
            }
            if (self.events[i].uninstalled_at as i128) > c {
                r.push(&self.events[i]);
            }
            assert(r@.map_values(|e: &UninstallEvent| *e) =~= self.events@.take(i + 1).filter(pred));
            i = i + 1;
        }
        assert(self.events@.take(self.events@.len() as int) =~= self.events@);
        r
    }

    /// Uninstalls in the last `secs` seconds, counted from now.
    pub fn recent(&self, secs: i64) -> (r: Vec<&UninstallEvent>)
        ensures
            exists|now: Timestamp|
                r@.map_values(|e: &UninstallEvent| *e) == #[trigger] self.events_log().filter(uninstalled_after(now - secs * 1000)),
    {
        let now = now_millis();
        self.recent_at(secs, now)
    }

    pub fn total_uninstalls(&self) -> (r: usize)
        ensures
            r == self.events_log().len(),
    {
        self.events.len()
    }

    pub fn protected_count(&self) -> (r: usize)
        ensures
            r == self.protected().len(),
    {
        self.protected_apps.len()
    }
}

impl Default for UninstallTracker {
    fn default() -> (r: Self)
        ensures
            r.wf(),
            r.events_log() == Seq::<UninstallEvent>::empty(),
            r.flag_log() == Seq::<UninstallFlagView>::empty(),
            r.protected() == Seq::<Seq<char>>::empty(),
            r.limit() == 5000,
    {
        Self::new()
    }
}

} // verus!
