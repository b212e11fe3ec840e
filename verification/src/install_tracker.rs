//! Install tracker — monitor application installations.

use vstd::prelude::*;
use crate::bounded::{keep_last, push_bounded};
use crate::clock::{Timestamp, now_millis};
use crate::keyed::lemma_filter_take_zero;
use crate::text::{str_eq, copy_string, concat2, concat3, u64_to_decimal, decimal, texts};

verus! {

/// An installation event.
#[derive(Debug, Clone)]
pub struct InstallEvent {
    pub app_id: String,
    pub app_name: String,
    pub version: String,
    pub installed_at: Timestamp,
    pub source: InstallSource,
    pub installer_path: Option<String>,
    pub required_admin: bool,
    pub file_count: u32,
    pub total_bytes: u64,
    pub signed: bool,
    pub signer: Option<String>,
}

#[derive(Debug, Clone, Copy, PartialEq, Eq, Hash, Structural)]
pub enum InstallSource {
    OfficialRepo,
    AppStore,
    ThirdPartyRepo,
    DirectDownload,
    SideloadedApk,
    DevelopmentBuild,
    Unknown,
}

/// The risk of a source in thousandths (0 = safe, 1000 = dangerous).
pub open spec fn source_risk(s: InstallSource) -> u16 {
    match s {
        InstallSource::OfficialRepo => 100,
        InstallSource::AppStore => 150,
        InstallSource::ThirdPartyRepo => 400,
        InstallSource::DirectDownload => 600,
        InstallSource::SideloadedApk => 750,
        InstallSource::DevelopmentBuild => 500,
        InstallSource::Unknown => 800,
    }
}

/// The name of a source.
pub open spec fn source_name(s: InstallSource) -> Seq<char> {
    match s {
        InstallSource::OfficialRepo => "OfficialRepo"@,
        InstallSource::AppStore => "AppStore"@,
        InstallSource::ThirdPartyRepo => "ThirdPartyRepo"@,
        InstallSource::DirectDownload => "DirectDownload"@,
        InstallSource::SideloadedApk => "SideloadedApk"@,
        InstallSource::DevelopmentBuild => "DevelopmentBuild"@,
        InstallSource::Unknown => "Unknown"@,
    }
}

impl InstallSource {
    /// Risk in thousandths (0 = safe, 1000 = dangerous).
    pub fn risk_permille(&self) -> (r: u16)
        ensures
            r == source_risk(*self),
    {
        match self {
            InstallSource::OfficialRepo => 100,
            InstallSource::AppStore => 150,
            InstallSource::ThirdPartyRepo => 400,
            InstallSource::DirectDownload => 600,
            InstallSource::SideloadedApk => 750,
            InstallSource::DevelopmentBuild => 500,
            InstallSource::Unknown => 800,
        }
    }

    /// The name of the source.
    pub fn name(&self) -> (r: &'static str)
        ensures
            r@ == source_name(*self),
    {
        match self {
            InstallSource::OfficialRepo => "OfficialRepo",
            InstallSource::AppStore => "AppStore",
            InstallSource::ThirdPartyRepo => "ThirdPartyRepo",
            InstallSource::DirectDownload => "DirectDownload",
            InstallSource::SideloadedApk => "SideloadedApk",
            InstallSource::DevelopmentBuild => "DevelopmentBuild",
            InstallSource::Unknown => "Unknown",
        }
    }
}

/// An install flag.
#[derive(Debug, Clone)]
pub struct InstallFlag {
    pub app_id: String,
    pub flag_type: FlagType,
    /// Confidence in thousandths.
    pub confidence_permille: u16,
    pub detail: String,
    pub raised_at: Timestamp,
}

#[derive(Debug, Clone, Copy, PartialEq, Eq, Structural)]
pub enum FlagType {
    UnsignedInstaller,
    UntrustedSource,
    SilentInstall,
    BatchInstall,
    UnusualHour,
    SuspiciousSigner,
}

/// An install flag as plain data.
pub struct FlagView {
    pub app_id: Seq<char>,
    pub flag_type: FlagType,
    pub confidence_permille: u16,
    pub detail: Seq<char>,
    pub raised_at: Timestamp,
}

impl View for InstallFlag {
    type V = FlagView;

    open spec fn view(&self) -> FlagView {
        FlagView {
            app_id: self.app_id@,
            flag_type: self.flag_type,
            confidence_permille: self.confidence_permille,
            detail: self.detail@,
            raised_at: self.raised_at,
        }
    }
}

/// The views of a list of flags.
pub open spec fn flag_views(s: Seq<InstallFlag>) -> Seq<FlagView> {
    s.map_values(|f: InstallFlag| f@)
}

/// One flag when `c` holds, none otherwise.
pub open spec fn flag_if(c: bool, f: FlagView) -> Seq<FlagView> {
    if c {
        seq![f]
    } else {
        Seq::empty()
    }
}

/// A flag with the given parts.
pub open spec fn flag(app_id: Seq<char>, t: FlagType, confidence: u16, detail: Seq<char>, at: Timestamp) -> FlagView {
    FlagView { app_id, flag_type: t, confidence_permille: confidence, detail, raised_at: at }
}

/// An install within five minutes before `now`.
pub open spec fn within_five_minutes(now: Timestamp) -> spec_fn(InstallEvent) -> bool {
    |e: InstallEvent| e.installed_at > now - 300_000
}

/// The number of recorded installs within five minutes before `now`.
pub open spec fn recent_installs(events: Seq<InstallEvent>, now: Timestamp) -> nat {
    events.filter(within_five_minutes(now)).len()
}

/// The flags an install raises: unsigned installer, signer outside a
/// non-empty trusted list, source with risk of at least one half, and a
/// batch of three or more installs within the five minutes before.
pub open spec fn install_flags(e: InstallEvent, trusted: Seq<Seq<char>>, events: Seq<InstallEvent>, now: Timestamp) -> Seq<
    FlagView,
> {
    flag_if(!e.signed, flag(e.app_id@, FlagType::UnsignedInstaller, 800, "unsigned installer for "@ + e.app_name@, now))
        + match e.signer {
        Some(s) => flag_if(
            trusted.len() > 0 && !trusted.contains(s@),
            flag(e.app_id@, FlagType::SuspiciousSigner, 650, "unknown signer: "@ + s@, now),
        ),
        None => Seq::empty(),
    } + flag_if(
        source_risk(e.source) >= 500,
        flag(
            e.app_id@,
            FlagType::UntrustedSource,
            source_risk(e.source),
            "source "@ + source_name(e.source) + " is untrusted"@,
            now,
        ),
    ) + flag_if(
        recent_installs(events, now) >= 3,
        flag(
            e.app_id@,
            FlagType::BatchInstall,
            600,
            decimal(recent_installs(events, now) + 1) + "+ installs in 5 minutes"@,
            now,
        ),
    )
}

/// Install tracker.
pub struct InstallTracker {
    events: Vec<InstallEvent>,
    flags: Vec<InstallFlag>,
    trusted_signers: Vec<String>,
    history_limit: usize,
}

impl InstallTracker {
    /// The retained installs, oldest first.
    pub closed spec fn events_log(&self) -> Seq<InstallEvent> {
        self.events@
    }

    /// Every flag raised, oldest first.
    pub closed spec fn flag_log(&self) -> Seq<FlagView> {
        flag_views(self.flags@)
    }

    /// The trusted signers, each once.
    pub closed spec fn trusted(&self) -> Seq<Seq<char>> {
        texts(self.trusted_signers@)
    }

    /// The number of installs retained.
    pub closed spec fn limit(&self) -> nat {
        self.history_limit as nat
    }

    /// The install log stays within its limit.
    pub open spec fn wf(&self) -> bool {
        self.events_log().len() <= self.limit() && self.limit() < u64::MAX
    }

    pub fn new() -> (r: Self)
        ensures
            r.wf(),
            r.events_log() == Seq::<InstallEvent>::empty(),
            r.flag_log() == Seq::<FlagView>::empty(),
            r.trusted() == Seq::<Seq<char>>::empty(),
            r.limit() == 5000,
    {
        let r = Self { events: Vec::new(), flags: Vec::new(), trusted_signers: Vec::new(), history_limit: 5000 };
        assert(r.flag_log() =~= Seq::<FlagView>::empty());
        assert(r.trusted() =~= Seq::<Seq<char>>::empty());
        r
    }

    fn is_trusted(&self, signer: &str) -> (r: bool)
        ensures
            r == self.trusted().contains(signer@),
    {
        let mut i: usize = 0;
        while i < self.trusted_signers.len()
            invariant
                i <= self.trusted_signers@.len(),
                forall|j: int| 0 <= j < i ==> (#[trigger] self.trusted_signers@[j])@ != signer@,
            decreases self.trusted_signers@.len() - i,
        {
            if str_eq(self.trusted_signers[i].as_str(), signer) {
                assert(self.trusted()[i as int] == signer@);
                return true;
            }
            i = i + 1;
        }
        assert forall|j: int| 0 <= j < self.trusted().len() implies self.trusted()[j] != signer@ by {
            assert(self.trusted()[j] == self.trusted_signers@[j]@);
        }
        false
    }

    /// Trust a signer.
    pub fn trust_signer(&mut self, signer: &str)
        requires
            old(self).wf(),
        ensures
            final(self).wf(),
            final(self).trusted() == if old(self).trusted().contains(signer@) {
                old(self).trusted()
            } else {
                old(self).trusted().push(signer@)
            },
            final(self).events_log() == old(self).events_log(),
            final(self).flag_log() == old(self).flag_log(),
            final(self).limit() == old(self).limit(),
    {
        if !self.is_trusted(signer) {
            self.trusted_signers.push(String::from_str(signer));
            assert(self.trusted() =~= old(self).trusted().push(signer@));
        }
    }

    fn count_recent(&self, now: Timestamp) -> (r: usize)
        ensures
            r == recent_installs(self.events_log(), now),
            r <= self.events_log().len(),
    {
        let ghost pred = within_five_minutes(now);
        let mut n: usize = 0;
        let mut i: usize = 0;
        proof {
            lemma_filter_take_zero(self.events@, pred);
        }
        let cutoff: i128 = (now as i128) - 300_000;
        while i < self.events.len()
            invariant
                i <= self.events@.len(),
                pred == within_five_minutes(now),
                cutoff == now - 300_000,
                n == self.events@.take(i as int).filter(pred).len(),
            decreases self.events@.len() - i,
        {
            proof {
                assert(self.events@.take(i + 1) =~= self.events@.take(i as int).push(self.events@[i as int]));
                self.events@.take(i as int).lemma_filter_push(self.events@[i as int], pred);
                self.events@.take(i as int).lemma_filter_len(pred);
            }
            if (self.events[i].installed_at as i128) > cutoff {
                n = n + 1;
            }
            i = i + 1;
        }
        assert(self.events@.take(self.events@.len() as int) =~= self.events@);
        proof {
            self.events@.lemma_filter_len(pred);
        }
        n
    }

    /// Record an install at the given instant and return the flags it
    /// raised.
    pub fn record_at(&mut self, event: InstallEvent, now: Timestamp) -> (r: Vec<InstallFlag>)
        requires
            old(self).wf(),
        ensures
            final(self).wf(),
            flag_views(r@) == install_flags(event, old(self).trusted(), old(self).events_log(), now),
            final(self).flag_log() == old(self).flag_log() + flag_views(r@),
            final(self).events_log() == keep_last(old(self).events_log().push(event), old(self).limit()),
            final(self).trusted() == old(self).trusted(),
            final(self).limit() == old(self).limit(),
    {
        let mut raised: Vec<InstallFlag> = Vec::new();
        let ghost e = event;
        if !event.signed {
            raised.push(InstallFlag {
                app_id: copy_string(&event.app_id),
                flag_type: FlagType::UnsignedInstaller,
                confidence_permille: 800,
                detail: concat2("unsigned installer for ", event.app_name.as_str()),
                raised_at: now,
            });
        }
        let ghost r1 = flag_views(raised@);
        assert(r1 =~= flag_if(!e.signed, flag(e.app_id@, FlagType::UnsignedInstaller, 800, "unsigned installer for "@ + e.app_name@, now)));
        match &event.signer {
            Some(signer) => {
                if self.trusted_signers.len() > 0 && !self.is_trusted(signer.as_str()) {
                    raised.push(InstallFlag {
                        app_id: copy_string(&event.app_id),
                        flag_type: FlagType::SuspiciousSigner,
                        confidence_permille: 650,
                        detail: concat2("unknown signer: ", signer.as_str()),
                        raised_at: now,
                    });
                }
            },
            None => {},
        }
        let ghost r2 = flag_views(raised@);
        assert(r2 =~= r1 + match e.signer {
            Some(s) => flag_if(
                self.trusted().len() > 0 && !self.trusted().contains(s@),
                flag(e.app_id@, FlagType::SuspiciousSigner, 650, "unknown signer: "@ + s@, now),
            ),
            None => Seq::<FlagView>::empty(),
        });
        let risk = event.source.risk_permille();
        if risk >= 500 {
            raised.push(InstallFlag {
                app_id: copy_string(&event.app_id),
                flag_type: FlagType::UntrustedSource,
                confidence_permille: risk,
                detail: concat3("source ", event.source.name(), " is untrusted"),
                raised_at: now,
            });
        }
        let ghost r3 = flag_views(raised@);
        assert(r3 =~= r2 + flag_if(
            source_risk(e.source) >= 500,
            flag(
                e.app_id@,
                FlagType::UntrustedSource,
                source_risk(e.source),
                "source "@ + source_name(e.source) + " is untrusted"@,
                now,
            ),
        ));
        let recent = self.count_recent(now);
        if recent >= 3 {
            let n = u64_to_decimal((recent as u64) + 1);
            raised.push(InstallFlag {
                app_id: copy_string(&event.app_id),
                flag_type: FlagType::BatchInstall,
                confidence_permille: 600,
                detail: concat2(n.as_str(), "+ installs in 5 minutes"),
                raised_at: now,
            });
        }
        assert(flag_views(raised@) =~= r3 + flag_if(
            recent_installs(self.events@, now) >= 3,
            flag(
                e.app_id@,
                FlagType::BatchInstall,
                600,
                decimal(recent_installs(self.events@, now) + 1) + "+ installs in 5 minutes"@,
                now,
            ),
        ));
        push_bounded(&mut self.events, event, self.history_limit);
        let mut i: usize = 0;
        let ghost start = flag_views(self.flags@);
        while i < raised.len()
            invariant
                i <= raised@.len(),
                flag_views(self.flags@) == start + flag_views(raised@).take(i as int),
                self.events@ == keep_last(old(self).events@.push(e), old(self).history_limit as nat),
                self.events@.len() <= self.history_limit,
                self.history_limit == old(self).history_limit,
                self.history_limit < u64::MAX,
                self.trusted_signers@ == old(self).trusted_signers@,
            decreases raised@.len() - i,
        {
            let f = InstallFlag {
                app_id: copy_string(&raised[i].app_id),
                flag_type: raised[i].flag_type,
                confidence_permille: raised[i].confidence_permille,
                detail: copy_string(&raised[i].detail),
                raised_at: raised[i].raised_at,
            };
            let ghost before = flag_views(self.flags@);
            self.flags.push(f);
            assert(flag_views(self.flags@) =~= before.push(raised@[i as int]@));
            assert(flag_views(raised@).take(i + 1) =~= flag_views(raised@).take(i as int).push(raised@[i as int]@));
            i = i + 1;
        }
        assert(flag_views(raised@).take(raised@.len() as int) =~= flag_views(raised@));
        raised
    }

    /// Record an install now and return the flags it raised.
    pub fn record(&mut self, event: InstallEvent) -> (r: Vec<InstallFlag>)
        requires
            old(self).wf(),
        ensures
            final(self).wf(),
            exists|now: Timestamp| flag_views(r@) == #[trigger] install_flags(event, old(self).trusted(), old(self).events_log(), now),
            final(self).flag_log() == old(self).flag_log() + flag_views(r@),
            final(self).events_log() == keep_last(old(self).events_log().push(event), old(self).limit()),
            final(self).trusted() == old(self).trusted(),
            final(self).limit() == old(self).limit(),
    {
        let now = now_millis();
        self.record_at(event, now)
    }

    /// Installs from a source, oldest first.
    pub fn by_source(&self, source: &InstallSource) -> (r: Vec<&InstallEvent>)
        ensures
            r@.map_values(|e: &InstallEvent| *e) == self.events_log().filter(|e: InstallEvent| e.source == *source),
    {
        let ghost pred = |e: InstallEvent| e.source == *source;
        let mut r: Vec<&InstallEvent> = Vec::new();
        let mut i: usize = 0;
        while i < self.events.len()
            invariant
                i <= self.events@.len(),
                pred == (|e: InstallEvent| e.source == *source),
                r@.map_values(|e: &InstallEvent| *e) == self.events@.take(i as int).filter(pred),
            decreases self.events@.len() - i,
        {
            proof {
                assert(self.events@.take(i + 1) =~= self.events@.take(i as int).push(self.events@[i as int]));
                self.events@.take(i as int).lemma_filter_push(self.events@[i as int], pred);
            }
            if self.events[i].source == *source {
                r.push(&self.events[i]);
            }
            assert(r@.map_values(|e: &InstallEvent| *e) =~= self.events@.take(i + 1).filter(pred));
            i = i + 1;
        }
        assert(self.events@.take(self.events@.len() as int) =~= self.events@);
        r
    }

    /// Total bytes installed across the retained installs.
    pub fn total_bytes(&self) -> (r: u64)
        requires
            install_bytes(self.events_log()) <= u64::MAX,
        ensures
            r == install_bytes(self.events_log()),
    {
        let mut sum: u64 = 0;
        let mut i: usize = 0;
        while i < self.events.len()
            invariant
                i <= self.events@.len(),
                install_bytes(self.events@) <= u64::MAX,
                sum == install_bytes(self.events@.take(i as int)),
            decreases self.events@.len() - i,
        {
            proof {
                assert(self.events@.take(i + 1).drop_last() =~= self.events@.take(i as int));
                lemma_install_bytes_prefix(self.events@, i + 1);
            }
            sum = sum + self.events[i].total_bytes;
            i = i + 1;
        }
        assert(self.events@.take(self.events@.len() as int) =~= self.events@);
        sum
    }

    /// Installs after the cutoff `days` days before `now`.
    pub fn recent_at(&self, days: i64, now: Timestamp) -> (r: Vec<&InstallEvent>)
        ensures
            r@.map_values(|e: &InstallEvent| *e) == self.events_log().filter(after_cutoff(now - days * 86_400_000)),
    {
        let ghost cutoff = now - days * 86_400_000;
        let ghost pred = after_cutoff(cutoff);
        let c: i128 = (now as i128) - (days as i128) * 86_400_000;
        let mut r: Vec<&InstallEvent> = Vec::new();
        let mut i: usize = 0;
        while i < self.events.len()
            invariant
                i <= self.events@.len(),
                c == cutoff,
                pred == after_cutoff(cutoff),
                r@.map_values(|e: &InstallEvent| *e) == self.events@.take(i as int).filter(pred),
            decreases self.events@.len() - i,
        {
            proof {
                assert(self.events@.take(i + 1) =~= self.events@.take(i as int).push(self.events@[i as int]));
                self.events@.take(i as int).lemma_filter_push(self.events@[i as int], pred);
            }
            if (self.events[i].installed_at as i128) > c {
                r.push(&self.events[i]);
            }
            assert(r@.map_values(|e: &InstallEvent| *e) =~= self.events@.take(i + 1).filter(pred));
            i = i + 1;
        }
        assert(self.events@.take(self.events@.len() as int) =~= self.events@);
        r
    }

    /// Installs in the last `days` days, counted from now.
    pub fn recent(&self, days: i64) -> (r: Vec<&InstallEvent>)
        ensures
            exists|now: Timestamp|
                r@.map_values(|e: &InstallEvent| *e) == #[trigger] self.events_log().filter(after_cutoff(now - days * 86_400_000)),
    {
        let now = now_millis();
        self.recent_at(days, now)
    }

    /// Installs that required admin rights, oldest first.
    pub fn admin_required(&self) -> (r: Vec<&InstallEvent>)
        ensures
            r@.map_values(|e: &InstallEvent| *e) == self.events_log().filter(|e: InstallEvent| e.required_admin),
    {
        let ghost pred = |e: InstallEvent| e.required_admin;
        let mut r: Vec<&InstallEvent> = Vec::new();
        let mut i: usize = 0;
        while i < self.events.len()
            invariant
                i <= self.events@.len(),
                pred == (|e: InstallEvent| e.required_admin),
                r@.map_values(|e: &InstallEvent| *e) == self.events@.take(i as int).filter(pred),
            decreases self.events@.len() - i,
        {
            proof {
                assert(self.events@.take(i + 1) =~= self.events@.take(i as int).push(self.events@[i as int]));
                self.events@.take(i as int).lemma_filter_push(self.events@[i as int], pred);
            }
            if self.events[i].required_admin {
                r.push(&self.events[i]);
            }
            assert(r@.map_values(|e: &InstallEvent| *e) =~= self.events@.take(i + 1).filter(pred));
            i = i + 1;
        }
        assert(self.events@.take(self.events@.len() as int) =~= self.events@);
        r
    }

    /// Flags of a type, oldest first.
    pub fn flags_by_type(&self, kind: &FlagType) -> (r: Vec<&InstallFlag>)
        ensures
            flag_views(r@.map_values(|f: &InstallFlag| *f)) == self.flag_log().filter(|f: FlagView| f.flag_type == *kind),
    {
        let ghost fv = flag_views(self.flags@);
        let ghost pred = |f: FlagView| f.flag_type == *kind;
        let mut r: Vec<&InstallFlag> = Vec::new();
        let mut i: usize = 0;
        proof {
            lemma_filter_take_zero(fv, pred);
            assert(flag_views(r@.map_values(|f: &InstallFlag| *f)) =~= Seq::<FlagView>::empty());
        }
        while i < self.flags.len()
            invariant
                i <= self.flags@.len(),
                fv == flag_views(self.flags@),
                pred == (|f: FlagView| f.flag_type == *kind),
                flag_views(r@.map_values(|f: &InstallFlag| *f)) == fv.take(i as int).filter(pred),
            decreases self.flags@.len() - i,
        {
            proof {
                assert(fv.take(i + 1) =~= fv.take(i as int).push(self.flags@[i as int]@));
                fv.take(i as int).lemma_filter_push(self.flags@[i as int]@, pred);
            }
            let ghost rb = r@;
            if self.flags[i].flag_type == *kind {
                r.push(&self.flags[i]);
                assert(flag_views(r@.map_values(|f: &InstallFlag| *f)) =~= flag_views(rb.map_values(|f: &InstallFlag| *f)).push(
                    self.flags@[i as int]@,
                ));
            }
            i = i + 1;
        }
        assert(fv.take(self.flags@.len() as int) =~= fv);
        r
    }

    /// The retained installs, oldest first.
    pub fn events(&self) -> (r: &[InstallEvent])
        ensures
            r@ == self.events_log(),
    {
        self.events.as_slice()
    }

    /// Every flag raised, oldest first.
    pub fn flags(&self) -> (r: &[InstallFlag])
        ensures
            flag_views(r@) == self.flag_log(),
    {
        self.flags.as_slice()
    }

    pub fn event_count(&self) -> (r: usize)
        ensures
            r == self.events_log().len(),
    {
        self.events.len()
    }

    pub fn flag_count(&self) -> (r: usize)
        ensures
            r == self.flag_log().len(),
    {
        self.flags.len()
    }
}

impl Default for InstallTracker {
    fn default() -> (r: Self)
        ensures
            r.wf(),
            r.events_log() == Seq::<InstallEvent>::empty(),
            r.flag_log() == Seq::<FlagView>::empty(),
            r.trusted() == Seq::<Seq<char>>::empty(),
            r.limit() == 5000,
    {
        Self::new()
    }
}

/// An install after `cutoff`.
pub open spec fn after_cutoff(cutoff: int) -> spec_fn(InstallEvent) -> bool {
    |e: InstallEvent| e.installed_at > cutoff
}

/// The bytes of a list of installs.
pub open spec fn install_bytes(s: Seq<InstallEvent>) -> int
    decreases s.len(),
{
    if s.len() == 0 {
        0
    } else {
        install_bytes(s.drop_last()) + s.last().total_bytes
    }
}

proof fn lemma_install_bytes_prefix(s: Seq<InstallEvent>, n: int)
    requires
        0 <= n <= s.len(),
    ensures
        0 <= install_bytes(s.take(n)) <= install_bytes(s),
    decreases s.len(),
{
    if s.len() > 0 {
        if n == s.len() {
            assert(s.take(n) =~= s);
            lemma_install_bytes_prefix(s.drop_last(), s.len() - 1);
            assert(s.drop_last().take(s.len() - 1) =~= s.drop_last());
        } else {
            assert(s.take(n) =~= s.drop_last().take(n));
            lemma_install_bytes_prefix(s.drop_last(), n);
        }
    }
}

} // verus!
