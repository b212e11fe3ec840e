//! Certificate tracker — monitor X.509 certificates used by applications.

use vstd::prelude::*;
use crate::clock::{Timestamp, now_millis, days_between, whole_days};
use crate::keyed::{first_index, lemma_first_index, lemma_first_index_spec, lemma_filter_take_zero};
use crate::text::{str_eq, texts, lowercase_of, to_lowercase};

verus! {

/// A tracked certificate.
#[derive(Debug, Clone)]
pub struct Certificate {
    pub fingerprint: String,
    pub subject: String,
    pub issuer: String,
    pub not_before: Timestamp,
    pub not_after: Timestamp,
    pub serial: String,
    pub algorithm: String,
    pub key_bits: u32,
    pub san: Vec<String>,
    pub ca: bool,
    /// Applications that have pinned this certificate.
    pub pinned_for: Vec<String>,
}

/// A certificate as plain data.
pub struct CertView {
    pub fingerprint: Seq<char>,
    pub subject: Seq<char>,
    pub issuer: Seq<char>,
    pub not_before: Timestamp,
    pub not_after: Timestamp,
    pub serial: Seq<char>,
    pub algorithm: Seq<char>,
    pub key_bits: u32,
    pub san: Seq<Seq<char>>,
    pub ca: bool,
    pub pinned_for: Seq<Seq<char>>,
}

impl View for Certificate {
    type V = CertView;

    open spec fn view(&self) -> CertView {
        CertView {
            fingerprint: self.fingerprint@,
            subject: self.subject@,
            issuer: self.issuer@,
            not_before: self.not_before,
            not_after: self.not_after,
            serial: self.serial@,
            algorithm: self.algorithm@,
            key_bits: self.key_bits,
            san: texts(self.san@),
            ca: self.ca,
            pinned_for: texts(self.pinned_for@),
        }
    }
}

/// The certificate is valid at `now`.
pub open spec fn valid_at(c: CertView, now: Timestamp) -> bool {
    c.not_before <= now && now <= c.not_after
}

/// Whole days from `now` to the end of validity, truncated toward zero.
pub open spec fn days_left(c: CertView, now: Timestamp) -> int {
    whole_days(c.not_after - now)
}

/// The certificate has expired at `now`.
pub open spec fn expired_at(c: CertView, now: Timestamp) -> bool {
    now > c.not_after
}

/// The certificate expires within `days` days of `now` (and has not
/// expired a day or more ago).
pub open spec fn expiring_at(c: CertView, days: i64, now: Timestamp) -> bool {
    0 <= days_left(c, now) <= days
}

/// An RSA key under 2048 bits or an ECDSA key under 256 bits (the
/// algorithm's name compared in lower case).
pub open spec fn weak_key(c: CertView) -> bool {
    let a = lowercase_of(c.algorithm);
    if a == "rsa"@ {
        c.key_bits < 2048
    } else if a == "ecdsa"@ {
        c.key_bits < 256
    } else {
        false
    }
}

impl Certificate {
    /// Is the certificate valid at the given instant?
    pub fn is_valid_at(&self, now: Timestamp) -> (r: bool)
        ensures
            r == valid_at(self@, now),
    {
        now >= self.not_before && now <= self.not_after
    }

    /// Is the certificate valid now?
    pub fn is_valid(&self) -> (r: bool)
        ensures
            exists|t: Timestamp| r == #[trigger] valid_at(self@, t),
    {
        let now = now_millis();
        let r = self.is_valid_at(now);
        assert(r == valid_at(self@, now));
        r
    }

    /// Whole days from the given instant until expiry.
    pub fn days_until_expiry_at(&self, now: Timestamp) -> (r: i64)
        ensures
            r == days_left(self@, now),
    {
        days_between(self.not_after, now)
    }

    /// Whole days from now until expiry.
    pub fn days_until_expiry(&self) -> (r: i64)
        ensures
            exists|t: Timestamp| r == #[trigger] days_left(self@, t),
    {
        let now = now_millis();
        let r = self.days_until_expiry_at(now);
        assert(r == days_left(self@, now));
        r
    }

    /// Has the certificate expired at the given instant?
    pub fn is_expired_at(&self, now: Timestamp) -> (r: bool)
        ensures
            r == expired_at(self@, now),
    {
        now > self.not_after
    }

    /// Has the certificate expired?
    pub fn is_expired(&self) -> (r: bool)
        ensures
            exists|t: Timestamp| r == #[trigger] expired_at(self@, t),
    {
        let now = now_millis();
        let r = self.is_expired_at(now);
        assert(r == expired_at(self@, now));
        r
    }

    /// Does the certificate expire within `days` days of the given instant?
    pub fn expiring_soon_at(&self, days: i64, now: Timestamp) -> (r: bool)
        ensures
            r == expiring_at(self@, days, now),
    {
        let remaining = self.days_until_expiry_at(now);
        remaining >= 0 && remaining <= days
    }

    /// Does the certificate expire within `days` days?
    pub fn expiring_soon(&self, days: i64) -> (r: bool)
        ensures
            exists|t: Timestamp| r == #[trigger] expiring_at(self@, days, t),
    {
        let now = now_millis();
        let r = self.expiring_soon_at(days, now);
        assert(r == expiring_at(self@, days, now));
        r
    }

    /// Is the key weak for its algorithm?
    pub fn has_weak_key(&self) -> (r: bool)
        ensures
            r == weak_key(self@),
    {
        let a = to_lowercase(self.algorithm.as_str());
        if str_eq(a.as_str(), "rsa") {
            self.key_bits < 2048
        } else if str_eq(a.as_str(), "ecdsa") {
            self.key_bits < 256
        } else {
            false
        }
    }
}

/// Per-app certificate usage record.
#[derive(Debug, Clone)]
pub struct CertUsage {
    pub app_id: String,
    pub fingerprint: String,
    pub host: String,
    pub first_seen: Timestamp,
    pub last_seen: Timestamp,
    pub seen_count: u64,
}

/// A usage record as plain data.
pub struct UsageView {
    pub app_id: Seq<char>,
    pub fingerprint: Seq<char>,
    pub host: Seq<char>,
    pub first_seen: Timestamp,
    pub last_seen: Timestamp,
    pub seen_count: u64,
}

impl View for CertUsage {
    type V = UsageView;

    open spec fn view(&self) -> UsageView {
        UsageView {
            app_id: self.app_id@,
            fingerprint: self.fingerprint@,
            host: self.host@,
            first_seen: self.first_seen,
            last_seen: self.last_seen,
            seen_count: self.seen_count,
        }
    }
}

/// The outcome of checking a certificate against an application's pins.
#[derive(Debug, Clone, Copy, PartialEq, Eq, Structural)]
pub enum PinningResult {
    NoPin,
    PinMatch,
    PinViolation,
}

/// A certificate with the given fingerprint.
pub open spec fn with_fingerprint(fp: Seq<char>) -> spec_fn(CertView) -> bool {
    |c: CertView| c.fingerprint == fp
}

/// The certificates after registering `c`: it replaces the one with the
/// same fingerprint, or is added.
pub open spec fn registered(s: Seq<CertView>, c: CertView) -> Seq<CertView> {
    let k = first_index(s, with_fingerprint(c.fingerprint));
    if k < 0 {
        s.push(c)
    } else {
        s.update(k, c)
    }
}

/// `names` with `name` added at the end unless it is already listed.
pub open spec fn with_name(names: Seq<Seq<char>>, name: Seq<char>) -> Seq<Seq<char>> {
    if names.contains(name) {
        names
    } else {
        names.push(name)
    }
}

/// The certificates after pinning the one with fingerprint `fp` for `app`.
pub open spec fn pinned(s: Seq<CertView>, fp: Seq<char>, app: Seq<char>) -> Seq<CertView> {
    let k = first_index(s, with_fingerprint(fp));
    if k < 0 {
        s
    } else {
        s.update(k, CertView { pinned_for: with_name(s[k].pinned_for, app), ..s[k] })
    }
}

/// A usage record of `app` seeing `fp` at `host`.
pub open spec fn same_usage(app: Seq<char>, fp: Seq<char>, host: Seq<char>) -> spec_fn(UsageView) -> bool {
    |u: UsageView| u.app_id == app && u.fingerprint == fp && u.host == host
}

/// The usage records after `app` sees `fp` at `host` at `now`: the record
/// of that sighting counts one more, or a new one is added; then the
/// oldest record leaves when there are more than `limit`.
pub open spec fn after_usage(
    s: Seq<UsageView>,
    app: Seq<char>,
    fp: Seq<char>,
    host: Seq<char>,
    now: Timestamp,
    limit: nat,
) -> Seq<UsageView> {
    let k = first_index(s, same_usage(app, fp, host));
    let s1 = if k < 0 {
        s.push(
            UsageView { app_id: app, fingerprint: fp, host, first_seen: now, last_seen: now, seen_count: 1 },
        )
    } else {
        s.update(k, UsageView { last_seen: now, seen_count: (s[k].seen_count + 1) as u64, ..s[k] })
    };
    if s1.len() > limit {
        s1.drop_first()
    } else {
        s1
    }
}

/// A certificate pinned for `app`.
pub open spec fn pinned_for_app(app: Seq<char>) -> spec_fn(CertView) -> bool {
    |c: CertView| c.pinned_for.contains(app)
}

/// The fingerprint of a certificate.
pub open spec fn fingerprint_of() -> spec_fn(CertView) -> Seq<char> {
    |c: CertView| c.fingerprint
}

/// The outcome of checking `fp` against the pins of `app`.
pub open spec fn pinning(s: Seq<CertView>, app: Seq<char>, fp: Seq<char>) -> PinningResult {
    let pins = s.filter(pinned_for_app(app)).map_values(fingerprint_of());
    if pins.len() == 0 {
        PinningResult::NoPin
    } else if pins.contains(fp) {
        PinningResult::PinMatch
    } else {
        PinningResult::PinViolation
    }
}

/// Once a registered certificate is pinned for an application, checking
/// that certificate for the application is a match.
pub proof fn lemma_pin_then_match(s: Seq<CertView>, fp: Seq<char>, app: Seq<char>)
    requires
        first_index(s, with_fingerprint(fp)) >= 0,
    ensures
        pinning(pinned(s, fp, app), app, fp) == PinningResult::PinMatch,
{
    lemma_first_index_spec(s, with_fingerprint(fp));
    let k = first_index(s, with_fingerprint(fp));
    let t = pinned(s, fp, app);
    assert(t[k].pinned_for.contains(app)) by {
        if !s[k].pinned_for.contains(app) {
            assert(t[k].pinned_for == s[k].pinned_for.push(app));
            assert(t[k].pinned_for[s[k].pinned_for.len() as int] == app);
        }
    }
    let f = t.filter(pinned_for_app(app));
    t.filter_lemma(pinned_for_app(app));
    assert(f.contains(t[k]));
    let j = choose|j: int| 0 <= j < f.len() && f[j] == t[k];
    let pins = f.map_values(fingerprint_of());
    assert(pins[j] == fp);
    assert(pins.contains(fp));
}

/// An application without pins is never told of a violation.
pub proof fn lemma_no_pins_no_violation(s: Seq<CertView>, app: Seq<char>, fp: Seq<char>)
    requires
        forall|i: int| 0 <= i < s.len() ==> !(#[trigger] s[i]).pinned_for.contains(app),
    ensures
        pinning(s, app, fp) == PinningResult::NoPin,
{
    let f = s.filter(pinned_for_app(app));
    s.filter_lemma(pinned_for_app(app));
    if f.len() > 0 {
        assert(pinned_for_app(app)(f[0]));
        s.lemma_filter_contains_rev(pinned_for_app(app), f[0]);
        let i = choose|i: int| 0 <= i < s.len() && s[i] == f[0];
        assert(!s[i].pinned_for.contains(app));
    }
}

/// A certificate that expires within `days` days of `now`.
pub open spec fn expiring(days: i64, now: Timestamp) -> spec_fn(CertView) -> bool {
    |c: CertView| expiring_at(c, days, now)
}

/// A certificate expired at `now`.
pub open spec fn expired(now: Timestamp) -> spec_fn(CertView) -> bool {
    |c: CertView| expired_at(c, now)
}

/// A certificate with a weak key.
pub open spec fn weak() -> spec_fn(CertView) -> bool {
    |c: CertView| weak_key(c)
}

/// A certificate authority.
pub open spec fn is_ca() -> spec_fn(CertView) -> bool {
    |c: CertView| c.ca
}

/// A usage record of `app`.
pub open spec fn usage_of(app: Seq<char>) -> spec_fn(UsageView) -> bool {
    |u: UsageView| u.app_id == app
}

/// The views of a list of certificate references.
pub open spec fn cert_views(s: Seq<&Certificate>) -> Seq<CertView> {
    s.map_values(|c: &Certificate| c@)
}

/// The views of a list of usage references.
pub open spec fn usage_views(s: Seq<&CertUsage>) -> Seq<UsageView> {
    s.map_values(|u: &CertUsage| u@)
}

fn lists(names: &Vec<String>, name: &str) -> (r: bool)
    ensures
        r == texts(names@).contains(name@),
{
    let mut i: usize = 0;
    while i < names.len()
        invariant
            i <= names@.len(),
            forall|j: int| 0 <= j < i ==> texts(names@)[j] != name@,
        decreases names@.len() - i,
    {
        if str_eq(names[i].as_str(), name) {
            assert(texts(names@)[i as int] == name@);
            return true;
        }
        i = i + 1;
    }
    false
}

enum CertQuery {
    Expiring(i64, Timestamp),
    Expired(Timestamp),
    Weak,
    Ca,
}

spec fn query_pred(q: CertQuery) -> spec_fn(CertView) -> bool {
    match q {
        CertQuery::Expiring(d, t) => expiring(d, t),
        CertQuery::Expired(t) => expired(t),
        CertQuery::Weak => weak(),
        CertQuery::Ca => is_ca(),
    }
}

fn query_matches(c: &Certificate, q: &CertQuery) -> (r: bool)
    ensures
        r == query_pred(*q)(c@),
{
    match q {
        CertQuery::Expiring(d, t) => c.expiring_soon_at(*d, *t),
        CertQuery::Expired(t) => c.is_expired_at(*t),
        CertQuery::Weak => c.has_weak_key(),
        CertQuery::Ca => c.ca,
    }
}

/// Certificate tracker.
pub struct CertTracker {
    certs: Vec<Certificate>,
    usage: Vec<CertUsage>,
    usage_limit: usize,
}

impl CertTracker {
    /// The registered certificates, in the order first registered.
    pub closed spec fn certs(&self) -> Seq<CertView> {
        self.certs@.map_values(|c: Certificate| c@)
    }

    /// The usage records, oldest first.
    pub closed spec fn usages(&self) -> Seq<UsageView> {
        self.usage@.map_values(|u: CertUsage| u@)
    }

    /// The number of usage records kept.
    pub closed spec fn limit(&self) -> nat {
        self.usage_limit as nat
    }

    pub fn new() -> (r: Self)
        ensures
            r.certs() == Seq::<CertView>::empty(),
            r.usages() == Seq::<UsageView>::empty(),
            r.limit() == 10_000,
    {
        let r = Self { certs: Vec::new(), usage: Vec::new(), usage_limit: 10_000 };
        assert(r.certs() =~= Seq::<CertView>::empty());
        assert(r.usages() =~= Seq::<UsageView>::empty());
        r
    }

    fn cert_index(&self, fp: &str) -> (r: Option<usize>)
        ensures
            first_index(self.certs(), with_fingerprint(fp@)) == match r {
                Some(k) => k as int,
                None => -1,
            },
            match r {
                Some(k) => k < self.certs().len(),
                None => true,
            },
    {
        let ghost s = self.certs();
        let mut k: usize = 0;
        while k < self.certs.len()
            invariant
                k <= self.certs@.len(),
                s == self.certs(),
                forall|j: int| 0 <= j < k ==> !with_fingerprint(fp@)(#[trigger] s[j]),
            decreases self.certs@.len() - k,
        {
            if str_eq(self.certs[k].fingerprint.as_str(), fp) {
                proof {
                    lemma_first_index(s, with_fingerprint(fp@), k as int);
                }
                return Some(k);
            }
            k = k + 1;
        }
        proof {
            lemma_first_index(s, with_fingerprint(fp@), k as int);
        }
        None
    }

    /// Register a certificate, replacing one with the same fingerprint.
    pub fn register(&mut self, cert: Certificate)
        ensures
            final(self).certs() == registered(old(self).certs(), cert@),
            final(self).usages() == old(self).usages(),
            final(self).limit() == old(self).limit(),
    {
        let ghost s = self.certs();
        let ghost c = cert@;
        match self.cert_index(cert.fingerprint.as_str()) {
            Some(k) => {
                self.certs.set(k, cert);
                assert(self.certs() =~= s.update(k as int, c));
            },
            None => {
                self.certs.push(cert);
                assert(self.certs() =~= s.push(c));
            },
        }
    }

    /// Pin a certificate for an application. Returns whether the
    /// certificate is registered.
    pub fn pin(&mut self, fingerprint: &str, app_id: &str) -> (r: bool)
        ensures
            r == (first_index(old(self).certs(), with_fingerprint(fingerprint@)) >= 0),
            final(self).certs() == pinned(old(self).certs(), fingerprint@, app_id@),
            final(self).usages() == old(self).usages(),
            final(self).limit() == old(self).limit(),
    {
        let ghost s = self.certs();
        match self.cert_index(fingerprint) {
            Some(k) => {
                if !lists(&self.certs[k].pinned_for, app_id) {
                    let mut c = Certificate {
                        fingerprint: String::new(),
                        subject: String::new(),
                        issuer: String::new(),
                        not_before: 0,
                        not_after: 0,
                        serial: String::new(),
                        algorithm: String::new(),
                        key_bits: 0,
                        san: Vec::new(),
                        ca: false,
                        pinned_for: Vec::new(),
                    };
                    std::mem::swap(&mut c, &mut self.certs[k]);
                    let ghost before = texts(c.pinned_for@);
                    c.pinned_for.push(String::from_str(app_id));
                    assert(texts(c.pinned_for@) =~= before.push(app_id@));
                    let ghost cv = c@;
                    self.certs.set(k, c);
                    assert(self.certs() =~= s.update(k as int, cv));
                } else {
                    assert(self.certs() =~= pinned(s, fingerprint@, app_id@));
                }
                true
            },
            None => false,
        }
    }

    fn usage_index(&self, app_id: &str, fp: &str, host: &str) -> (r: Option<usize>)
        ensures
            first_index(self.usages(), same_usage(app_id@, fp@, host@)) == match r {
                Some(k) => k as int,
                None => -1,
            },
            match r {
                Some(k) => k < self.usages().len(),
                None => true,
            },
    {
        let ghost s = self.usages();
        let ghost p = same_usage(app_id@, fp@, host@);
        let mut k: usize = 0;
        while k < self.usage.len()
            invariant
                k <= self.usage@.len(),
                s == self.usages(),
                p == same_usage(app_id@, fp@, host@),
                forall|j: int| 0 <= j < k ==> !p(#[trigger] s[j]),
            decreases self.usage@.len() - k,
        {
            let u = &self.usage[k];
            if str_eq(u.app_id.as_str(), app_id) && str_eq(u.fingerprint.as_str(), fp) && str_eq(
                u.host.as_str(),
                host,
            ) {
                proof {
                    lemma_first_index(s, p, k as int);
                }
                return Some(k);
            }
            k = k + 1;
        }
        proof {
            lemma_first_index(s, p, k as int);
        }
        None
    }

    /// Record at the given instant that an application saw a certificate
    /// at a host.
    pub fn record_usage_at(&mut self, app_id: &str, fingerprint: &str, host: &str, now: Timestamp)
        requires
            ({
                let k = first_index(old(self).usages(), same_usage(app_id@, fingerprint@, host@));
                k >= 0 ==> old(self).usages()[k].seen_count < u64::MAX
            }),
        ensures
            final(self).usages() == after_usage(
                old(self).usages(),
                app_id@,
                fingerprint@,
                host@,
                now,
                old(self).limit(),
            ),
            final(self).certs() == old(self).certs(),
            final(self).limit() == old(self).limit(),
    {
        let ghost s = self.usages();
        match self.usage_index(app_id, fingerprint, host) {
            Some(k) => {
                let mut u = CertUsage {
                    app_id: String::new(),
                    fingerprint: String::new(),
                    host: String::new(),
                    first_seen: 0,
                    last_seen: 0,
                    seen_count: 0,
                };
                std::mem::swap(&mut u, &mut self.usage[k]);
                assert(u@ == s[k as int]);
                u.last_seen = now;
                u.seen_count = u.seen_count + 1;
                let ghost uv = u@;
                self.usage.set(k, u);
                assert(self.usages() =~= s.update(k as int, uv));
            },
            None => {
                self.usage.push(
                    CertUsage {
                        app_id: String::from_str(app_id),
                        fingerprint: String::from_str(fingerprint),
                        host: String::from_str(host),
                        first_seen: now,
                        last_seen: now,
                        seen_count: 1,
                    },
                );
                assert(self.usages() =~= s.push(
                    UsageView {
                        app_id: app_id@,
                        fingerprint: fingerprint@,
                        host: host@,
                        first_seen: now,
                        last_seen: now,
                        seen_count: 1,
                    },
                ));
            },
        }
        let ghost s1 = self.usages();
        if self.usage.len() > self.usage_limit {
            self.usage.remove(0);
            assert(self.usages() =~= s1.drop_first());
        }
    }

    /// Record now that an application saw a certificate at a host.
    pub fn record_usage(&mut self, app_id: &str, fingerprint: &str, host: &str)
        requires
            ({
                let k = first_index(old(self).usages(), same_usage(app_id@, fingerprint@, host@));
                k >= 0 ==> old(self).usages()[k].seen_count < u64::MAX
            }),
        ensures
            exists|t: Timestamp|
                final(self).usages() == #[trigger] after_usage(
                    old(self).usages(),
                    app_id@,
                    fingerprint@,
                    host@,
                    t,
                    old(self).limit(),
                ),
            final(self).certs() == old(self).certs(),
            final(self).limit() == old(self).limit(),
    {
        let now = now_millis();
        self.record_usage_at(app_id, fingerprint, host, now);
        assert(self.usages() == after_usage(old(self).usages(), app_id@, fingerprint@, host@, now, old(self).limit()));
    }

    /// Check an observed certificate against the pins of an application.
    pub fn check_pinning(&self, app_id: &str, fingerprint: &str) -> (r: PinningResult)
        ensures
            r == pinning(self.certs(), app_id@, fingerprint@),
    {
        let ghost s = self.certs();
        let ghost p = pinned_for_app(app_id@);
        let ghost f = fingerprint_of();
        let mut any_pin = false;
        let mut matched = false;
        let mut i: usize = 0;
        proof {
            lemma_filter_take_zero(s, p);
        }
        while i < self.certs.len()
            invariant
                i <= self.certs@.len(),
                s == self.certs(),
                p == pinned_for_app(app_id@),
                f == fingerprint_of(),
                any_pin == (s.take(i as int).filter(p).len() > 0),
                matched == s.take(i as int).filter(p).map_values(f).contains(fingerprint@),
            decreases self.certs@.len() - i,
        {
            let c = &self.certs[i];
            let ghost t = s.take(i as int);
            proof {
                assert(s.take(i + 1) =~= t.push(c@));
                t.lemma_filter_push(c@, p);
            }
            if lists(&c.pinned_for, app_id) {
                any_pin = true;
                proof {
                    assert(t.push(c@).filter(p).map_values(f) =~= t.filter(p).map_values(f).push(c@.fingerprint));
                }
                let ghost before = t.filter(p).map_values(f);
                let ghost after = s.take(i + 1).filter(p).map_values(f);
                if str_eq(c.fingerprint.as_str(), fingerprint) {
                    matched = true;
                    assert(after[before.len() as int] == fingerprint@);
                } else {
                    proof {
                        if before.contains(fingerprint@) {
                            let j = choose|j: int| 0 <= j < before.len() && before[j] == fingerprint@;
                            assert(after[j] == fingerprint@);
                        }
                        if after.contains(fingerprint@) {
                            let j = choose|j: int| 0 <= j < after.len() && after[j] == fingerprint@;
                            if j < before.len() {
                                assert(before[j] == fingerprint@);
                            }
                        }
                    }
                }
            }
            i = i + 1;
        }
        assert(s.take(self.certs@.len() as int) =~= s);
        if !any_pin {
            PinningResult::NoPin
        } else if matched {
            PinningResult::PinMatch
        } else {
            PinningResult::PinViolation
        }
    }

    /// The certificate with a fingerprint.
    pub fn get(&self, fingerprint: &str) -> (r: Option<&Certificate>)
        ensures
            match r {
                Some(c) => first_index(self.certs(), with_fingerprint(fingerprint@)) >= 0 && c@ == self.certs()[first_index(
                    self.certs(),
                    with_fingerprint(fingerprint@),
                )],
                None => first_index(self.certs(), with_fingerprint(fingerprint@)) < 0,
            },
    {
        match self.cert_index(fingerprint) {
            Some(k) => Some(&self.certs[k]),
            None => None,
        }
    }

    fn select(&self, q: &CertQuery) -> (r: Vec<&Certificate>)
        ensures
            cert_views(r@) == self.certs().filter(query_pred(*q)),
    {
        let ghost s = self.certs();
        let ghost p = query_pred(*q);
        let mut r: Vec<&Certificate> = Vec::new();
        let mut i: usize = 0;
        proof {
            lemma_filter_take_zero(s, p);
            assert(cert_views(r@) =~= Seq::<CertView>::empty());
        }
        while i < self.certs.len()
            invariant
                i <= self.certs@.len(),
                s == self.certs(),
                p == query_pred(*q),
                cert_views(r@) == s.take(i as int).filter(p),
            decreases self.certs@.len() - i,
        {
            let c = &self.certs[i];
            proof {
                assert(s.take(i + 1) =~= s.take(i as int).push(c@));
                s.take(i as int).lemma_filter_push(c@, p);
            }
            if query_matches(c, q) {
                let ghost before = cert_views(r@);
                r.push(c);
                assert(cert_views(r@) =~= before.push(c@));
            }
            i = i + 1;
        }
        assert(s.take(self.certs@.len() as int) =~= s);
        r
    }

    /// Certificates that expire within `days` days of the given instant.
    pub fn expiring_within_at(&self, days: i64, now: Timestamp) -> (r: Vec<&Certificate>)
        ensures
            cert_views(r@) == self.certs().filter(expiring(days, now)),
    {
        self.select(&CertQuery::Expiring(days, now))
    }

    /// Certificates that expire within `days` days.
    pub fn expiring_within(&self, days: i64) -> (r: Vec<&Certificate>)
        ensures
            exists|t: Timestamp| cert_views(r@) == self.certs().filter(#[trigger] expiring(days, t)),
    {
        let now = now_millis();
        let r = self.expiring_within_at(days, now);
        assert(cert_views(r@) == self.certs().filter(expiring(days, now)));
        r
    }

    /// Certificates expired at the given instant.
    pub fn expired_at(&self, now: Timestamp) -> (r: Vec<&Certificate>)
        ensures
            cert_views(r@) == self.certs().filter(expired(now)),
    {
        self.select(&CertQuery::Expired(now))
    }

    /// Expired certificates.
    pub fn expired(&self) -> (r: Vec<&Certificate>)
        ensures
            exists|t: Timestamp| cert_views(r@) == self.certs().filter(#[trigger] expired(t)),
    {
        let now = now_millis();
        let r = self.expired_at(now);
        assert(cert_views(r@) == self.certs().filter(expired(now)));
        r
    }

    /// Certificates with weak keys.
    pub fn weak_keys(&self) -> (r: Vec<&Certificate>)
        ensures
            cert_views(r@) == self.certs().filter(weak()),
    {
        self.select(&CertQuery::Weak)
    }

    /// Certificate authorities.
    pub fn cas(&self) -> (r: Vec<&Certificate>)
        ensures
            cert_views(r@) == self.certs().filter(is_ca()),
    {
        self.select(&CertQuery::Ca)
    }

    /// Usage records of an application, oldest first.
    pub fn usage_for_app(&self, app_id: &str) -> (r: Vec<&CertUsage>)
        ensures
            usage_views(r@) == self.usages().filter(usage_of(app_id@)),
    {
        let ghost s = self.usages();
        let ghost p = usage_of(app_id@);
        let mut r: Vec<&CertUsage> = Vec::new();
        let mut i: usize = 0;
        proof {
            lemma_filter_take_zero(s, p);
            assert(usage_views(r@) =~= Seq::<UsageView>::empty());
        }
        while i < self.usage.len()
            invariant
                i <= self.usage@.len(),
                s == self.usages(),
                p == usage_of(app_id@),
                usage_views(r@) == s.take(i as int).filter(p),
            decreases self.usage@.len() - i,
        {
            let u = &self.usage[i];
            proof {
                assert(s.take(i + 1) =~= s.take(i as int).push(u@));
                s.take(i as int).lemma_filter_push(u@, p);
            }
            if str_eq(u.app_id.as_str(), app_id) {
                let ghost before = usage_views(r@);
                r.push(u);
                assert(usage_views(r@) =~= before.push(u@));
            }
            i = i + 1;
        }
        assert(s.take(self.usage@.len() as int) =~= s);
        r
    }

    pub fn cert_count(&self) -> (r: usize)
        ensures
            r == self.certs().len(),
    {
        self.certs.len()
    }

    pub fn usage_count(&self) -> (r: usize)
        ensures
            r == self.usages().len(),
    {
        self.usage.len()
    }
}

impl Default for CertTracker {
    fn default() -> (r: Self)
        ensures
            r.certs() == Seq::<CertView>::empty(),
            r.usages() == Seq::<UsageView>::empty(),
            r.limit() == 10_000,
    {
        Self::new()
    }
}

} // verus!
