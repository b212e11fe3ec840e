//! Wall-clock time as plain integers.
//!
//! Instants are milliseconds since the Unix epoch (UTC). The only contact
//! with the system clock is [`now_millis`]; every decision that depends on
//! the current time has a verified variant that takes the instant as an
//! argument.

use vstd::prelude::*;

verus! {

/// Milliseconds since 1970-01-01T00:00:00Z.
pub type Timestamp = i64;

/// Milliseconds in one second.
pub const MILLIS_PER_SECOND: i64 = 1000;

/// Milliseconds in one day.
pub const MILLIS_PER_DAY: i64 = 86_400_000;

/// The current UTC time, read through `chrono::Utc::now` and converted
/// with `DateTime::timestamp_millis`. The value depends on the moment of
/// the call, so no clause is given: callers state what holds for every
/// value it may return.
#[verifier::external_body]
pub(crate) fn now_millis() -> (t: Timestamp) {
    chrono::Utc::now().timestamp_millis()
}

/// Whole days in a span of milliseconds, truncated toward zero (as
/// `chrono::Duration::num_days` counts them).
pub open spec fn whole_days(span: int) -> int {
    if span >= 0 {
        span / (MILLIS_PER_DAY as int)
    } else {
        -((-span) / (MILLIS_PER_DAY as int))
    }
}

/// Whole days from `earlier` to `later`, truncated toward zero.
pub fn days_between(later: Timestamp, earlier: Timestamp) -> (d: i64)
    ensures
        d == whole_days(later - earlier),
{
    let l = later as i128;
    let e = earlier as i128;
    let span: i128 = l - e;
    if span >= 0 {
        let q = span / 86_400_000i128;
        assert(q <= span);
        (q as i64)
    } else {
        let q = (-span) / 86_400_000i128;
        assert(q <= -span);
        (-q) as i64
    }
}

/// `t` moved back by `days` days, when that instant is representable.
pub open spec fn days_before(t: int, days: int) -> int {
    t - days * (MILLIS_PER_DAY as int)
}

/// The instant `days` days before `t`; `None` where it falls outside the
/// range of [`Timestamp`].
pub fn checked_days_before(t: Timestamp, days: i64) -> (r: Option<Timestamp>)
    ensures
        match r {
            Some(v) => v == days_before(t as int, days as int),
            None => !(i64::MIN <= days_before(t as int, days as int) <= i64::MAX),
        },
{
    let d = days as i128;
    let v: i128 = (t as i128) - d * 86_400_000i128;
    if v < i64::MIN as i128 || v > i64::MAX as i128 {
        None
    } else {
        Some(v as i64)
    }
}

/// The instant `secs` seconds before `t`.
pub open spec fn seconds_before(t: int, secs: int) -> int {
    t - secs * (MILLIS_PER_SECOND as int)
}

/// The instant `secs` seconds before `t`; `None` where it falls outside the
/// range of [`Timestamp`].
pub fn checked_seconds_before(t: Timestamp, secs: i64) -> (r: Option<Timestamp>)
    ensures
        match r {
            Some(v) => v == seconds_before(t as int, secs as int),
            None => !(i64::MIN <= seconds_before(t as int, secs as int) <= i64::MAX),
        },
{
    let v: i128 = (t as i128) - (secs as i128) * 1000i128;
    if v < i64::MIN as i128 || v > i64::MAX as i128 {
        None
    } else {
        Some(v as i64)
    }
}

/// The UTC hour of day (0 to 23) of an instant.
pub open spec fn hour_of(ms: int) -> int {
    (ms / 3_600_000) % 24
}

/// The UTC day of the week of an instant, Monday being 0 and Sunday 6
/// (1970-01-01 was a Thursday).
pub open spec fn weekday_of(ms: int) -> int {
    (ms / (MILLIS_PER_DAY as int) + 3) % 7
}

/// Shifting an instant by a whole number of weeks changes neither its hour
/// nor its day of the week.
proof fn lemma_shifted_clock(m: int)
    ensures
        ((m + 20_780_769_764_966_400_000) / 3_600_000) % 24 == hour_of(m),
        ((m + 20_780_769_764_966_400_000) / 86_400_000 + 3) % 7 == weekday_of(m),
{
    vstd::arithmetic::div_mod::lemma_hoist_over_denominator(m, 5_772_436_045_824, 3_600_000);
    assert(5_772_436_045_824 * 3_600_000 == 20_780_769_764_966_400_000);
    vstd::arithmetic::div_mod::lemma_mod_multiples_vanish(240_518_168_576, m / 3_600_000, 24);
    assert(24 * 240_518_168_576 == 5_772_436_045_824);
    vstd::arithmetic::div_mod::lemma_hoist_over_denominator(m, 240_518_168_576, 86_400_000);
    assert(240_518_168_576 * 86_400_000 == 20_780_769_764_966_400_000);
    vstd::arithmetic::div_mod::lemma_mod_multiples_vanish(34_359_738_368, m / 86_400_000 + 3, 7);
    assert(7 * 34_359_738_368 == 240_518_168_576);
    assert(m / 86_400_000 + 240_518_168_576 + 3 == 7 * 34_359_738_368 + (m / 86_400_000 + 3));
}

/// The UTC hour of day and day of the week (Monday 0) of an instant.
pub fn hour_and_weekday(ms: Timestamp) -> (r: (usize, usize))
    ensures
        r.0 == hour_of(ms as int),
        r.1 == weekday_of(ms as int),
        r.0 < 24,
        r.1 < 7,
{
    // A multiple of a week, large enough to make every instant non-negative.
    let shift: i128 = 20_780_769_764_966_400_000;
    let x: i128 = (ms as i128) + shift;
    assert(x >= 0);
    let hours: i128 = x / 3_600_000;
    let days: i128 = x / 86_400_000;
    let h = (hours % 24) as usize;
    let w = ((days + 3) % 7) as usize;
    proof {
        lemma_shifted_clock(ms as int);
    }
    (h, w)
}

} // verus!

verus! {

/// The text that chrono renders for the instant `millis` with the
/// strftime-style `pattern`, or `None` where chrono cannot represent the
/// instant.
pub uninterp spec fn utc_formatted(millis: i64, pattern: Seq<char>) -> Option<Seq<char>>;

/// The patterns this library renders instants with.
pub open spec fn is_utc_pattern(pattern: Seq<char>) -> bool {
    ||| pattern == "%Y-%m-%d %H:%M:%S UTC"@
    ||| pattern == "%Y-%m-%d"@
    ||| pattern == "%Y-%m"@
}

/// Renders an instant through `chrono::DateTime::from_timestamp_millis`
/// and `DateTime::format`. The contract claims only that the result is
/// chrono's rendering of the instant with the pattern, named
/// `utc_formatted`, and that it is absent exactly when chrono refuses the
/// instant; the calendar arithmetic is chrono's and is not restated. The
/// pattern is one of the few this library uses, all of which chrono
/// accepts.
#[verifier::external_body]
pub(crate) fn format_utc(millis: Timestamp, pattern: &str) -> (r: Option<String>)
    requires
        is_utc_pattern(pattern@),
    ensures
        match r {
            Some(s) => utc_formatted(millis, pattern@) == Some(s@),
            None => utc_formatted(millis, pattern@) is None,
        },
{
    match chrono::DateTime::from_timestamp_millis(millis) {
        Some(d) => Some(d.format(pattern).to_string()),
        None => None,
    }
}

/// chrono's `YYYY-MM-DD HH:MM:SS UTC` rendering of an instant, if any.
pub open spec fn utc_text(millis: i64) -> Option<Seq<char>> {
    utc_formatted(millis, "%Y-%m-%d %H:%M:%S UTC"@)
}

/// The text of an instant in reports: chrono's rendering, or the raw
/// millisecond count where chrono cannot represent the instant.
pub open spec fn instant_text(millis: i64) -> Seq<char> {
    match utc_text(millis) {
        Some(t) => t,
        None => crate::text::signed_decimal(millis as int),
    }
}

/// The text of an instant in reports.
pub fn format_instant(millis: Timestamp) -> (r: String)
    ensures
        r@ == instant_text(millis),
{
    match format_utc(millis, "%Y-%m-%d %H:%M:%S UTC") {
        Some(s) => s,
        None => crate::text::i64_to_decimal(millis),
    }
}

} // verus!
