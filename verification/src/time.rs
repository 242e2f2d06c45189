//! Instants of time: the clock, reading and printing them, and the time between two.

use vstd::prelude::*;

verus! {

/// The first second that an instant can lie in.
pub const FIRST_SECOND: i64 = -8_334_601_228_800;

/// The last second that an instant can lie in.
pub const LAST_SECOND: i64 = 8_210_266_876_799;

/// Seconds that Beijing is ahead of UTC.
pub const BEIJING_OFFSET: i32 = 28_800;

/// An instant: seconds since 1970-01-01T00:00:00Z, and nanoseconds since that second. In a leap
/// second the nanoseconds go beyond 999,999,999.
#[derive(Debug, Clone, Copy, PartialEq, Eq, Structural)]
pub struct UtcTime {
    pub secs: i64,
    pub nanos: u32,
}

impl UtcTime {
    /// Whether the instant can be represented.
    pub open spec fn wf(self) -> bool {
        valid_instant(self.secs as int, self.nanos as int)
    }
}

/// Whether seconds and nanoseconds make an instant. Only the last second of a minute can be
/// followed by a leap second.
pub open spec fn valid_instant(secs: int, nanos: int) -> bool {
    &&& FIRST_SECOND <= secs <= LAST_SECOND
    &&& 0 <= nanos < 2_000_000_000
    &&& nanos >= 1_000_000_000 ==> secs % 60 == 59
}

/// Seconds and nanoseconds of an instant.
pub open spec fn opt_instant(v: Option<UtcTime>) -> Option<(i64, u32)> {
    match v {
        Some(t) => Some((t.secs, t.nanos)),
        None => None,
    }
}

/// The instant of seconds and nanoseconds.
pub open spec fn instant(v: Option<(i64, u32)>) -> Option<UtcTime> {
    match v {
        Some(t) => Some(UtcTime { secs: t.0, nanos: t.1 }),
        None => None,
    }
}

/// Nanoseconds from `b` to `a`. A leap second in which one of the two lies counts, where the other
/// lies at another time of day on the later side of it.
pub open spec fn nanos_between(a: UtcTime, b: UtcTime) -> int {
    let a_clock = a.secs % 86_400;
    let b_clock = b.secs % 86_400;
    let leap = if a_clock > b_clock && b.nanos >= 1_000_000_000 {
        1int
    } else if a_clock < b_clock && a.nanos >= 1_000_000_000 {
        -1int
    } else {
        0int
    };
    (a.secs - b.secs + leap) * 1_000_000_000 + (a.nanos - b.nanos)
}

/// Division that drops the fraction.
pub open spec fn quotient(n: int, d: int) -> int {
    if n < 0 {
        -((-n) / d)
    } else {
        n / d
    }
}

/// Whole seconds from `b` to `a`, a fraction of a second dropped.
pub open spec fn seconds_between(a: UtcTime, b: UtcTime) -> int {
    quotient(nanos_between(a, b), 1_000_000_000)
}

/// A stretch of time.
#[derive(Debug, Clone, Copy, PartialEq, Eq, Structural)]
pub struct Span {
    pub secs: u64,
    pub nanos: u32,
}

impl Span {
    /// How many nanoseconds it lasts.
    pub open spec fn total(self) -> int {
        self.secs * 1_000_000_000 + self.nanos
    }

    /// Whether it lasts at least as long as the other.
    pub fn lasts(&self, other: &Span) -> (r: bool)
        ensures
            r == (self.total() >= other.total()),
    {
        self.secs as u128 * 1_000_000_000 + self.nanos as u128 >= other.secs as u128 * 1_000_000_000
            + other.nanos as u128
    }
}

/// What an RFC 3339 text says, as seconds and nanoseconds in UTC, and `None` where it is not one.
pub uninterp spec fn rfc3339_instant(s: Seq<char>) -> Option<(i64, u32)>;

/// What a text says that follows the given pattern, as seconds and nanoseconds in UTC.
pub uninterp spec fn pattern_instant(s: Seq<char>, pattern: Seq<char>) -> Option<(i64, u32)>;

/// The instant printed by the pattern, `offset` seconds ahead of UTC.
pub uninterp spec fn strftime(secs: i64, nanos: u32, offset: i32, pattern: Seq<char>) -> Seq<char>;

/// The instant in RFC 3339, in UTC.
pub uninterp spec fn rfc3339_text(secs: i64, nanos: u32) -> Seq<char>;

/// The patterns that instants are printed with.
pub open spec fn print_pattern(pattern: Seq<char>) -> bool {
    pattern == "%Y-%m-%d %H:%M"@ || pattern == "%Y%m%d-%H%M%S"@ || pattern == "%Y-%m-%dT%H:%M:%SZ"@
}

/// `chrono::Utc::now`: the clock of the machine. Nothing is said of the instant but that it can be
/// represented, is not before 1970 and lies in no leap second. No argument decides what comes back; where
/// the clock stands before 1970 the call panics.
#[verifier::external_body]
pub(crate) fn now() -> (t: UtcTime)
    ensures
        t.wf(),
        t.secs >= 0,
        t.nanos < 1_000_000_000,
{
    let t = chrono::Utc::now();
    UtcTime { secs: t.timestamp(), nanos: t.timestamp_subsec_nanos() }
}

/// `chrono::DateTime::signed_duration_since` and `chrono::TimeDelta::num_seconds`: the whole seconds
/// from `b` to `a`, toward zero, leap seconds counted as `nanos_between` says.
#[verifier::external_body]
pub(crate) fn whole_seconds_between(a: UtcTime, b: UtcTime) -> (r: i64)
    requires
        a.wf(),
        b.wf(),
    ensures
        r == seconds_between(a, b),
{
    let x = chrono::DateTime::from_timestamp(a.secs, a.nanos).unwrap();
    let y = chrono::DateTime::from_timestamp(b.secs, b.nanos).unwrap();
    x.signed_duration_since(y).num_seconds()
}

/// `chrono::DateTime::parse_from_rfc3339`: the instant that the text says, where it is a valid RFC
/// 3339 date and time.
#[verifier::external_body]
pub(crate) fn parse_rfc3339(s: &str) -> (r: Option<UtcTime>)
    ensures
        opt_instant(r) == rfc3339_instant(s@),
        r matches Some(t) ==> t.wf(),
{
    let t = chrono::DateTime::parse_from_rfc3339(s).ok()?;
    Some(UtcTime { secs: t.timestamp(), nanos: t.timestamp_subsec_nanos() })
}

/// `chrono::DateTime::parse_from_str`: the instant that the text says by the pattern, which asks for
/// an offset in hours and minutes.
#[verifier::external_body]
pub(crate) fn parse_by_pattern(s: &str, pattern: &str) -> (r: Option<UtcTime>)
    requires
        pattern@ == "%Y-%m-%d %H:%M:%S %z"@,
    ensures
        opt_instant(r) == pattern_instant(s@, pattern@),
        r matches Some(t) ==> t.wf(),
{
    let t = chrono::DateTime::parse_from_str(s, pattern).ok()?;
    Some(UtcTime { secs: t.timestamp(), nanos: t.timestamp_subsec_nanos() })
}

/// `chrono::DateTime::format`: the instant as a clock shows it that is `offset` seconds ahead of UTC.
#[verifier::external_body]
pub(crate) fn print_by_pattern(t: UtcTime, offset: i32, pattern: &str) -> (s: String)
    requires
        t.wf(),
        -86_400 < offset < 86_400,
        print_pattern(pattern@),
    ensures
        s@ == strftime(t.secs, t.nanos, offset, pattern@),
{
    let zone = chrono::FixedOffset::east_opt(offset).unwrap();
    let local = chrono::DateTime::from_timestamp(t.secs, t.nanos).unwrap().with_timezone(&zone);
    local.format(pattern).to_string()
}

/// `chrono::DateTime::to_rfc3339`: the instant in RFC 3339, in UTC.
#[verifier::external_body]
pub(crate) fn print_rfc3339(t: UtcTime) -> (s: String)
    requires
        t.wf(),
    ensures
        s@ == rfc3339_text(t.secs, t.nanos),
{
    chrono::DateTime::from_timestamp(t.secs, t.nanos).unwrap().to_rfc3339()
}

} // verus!
