//! Points in time, as `chrono::DateTime<Utc>` holds them: seconds since the
//! Unix epoch and a nanosecond part.
use vstd::prelude::*;

verus! {

/// The first second `chrono` can represent (`DateTime::<Utc>::MIN_UTC`).
pub const MIN_SECS: i64 = -8334601315200i64;

/// The last second `chrono` can represent (`DateTime::<Utc>::MAX_UTC`).
pub const MAX_SECS: i64 = 8210266876799i64;

/// 0000-01-01T00:00:00Z, the first second with a four-digit year.
pub const FOUR_DIGIT_YEAR_MIN: i64 = -62167219200i64;

/// 9999-12-31T23:59:59Z, the last second with a four-digit year.
pub const FOUR_DIGIT_YEAR_MAX: i64 = 253402300799i64;

/// A UTC point in time.
#[derive(Clone, Copy, Debug, PartialEq, Eq, Structural)]
pub struct Timestamp {
    /// Seconds since 1970-01-01T00:00:00Z.
    pub secs: i64,
    /// Nanoseconds into the second; a leap second counts from 1_000_000_000.
    pub nanos: u32,
}

impl Timestamp {
    /// The values `chrono::DateTime::<Utc>::from_timestamp` accepts.
    pub open spec fn valid(self) -> bool {
        &&& MIN_SECS <= self.secs <= MAX_SECS
        &&& (self.nanos < 1_000_000_000 || (self.nanos < 2_000_000_000 && self.secs % 60 == 59))
    }

    /// Its year is written with four digits, and it is not in a leap second.
    pub open spec fn in_four_digit_years(self) -> bool {
        &&& FOUR_DIGIT_YEAR_MIN <= self.secs <= FOUR_DIGIT_YEAR_MAX
        &&& self.nanos < 1_000_000_000
    }

    /// A reading of the clock as `Utc::now` gives it: at or after the epoch,
    /// and not inside a leap second.
    pub open spec fn is_clock_reading(self) -> bool {
        self.secs >= 0 && self.nanos < 1_000_000_000
    }

    /// The same second, without its fraction.
    pub open spec fn whole_second(self) -> Timestamp {
        Timestamp { secs: self.secs, nanos: 0 }
    }

    /// A timestamp from its parts, when `chrono` can represent it.
    pub fn from_parts(secs: i64, nanos: u32) -> (r: Option<Timestamp>)
        ensures
            r matches Some(t) ==> t == (Timestamp { secs, nanos }),
            r is Some <==> (Timestamp { secs, nanos }).valid(),
    {
        if secs < MIN_SECS || secs > MAX_SECS {
            return None;
        }
        // MIN_SECS is a whole number of minutes, so counting from it keeps
        // the second within the minute and avoids signed remainders.
        let from_min = (secs - MIN_SECS) as u64;
        let ok = nanos < 1_000_000_000 || (nanos < 2_000_000_000 && from_min % 60 == 59);
        assert((from_min as int) % 60 == (secs as int) % 60) by (nonlinear_arith)
            requires
                from_min as int == secs as int - MIN_SECS,
                MIN_SECS == -8334601315200int,
        ;
        if ok {
            Some(Timestamp { secs, nanos })
        } else {
            None
        }
    }

    /// Orders timestamps as `chrono` does: by second, then by fraction.
    pub open spec fn later_than(self, other: Timestamp) -> bool {
        self.secs > other.secs || (self.secs == other.secs && self.nanos > other.nanos)
    }

    /// `self > other`.
    pub fn is_later_than(&self, other: &Timestamp) -> (b: bool)
        ensures
            b == self.later_than(*other),
    {
        self.secs > other.secs || (self.secs == other.secs && self.nanos > other.nanos)
    }
}

/// The characters RFC 3339 timestamps are written with.
pub open spec fn is_rfc3339_char(c: char) -> bool {
    ('0' <= c && c <= '9') || c == '-' || c == '+' || c == ':' || c == '.' || c == 'T' || c == 'Z'
}

/// What `to_rfc3339_opts(SecondsFormat::Secs, true)` writes for a timestamp.
pub uninterp spec fn rfc3339_secs_text(secs: i64, nanos: u32) -> Seq<char>;

/// What `to_rfc3339()` writes for a timestamp.
pub uninterp spec fn rfc3339_text(secs: i64, nanos: u32) -> Seq<char>;

/// What `format("%Y-%m-%d")` writes for a timestamp.
pub uninterp spec fn ymd_text(secs: i64, nanos: u32) -> Seq<char>;

/// What `DateTime::parse_from_rfc3339(..).with_timezone(&Utc)` gives, as
/// seconds and nanoseconds.
pub uninterp spec fn rfc3339_parse(text: Seq<char>) -> Option<(i64, u32)>;

/// `chrono::Utc::now()`. Claimed of every outcome: it is a valid timestamp
/// after the epoch and not inside a leap second (the source builds it from
/// `SystemTime::now()` through `DateTime::from_timestamp`).
#[verifier::external_body]
pub(crate) fn now() -> (t: Timestamp)
    ensures
        t.valid(),
        t.is_clock_reading(),
{
    let d = chrono::Utc::now();
    Timestamp { secs: d.timestamp(), nanos: d.timestamp_subsec_nanos() }
}

/// `DateTime::<Utc>::to_rfc3339_opts(SecondsFormat::Secs, true)`: named by
/// `rfc3339_secs_text`, written only with the characters of dates, times,
/// signs and the `Z` zone; for a year of four digits (the only ones
/// `parse_from_rfc3339` reads), it reads back as the same whole second.
#[verifier::external_body]
pub(crate) fn format_rfc3339_secs(t: &Timestamp) -> (s: String)
    requires
        t.valid(),
    ensures
        s@ == rfc3339_secs_text(t.secs, t.nanos),
        forall|i: int| 0 <= i < s@.len() ==> is_rfc3339_char(#[trigger] s@[i]),
        t.in_four_digit_years() ==> rfc3339_parse(s@) == Some((t.secs, 0u32)),
{
    match chrono::DateTime::from_timestamp(t.secs, t.nanos) {
        Some(d) => d.to_rfc3339_opts(chrono::SecondsFormat::Secs, true),
        None => String::new(),
    }
}

/// `DateTime::<Utc>::to_rfc3339()`: named by `rfc3339_text`.
#[verifier::external_body]
pub(crate) fn format_rfc3339(t: &Timestamp) -> (s: String)
    requires
        t.valid(),
    ensures
        s@ == rfc3339_text(t.secs, t.nanos),
{
    match chrono::DateTime::from_timestamp(t.secs, t.nanos) {
        Some(d) => d.to_rfc3339(),
        None => String::new(),
    }
}

/// `DateTime::<Utc>::format("%Y-%m-%d").to_string()`: named by `ymd_text`.
#[verifier::external_body]
pub(crate) fn format_ymd(t: &Timestamp) -> (s: String)
    requires
        t.valid(),
    ensures
        s@ == ymd_text(t.secs, t.nanos),
{
    match chrono::DateTime::from_timestamp(t.secs, t.nanos) {
        Some(d) => d.format("%Y-%m-%d").to_string(),
        None => String::new(),
    }
}

/// `DateTime::parse_from_rfc3339(s)` converted to UTC: named by
/// `rfc3339_parse`, and always a timestamp `chrono` can represent.
#[verifier::external_body]
pub(crate) fn parse_rfc3339(s: &str) -> (r: Option<Timestamp>)
    ensures
        r matches Some(t) ==> rfc3339_parse(s@) == Some((t.secs, t.nanos)) && t.valid(),
        r is None ==> rfc3339_parse(s@) is None,
{
    match chrono::DateTime::parse_from_rfc3339(s) {
        Ok(d) => {
            let u = d.with_timezone(&chrono::Utc);
            Some(Timestamp { secs: u.timestamp(), nanos: u.timestamp_subsec_nanos() })
        },
        Err(_) => None,
    }
}

} // verus!
