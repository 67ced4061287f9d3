//! Instants in UTC and the calendar texts derived from them.

use vstd::prelude::*;

verus! {

/// An instant in UTC: whole seconds since the Unix epoch, and the
/// nanoseconds past that second (at or above one billion inside a leap second).
#[derive(Clone, Copy, Debug, PartialEq, Eq, Structural)]
pub struct Timestamp {
    pub secs: i64,
    pub nanos: u32,
}

/// Strict chronological order of two instants.
pub open spec fn ts_before(a: Timestamp, b: Timestamp) -> bool {
    a.secs < b.secs || (a.secs == b.secs && a.nanos < b.nanos)
}

/// The instant that an RFC 3339 text denotes, as seconds and nanoseconds.
pub uninterp spec fn rfc3339_instant(s: Seq<char>) -> Option<(i64, u32)>;

/// The instant that a text in chrono's relaxed RFC 3339 form denotes (a
/// space may separate date and time, the offset may lack its colon).
pub uninterp spec fn relaxed_instant(s: Seq<char>) -> Option<(i64, u32)>;

/// The instant `days` whole days before `now`, saturating at the earliest
/// second that the seconds count can hold.
pub open spec fn days_before(now: Timestamp, days: u32) -> Timestamp {
    if now.secs - days * 86400 >= i64::MIN {
        Timestamp { secs: (now.secs - days * 86400) as i64, nanos: now.nanos }
    } else {
        Timestamp { secs: i64::MIN, nanos: now.nanos }
    }
}

/// The calendar day of an instant in UTC, written `YYYY-MM-DD`.
pub uninterp spec fn calendar_day(secs: i64, nanos: u32) -> Seq<char>;

/// The calendar month of an instant in UTC, written `YYYY-MM`.
pub uninterp spec fn calendar_month(secs: i64, nanos: u32) -> Seq<char>;

impl Timestamp {
    /// Within the calendar range that the formatting of instants accepts.
    pub open spec fn representable(self) -> bool {
        -8_000_000_000_000 <= self.secs <= 8_000_000_000_000 && (self.nanos < 1_000_000_000 || (
        self.secs >= 0 && self.secs % 60 == 59 && self.nanos < 2_000_000_000))
    }

    pub fn is_representable(&self) -> (r: bool)
        ensures
            r == self.representable(),
    {
        -8_000_000_000_000 <= self.secs && self.secs <= 8_000_000_000_000 && (self.nanos
            < 1_000_000_000 || (self.secs >= 0 && self.secs % 60 == 59 && self.nanos
            < 2_000_000_000))
    }

    pub fn before(&self, other: &Timestamp) -> (r: bool)
        ensures
            r == ts_before(*self, *other),
    {
        self.secs < other.secs || (self.secs == other.secs && self.nanos < other.nanos)
    }

    /// The instant that lies `days` whole days earlier, saturating at the
    /// earliest representable second.
    pub fn days_earlier(&self, days: u32) -> (r: Timestamp)
        ensures
            r == days_before(*self, days),
    {
        let span: i64 = days as i64 * 86400;
        if self.secs >= i64::MIN + span {
            Timestamp { secs: self.secs - span, nanos: self.nanos }
        } else {
            Timestamp { secs: i64::MIN, nanos: self.nanos }
        }
    }

    /// The calendar day of the instant, `YYYY-MM-DD`.
    pub fn day_text(&self) -> (r: String)
        requires
            self.representable(),
        ensures
            r@ == calendar_day(self.secs, self.nanos),
    {
        format_day(self.secs, self.nanos)
    }

    /// The calendar month of the instant, `YYYY-MM`.
    pub fn month_text(&self) -> (r: String)
        requires
            self.representable(),
        ensures
            r@ == calendar_month(self.secs, self.nanos),
    {
        format_month(self.secs, self.nanos)
    }

    /// The instant that a text in the relaxed RFC 3339 form denotes, if it
    /// is one.
    pub fn parse_relaxed(s: &str) -> (r: Option<Timestamp>)
        ensures
            r == (match relaxed_instant(s@) {
                Some(p) => Some(Timestamp { secs: p.0, nanos: p.1 }),
                None => None,
            }),
    {
        match parse_relaxed_rfc3339(s) {
            Some(p) => Some(Timestamp { secs: p.0, nanos: p.1 }),
            None => None,
        }
    }

    /// The instant that an RFC 3339 text denotes, if it is one.
    pub fn parse(s: &str) -> (r: Option<Timestamp>)
        ensures
            r == (match rfc3339_instant(s@) {
                Some(p) => Some(Timestamp { secs: p.0, nanos: p.1 }),
                None => None,
            }),
    {
        match parse_rfc3339(s) {
            Some(p) => Some(Timestamp { secs: p.0, nanos: p.1 }),
            None => None,
        }
    }
}

/// Relies on chrono's `FromStr for DateTime<FixedOffset>`, the relaxed form
/// that its serde support reads, then `timestamp` and
/// `timestamp_subsec_nanos`: the instant depends on the text alone.
#[verifier::external_body]
fn parse_relaxed_rfc3339(s: &str) -> (r: Option<(i64, u32)>)
    ensures
        r == relaxed_instant(s@),
{
    match s.parse::<chrono::DateTime<chrono::FixedOffset>>() {
        Ok(d) => Some((d.timestamp(), d.timestamp_subsec_nanos())),
        Err(_) => None,
    }
}

/// Relies on chrono's `DateTime::parse_from_rfc3339`, then `timestamp` and
/// `timestamp_subsec_nanos`: the instant depends on the text alone.
#[verifier::external_body]
fn parse_rfc3339(s: &str) -> (r: Option<(i64, u32)>)
    ensures
        r == rfc3339_instant(s@),
{
    match chrono::DateTime::parse_from_rfc3339(s) {
        Ok(d) => Some((d.timestamp(), d.timestamp_subsec_nanos())),
        Err(_) => None,
    }
}

/// Relies on chrono's `DateTime::<Utc>::from_timestamp`, which gives a value
/// for every representable instant, and on its `format("%Y-%m-%d")`: the text
/// depends on the instant alone.
#[verifier::external_body]
fn format_day(secs: i64, nanos: u32) -> (r: String)
    requires
        (Timestamp { secs, nanos }).representable(),
    ensures
        r@ == calendar_day(secs, nanos),
{
    chrono::DateTime::from_timestamp(secs, nanos).unwrap().format("%Y-%m-%d").to_string()
}

/// Relies on chrono's `DateTime::<Utc>::from_timestamp`, which gives a value
/// for every representable instant, and on its `format("%Y-%m")`: the text
/// depends on the instant alone.
#[verifier::external_body]
fn format_month(secs: i64, nanos: u32) -> (r: String)
    requires
        (Timestamp { secs, nanos }).representable(),
    ensures
        r@ == calendar_month(secs, nanos),
{
    chrono::DateTime::from_timestamp(secs, nanos).unwrap().format("%Y-%m").to_string()
}

} // verus!
