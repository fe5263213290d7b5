//! Instants, calendar dates and the date-range filter. Parsing and the
//! local time zone are chrono's.

use vstd::prelude::*;
use chrono::{DateTime, Datelike, Local, NaiveDate, NaiveDateTime, Timelike};
use crate::text::decimal;

verus! {

/// An instant in UTC: whole seconds since the Unix epoch and the
/// nanoseconds past that second.
#[derive(Clone, Copy, Debug, PartialEq, Eq, Structural)]
pub struct UtcInstant {
    pub secs: i64,
    pub nanos: u32,
}

/// Whether instant `a` comes strictly before instant `b`.
pub open spec fn before(a: UtcInstant, b: UtcInstant) -> bool {
    a.secs < b.secs || (a.secs == b.secs && a.nanos < b.nanos)
}

/// Whether instant `a` comes strictly before instant `b`.
pub fn is_before(a: &UtcInstant, b: &UtcInstant) -> (r: bool)
    ensures
        r == before(*a, *b),
{
    a.secs < b.secs || (a.secs == b.secs && a.nanos < b.nanos)
}

/// A calendar date.
#[derive(Clone, Copy, Debug, PartialEq, Eq, Structural)]
pub struct CalendarDate {
    pub year: i32,
    pub month: u32,
    pub day: u32,
}

/// A date and time of day on the local clock.
#[derive(Clone, Copy, Debug, PartialEq, Eq, Structural)]
pub struct LocalDateTime {
    pub date: CalendarDate,
    pub hour: u32,
    pub minute: u32,
    pub second: u32,
}

/// The instant that chrono's `DateTime::parse_from_rfc3339` reads from a text.
pub uninterp spec fn rfc3339_instant(ts: Seq<char>) -> Option<UtcInstant>;

/// The instant that chrono's `NaiveDateTime::parse_from_str` reads from a
/// text with a format, taken as UTC.
pub uninterp spec fn naive_instant(ts: Seq<char>, fmt: Seq<char>) -> Option<UtcInstant>;

/// Calls chrono's `DateTime::parse_from_rfc3339` and converts the result to
/// UTC seconds and nanoseconds; the contract names it `rfc3339_instant`. An
/// instant found is one `from_timestamp` accepts: chrono documents that
/// `timestamp` and `timestamp_subsec_nanos` round-trip through it.
#[verifier::external_body]
fn parse_rfc3339(ts: &str) -> (r: Option<UtcInstant>)
    ensures
        r == rfc3339_instant(ts@),
        r matches Some(u) ==> representable(u),
{
    DateTime::parse_from_rfc3339(ts).ok().map(|d| UtcInstant { secs: d.timestamp(), nanos: d.timestamp_subsec_nanos() })
}

/// Calls chrono's `NaiveDateTime::parse_from_str` and reads the result as
/// UTC; the contract names it `naive_instant`. An instant found is one
/// `from_timestamp` accepts (the documented round trip).
#[verifier::external_body]
fn parse_naive(ts: &str, fmt: &str) -> (r: Option<UtcInstant>)
    ensures
        r == naive_instant(ts@, fmt@),
        r matches Some(u) ==> representable(u),
{
    NaiveDateTime::parse_from_str(ts, fmt).ok().map(|n| {
        let d = n.and_utc();
        UtcInstant { secs: d.timestamp(), nanos: d.timestamp_subsec_nanos() }
    })
}

/// The instant a timestamp text denotes: RFC 3339 first, then three
/// offset-free forms read as UTC.
pub open spec fn utc_parse(ts: Seq<char>) -> Option<UtcInstant> {
    if rfc3339_instant(ts) is Some {
        rfc3339_instant(ts)
    } else if naive_instant(ts, "%Y-%m-%dT%H:%M:%S%.f"@) is Some {
        naive_instant(ts, "%Y-%m-%dT%H:%M:%S%.f"@)
    } else if naive_instant(ts, "%Y-%m-%dT%H:%M:%S"@) is Some {
        naive_instant(ts, "%Y-%m-%dT%H:%M:%S"@)
    } else {
        naive_instant(ts, "%Y-%m-%d %H:%M:%S"@)
    }
}

/// Parses a timestamp (see `utc_parse`); an instant found is one chrono can
/// represent.
pub fn parse_utc(ts: &str) -> (r: Option<UtcInstant>)
    ensures
        r == utc_parse(ts@),
        r matches Some(u) ==> representable(u),
{
    let a = parse_rfc3339(ts);
    if a.is_some() {
        return a;
    }
    let b = parse_naive(ts, "%Y-%m-%dT%H:%M:%S%.f");
    if b.is_some() {
        return b;
    }
    let c = parse_naive(ts, "%Y-%m-%dT%H:%M:%S");
    if c.is_some() {
        return c;
    }
    parse_naive(ts, "%Y-%m-%d %H:%M:%S")
}

/// Whether chrono's `DateTime::from_timestamp` accepts the instant, as its
/// source shows: its day lies within chrono's range of dates (from
/// January 1 of the year -262143 to December 31 of the year 262142), and the
/// nanoseconds are below one second, or below two in the last second of a
/// minute (a leap second).
pub open spec fn representable(i: UtcInstant) -> bool {
    &&& days_from_civil(-262143, 1, 1) <= i.secs / 86400 <= days_from_civil(262142, 12, 31)
    &&& (i.nanos < 1_000_000_000 || (i.nanos < 2_000_000_000 && i.secs % 60 == 59))
}

/// The number of days from 1970-01-01 to a date of the proleptic Gregorian
/// calendar (year 0 being 1 BCE).
pub open spec fn days_from_civil(year: int, month: int, day: int) -> int {
    let y = if month <= 2 { year - 1 } else { year };
    let era = y / 400;
    let yoe = y - era * 400;
    let mp = if month > 2 { month - 3 } else { month + 9 };
    let doy = (153 * mp + 2) / 5 + day - 1;
    let doe = yoe * 365 + yoe / 4 - yoe / 100 + doy;
    era * 146097 + doe - 719468
}

/// The seconds from 1970-01-01 00:00:00 to a clock reading, read as if it
/// were UTC.
pub open spec fn wall_seconds(p: LocalDateTime) -> int {
    days_from_civil(p.date.year as int, p.date.month as int, p.date.day as int) * 86400
        + p.hour * 3600 + p.minute * 60 + p.second
}

/// Whether the fields of a clock reading lie in their ranges.
pub open spec fn clock_fields_valid(p: LocalDateTime) -> bool {
    &&& 1 <= p.date.month <= 12
    &&& 1 <= p.date.day <= 31
    &&& p.hour < 24
    &&& p.minute < 60
    &&& p.second < 60
}

/// Whether `p` is what a clock that runs ahead of UTC by some offset of
/// less than a day (either way) shows at instant `i`.
pub open spec fn local_reading(i: UtcInstant, p: LocalDateTime) -> bool {
    &&& clock_fields_valid(p)
    &&& i.secs - 86400 < wall_seconds(p) < i.secs + 86400
}

/// The decimal text of `n` with zeros in front up to `width` digits.
pub open spec fn zero_padded(n: nat, width: nat) -> Seq<char> {
    let d = decimal(n);
    let pad: nat = if d.len() < width { (width - d.len()) as nat } else { 0 };
    Seq::new(pad, |k: int| '0') + d
}

/// A year as `%Y` writes it: four digits, zero-padded, with a sign in front
/// outside 0..=9999.
pub open spec fn year_text(y: int) -> Seq<char> {
    if 0 <= y <= 9999 {
        zero_padded(y as nat, 4)
    } else if y < 0 {
        seq!['-'] + zero_padded((-y) as nat, 4)
    } else {
        seq!['+'] + zero_padded(y as nat, 4)
    }
}

/// A clock reading as `%Y-%m-%d %H:%M:%S` writes it; in a leap second the
/// seconds read one more.
pub open spec fn clock_text(p: LocalDateTime, leap: bool) -> Seq<char> {
    let s: nat = if leap { (p.second + 1) as nat } else { p.second as nat };
    year_text(p.date.year as int) + seq!['-'] + zero_padded(p.date.month as nat, 2) + seq!['-']
        + zero_padded(p.date.day as nat, 2) + seq![' '] + zero_padded(p.hour as nat, 2) + seq![':']
        + zero_padded(p.minute as nat, 2) + seq![':'] + zero_padded(s, 2)
}

/// Reads an instant on the local clock with chrono: `DateTime::from_timestamp`,
/// `with_timezone(&Local)`, the `Datelike`/`Timelike` getters and
/// `format("%Y-%m-%d %H:%M:%S")`. The offset the time zone applies depends
/// on the machine and is not stated. Stated is what chrono's source and
/// documentation show whatever the offset: exactly the representable
/// instants are accepted; the reading has valid fields and differs from the instant by
/// less than a day (the bound of `FixedOffset`); and the text is the reading
/// in that format (`%Y` zero-padded to four digits with a sign outside
/// 0..=9999, the other fields to two digits, a leap second shown as 60).
#[verifier::external_body]
fn local_clock(i: &UtcInstant) -> (r: Option<(LocalDateTime, String)>)
    ensures
        r is Some <==> representable(*i),
        r matches Some((p, t)) ==> local_reading(*i, p) && t@ == clock_text(p, i.nanos >= 1_000_000_000),
{
    match DateTime::from_timestamp(i.secs, i.nanos) {
        Some(d) => {
            let l = d.with_timezone(&Local);
            let p = LocalDateTime {
                date: CalendarDate { year: l.year(), month: l.month(), day: l.day() },
                hour: l.hour(), minute: l.minute(), second: l.second(),
            };
            Some((p, l.format("%Y-%m-%d %H:%M:%S").to_string()))
        },
        None => None,
    }
}

/// Whether `t` is a text that `fmt_local` can give for the instant `d`:
/// not empty exactly when chrono can represent `d`, and then a local
/// reading of `d` (within a day of UTC) written as `YYYY-MM-DD HH:MM:SS`.
pub open spec fn local_text(d: UtcInstant, t: Seq<char>) -> bool {
    &&& t.len() > 0 <==> representable(d)
    &&& (t.len() == 0 || exists|p: LocalDateTime| local_reading(d, p) && t == clock_text(p, d.nanos >= 1_000_000_000))
}

/// The instant as local date and time text, `YYYY-MM-DD HH:MM:SS`: the
/// reading of some local clock less than a day off UTC (which one is the
/// machine's time zone). Empty only when chrono cannot represent the instant.
pub fn fmt_local(dt: &UtcInstant) -> (r: String)
    ensures
        local_text(*dt, r@),
{
    match local_clock(dt) {
        Some((_, t)) => t,
        None => String::new(),
    }
}

/// Today's date on the local clock, from chrono's `Local::now`. It depends
/// on the time of the call; stated is only the documented range of month
/// and day.
#[verifier::external_body]
fn today_local() -> (r: CalendarDate)
    ensures
        1 <= r.month <= 12,
        1 <= r.day <= 31,
{
    let d = Local::now().date_naive();
    CalendarDate { year: d.year(), month: d.month(), day: d.day() }
}

/// The instant at which the local clock shows the given date and time, with
/// chrono (`NaiveDate::from_ymd_opt`, `and_hms_opt`, `and_local_timezone`,
/// `single`). Whether the local time exists and is unambiguous, and the
/// offset, depend on the machine's time zone and are not stated. Stated is
/// what chrono documents whatever the offset: an invalid time of day or
/// month/day number gives `None`, and an instant found has no nanoseconds
/// and lies less than a day (the bound of `FixedOffset`) from the reading
/// taken as UTC.
#[verifier::external_body]
fn local_to_instant(d: &CalendarDate, hour: u32, minute: u32, second: u32) -> (r: Option<UtcInstant>)
    ensures
        (hour >= 24 || minute >= 60 || second >= 60) ==> r is None,
        (d.month == 0 || d.month > 12 || d.day == 0 || d.day > 31) ==> r is None,
        r matches Some(u) ==> u.nanos == 0 && u.secs - 86400
            < wall_seconds((LocalDateTime { date: *d, hour, minute, second })) < u.secs + 86400,
{
    NaiveDate::from_ymd_opt(d.year, d.month, d.day)
        .and_then(|n| n.and_hms_opt(hour, minute, second))
        .and_then(|n| n.and_local_timezone(Local).single())
        .map(|l| UtcInstant { secs: l.timestamp(), nanos: l.timestamp_subsec_nanos() })
}

/// Whether `r` is an instant that the end of range `f` can stand for:
/// nothing when `f` is disabled or its date or time of day is out of range;
/// otherwise the instant at which the local clock shows `f`'s date and time,
/// as the machine's time zone gives it (nothing where the zone skips or
/// repeats that reading), in whole seconds and less than a day from the
/// reading taken as UTC.
pub open spec fn resolves(f: DateFilter, r: Option<UtcInstant>) -> bool {
    &&& !f.enabled ==> r is None
    &&& (f.hour >= 24 || f.minute >= 60 || f.second >= 60) ==> r is None
    &&& (f.date.month == 0 || f.date.month > 12 || f.date.day == 0 || f.date.day > 31) ==> r is None
    &&& r matches Some(u) ==> u.nanos == 0 && u.secs - 86400
        < wall_seconds((LocalDateTime { date: f.date, hour: f.hour, minute: f.minute, second: f.second }))
        < u.secs + 86400
}

/// One end of the time range that records are filtered by, on the local
/// clock; it takes part in filtering only when `enabled`.
#[derive(Clone, Copy, Debug)]
pub struct DateFilter {
    pub date: CalendarDate,
    pub hour: u32,
    pub minute: u32,
    pub second: u32,
    pub enabled: bool,
}

impl DateFilter {
    /// A disabled filter at midnight today.
    pub fn empty() -> (r: DateFilter)
        ensures
            !r.enabled,
            r.hour == 0 && r.minute == 0 && r.second == 0,
            1 <= r.date.month <= 12 && 1 <= r.date.day <= 31,
    {
        DateFilter { date: today_local(), hour: 0, minute: 0, second: 0, enabled: false }
    }

    /// A disabled filter at the given local date and time.
    pub fn from_local_dt(dt: LocalDateTime) -> (r: DateFilter)
        ensures
            !r.enabled,
            r.date == dt.date && r.hour == dt.hour && r.minute == dt.minute && r.second == dt.second,
    {
        DateFilter { date: dt.date, hour: dt.hour, minute: dt.minute, second: dt.second, enabled: false }
    }

    /// A disabled filter at the local date and time of an instant (the
    /// reading of a clock less than a day off UTC, which one being the
    /// machine's time zone); `None` only when chrono cannot represent the
    /// instant.
    pub fn from_instant(i: &UtcInstant) -> (r: Option<DateFilter>)
        ensures
            r is Some <==> representable(*i),
            r matches Some(f) ==> !f.enabled
                && local_reading(*i, (LocalDateTime { date: f.date, hour: f.hour, minute: f.minute, second: f.second })),
    {
        match local_clock(i) {
            Some((p, _)) => Some(DateFilter::from_local_dt(p)),
            None => None,
        }
    }

    /// The instant this end of the range stands for (see `resolves`).
    pub fn to_utc(&self) -> (r: Option<UtcInstant>)
        ensures
            resolves(*self, r),
    {
        if !self.enabled {
            return None;
        }
        local_to_instant(&self.date, self.hour, self.minute, self.second)
    }
}

} // verus!
