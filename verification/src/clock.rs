//! Instants, times of day, days of the week, and London local time.

use crate::text::{digits, digits_value, run, trim_start, two_digits};
use chrono::{Offset, Timelike};
use vstd::prelude::*;

verus! {

// ---------------------------------------------------------------------------
// Days of the week
// ---------------------------------------------------------------------------

#[derive(Debug, Clone, Copy, PartialEq, Eq, Structural)]
pub enum Weekday {
    Mon,
    Tue,
    Wed,
    Thu,
    Fri,
    Sat,
    Sun,
}

/// The day that many days after Monday.
pub open spec fn weekday_at(n: int) -> Weekday {
    if n == 0 {
        Weekday::Mon
    } else if n == 1 {
        Weekday::Tue
    } else if n == 2 {
        Weekday::Wed
    } else if n == 3 {
        Weekday::Thu
    } else if n == 4 {
        Weekday::Fri
    } else if n == 5 {
        Weekday::Sat
    } else {
        Weekday::Sun
    }
}

/// How many days after Monday a day stands.
pub open spec fn day_number(d: Weekday) -> int {
    match d {
        Weekday::Mon => 0,
        Weekday::Tue => 1,
        Weekday::Wed => 2,
        Weekday::Thu => 3,
        Weekday::Fri => 4,
        Weekday::Sat => 5,
        Weekday::Sun => 6,
    }
}

/// The day that many days after Monday.
pub fn weekday_from_number(n: u32) -> (r: Weekday)
    requires
        n < 7,
    ensures
        r == weekday_at(n as int),
        day_number(r) == n,
{
    match n {
        0 => Weekday::Mon,
        1 => Weekday::Tue,
        2 => Weekday::Wed,
        3 => Weekday::Thu,
        4 => Weekday::Fri,
        5 => Weekday::Sat,
        _ => Weekday::Sun,
    }
}

// ---------------------------------------------------------------------------
// Times of day
// ---------------------------------------------------------------------------

/// A time of day: seconds since midnight, and nanoseconds.
#[derive(Debug, Clone, Copy, PartialEq, Eq, Structural)]
pub struct NaiveTime {
    pub secs: u32,
    pub nanos: u32,
}

/// The order of the times of a day.
pub open spec fn time_le(a: NaiveTime, b: NaiveTime) -> bool {
    a.secs < b.secs || (a.secs == b.secs && a.nanos <= b.nanos)
}

pub open spec fn time_lt(a: NaiveTime, b: NaiveTime) -> bool {
    a.secs < b.secs || (a.secs == b.secs && a.nanos < b.nanos)
}

impl NaiveTime {
    pub open spec fn wf(&self) -> bool {
        self.secs < 86_400
    }

    /// The time of day with that hour, minute and second, where there is one.
    pub fn from_hms_opt(hour: u32, minute: u32, second: u32) -> (r: Option<NaiveTime>)
        ensures
            r == if hour < 24 && minute < 60 && second < 60 {
                Some(NaiveTime { secs: (hour * 3600 + minute * 60 + second) as u32, nanos: 0 })
            } else {
                None::<NaiveTime>
            },
    {
        if hour < 24 && minute < 60 && second < 60 {
            Some(NaiveTime { secs: hour * 3600 + minute * 60 + second, nanos: 0 })
        } else {
            None
        }
    }

    pub fn not_after(&self, other: &NaiveTime) -> (r: bool)
        ensures
            r == time_le(*self, *other),
    {
        self.secs < other.secs || (self.secs == other.secs && self.nanos <= other.nanos)
    }

    pub fn is_before(&self, other: &NaiveTime) -> (r: bool)
        ensures
            r == time_lt(*self, *other),
    {
        self.secs < other.secs || (self.secs == other.secs && self.nanos < other.nanos)
    }
}

/// Hours and minutes, two digits each, with a colon between them.
pub open spec fn clock_text(secs: nat) -> Seq<char> {
    two_digits(secs / 3600) + seq![':'] + two_digits(secs / 60 % 60)
}

/// `NaiveTime::format` of chrono with the pattern `%H:%M`: the hour and the
/// minute, each padded with a zero to two digits, and a colon between them.
#[verifier::external_body]
pub(crate) fn hour_minute_text(secs: u32) -> (r: String)
    requires
        secs < 86_400,
    ensures
        r@ == clock_text(secs as nat),
{
    chrono::NaiveTime::from_num_seconds_from_midnight_opt(secs, 0).unwrap().format("%H:%M").to_string()
}

/// How many digits, two at most, stand at the start of a text.
pub open spec fn short_number(s: Seq<char>) -> int {
    if run(s, digits()) < 2 {
        run(s, digits())
    } else {
        2
    }
}

/// The hour and the minute that a text such as `7:05` names: one or two
/// digits, a colon, one or two digits; blanks may stand before either number.
pub open spec fn clock_reading(s: Seq<char>) -> Option<(nat, nat)> {
    let t = trim_start(s);
    let a = short_number(t);
    let rest = t.skip(a);
    if a == 0 || rest.len() == 0 || rest[0] != ':' {
        None
    } else {
        let u = trim_start(rest.skip(1));
        let b = short_number(u);
        let hour = digits_value(t.take(a));
        let minute = digits_value(u.take(b));
        if b == 0 || b < u.len() || hour > 23 || minute > 59 {
            None
        } else {
            Some((hour, minute))
        }
    }
}

/// `NaiveTime::parse_from_str` of chrono with the pattern `%H:%M`: succeeds
/// on the texts that have a clock reading, and gives that hour and minute.
#[verifier::external_body]
pub(crate) fn read_hour_minute(s: &str) -> (r: Option<(u32, u32)>)
    ensures
        match r {
            Some(hm) => clock_reading(s@) == Some((hm.0 as nat, hm.1 as nat)) && hm.0 < 24 && hm.1
                < 60,
            None => clock_reading(s@) is None,
        },
{
    chrono::NaiveTime::parse_from_str(s, "%H:%M").ok().map(|t| (t.hour(), t.minute()))
}

// ---------------------------------------------------------------------------
// Instants
// ---------------------------------------------------------------------------

/// The first second of the earliest year that the calendar covers.
pub const EARLIEST_SECOND: i64 = -8_334_601_228_800;

/// The last second of the latest year that the calendar covers.
pub const LATEST_SECOND: i64 = 8_210_266_876_799;

/// An instant: seconds since the start of 1970 in UTC, and nanoseconds.
#[derive(Debug, Clone, Copy, PartialEq, Eq, Structural)]
pub struct Timestamp {
    pub secs: i64,
    pub nanos: u32,
}

/// `a` is later than `b`.
pub open spec fn is_later(a: Timestamp, b: Timestamp) -> bool {
    a.secs > b.secs || (a.secs == b.secs && a.nanos > b.nanos)
}

pub open spec fn in_calendar(secs: int) -> bool {
    EARLIEST_SECOND <= secs <= LATEST_SECOND
}

impl Timestamp {
    pub open spec fn wf(&self) -> bool {
        in_calendar(self.secs as int) && self.nanos < 1_000_000_000
    }

    pub fn is_valid(&self) -> (r: bool)
        ensures
            r == self.wf(),
    {
        EARLIEST_SECOND <= self.secs && self.secs <= LATEST_SECOND && self.nanos < 1_000_000_000
    }

    pub fn later_than(&self, other: &Timestamp) -> (r: bool)
        ensures
            r == is_later(*self, *other),
    {
        self.secs > other.secs || (self.secs == other.secs && self.nanos > other.nanos)
    }

    /// Whether the instant that many minutes on is one the calendar covers.
    pub fn reaches(&self, minutes: i64) -> (r: bool)
        requires
            self.wf(),
        ensures
            r == in_calendar(self.secs + 60 * minutes),
    {
        if minutes < -1_000_000_000_000 || minutes > 1_000_000_000_000 {
            return false;
        }
        let secs: i64 = self.secs + 60 * minutes;
        EARLIEST_SECOND <= secs && secs <= LATEST_SECOND
    }

    /// The instant that many minutes on.
    pub fn plus_minutes(&self, minutes: i64) -> (r: Timestamp)
        requires
            self.wf(),
            in_calendar(self.secs + 60 * minutes),
        ensures
            r == (Timestamp { secs: (self.secs + 60 * minutes) as i64, nanos: self.nanos }),
            r.wf(),
    {
        Timestamp { secs: self.secs + 60 * minutes, nanos: self.nanos }
    }

    /// The whole minutes from `from` up to this instant, or none where it has passed.
    pub fn minutes_after(&self, from: &Timestamp) -> (r: u64)
        requires
            self.wf(),
            from.wf(),
        ensures
            r == minutes_left(*self, *from),
    {
        let mut secs: i64 = self.secs - from.secs;
        if self.nanos < from.nanos {
            secs -= 1;
        }
        if secs < 0 {
            0
        } else {
            secs as u64 / 60
        }
    }
}

/// The whole minutes from `from` up to `until`, or none where `until` has passed.
pub open spec fn minutes_left(until: Timestamp, from: Timestamp) -> nat {
    let secs = until.secs - from.secs - if until.nanos < from.nanos {
        1int
    } else {
        0int
    };
    if secs < 0 {
        0
    } else {
        (secs / 60) as nat
    }
}

/// `Utc::now` of chrono. The instant depends on the machine's clock; whatever
/// it is, the calendar covers it and its nanoseconds are below one second.
#[verifier::external_body]
pub(crate) fn utc_now() -> (r: Timestamp)
    ensures
        r.wf(),
{
    let now = chrono::Utc::now();
    Timestamp { secs: now.timestamp(), nanos: now.timestamp_subsec_nanos() }
}

/// `Local::now` of chrono: the hour and the minute on the machine's own clock.
#[verifier::external_body]
pub(crate) fn local_hour_minute() -> (r: (u32, u32))
    ensures
        r.0 < 24,
        r.1 < 60,
{
    let now = chrono::Local::now();
    (now.hour(), now.minute())
}

// ---------------------------------------------------------------------------
// Dates as text
// ---------------------------------------------------------------------------

/// The patterns by which dates are written: for metrics, for the directory of
/// a day, and for a file name.
pub open spec fn is_date_pattern(pattern: Seq<char>) -> bool {
    ||| pattern == "%Y-%m-%dT%H:%M:%SZ"@
    ||| pattern == "%d%b%Y"@
    ||| pattern == "%Y-%m-%dT%H-%M-%S%.6fZ"@
}

/// An instant in UTC, written by a pattern of chrono.
pub uninterp spec fn utc_format(secs: i64, nanos: u32, pattern: Seq<char>) -> Seq<char>;

/// `DateTime::format` of chrono in UTC. The text is a function of the instant
/// and the pattern.
#[verifier::external_body]
pub(crate) fn format_utc(t: &Timestamp, pattern: &str) -> (r: String)
    requires
        t.wf(),
        is_date_pattern(pattern@),
    ensures
        r@ == utc_format(t.secs, t.nanos, pattern@),
{
    chrono::DateTime::from_timestamp(t.secs, t.nanos).unwrap().format(pattern).to_string()
}

// ---------------------------------------------------------------------------
// London local time
// ---------------------------------------------------------------------------

/// By how many seconds London local time is ahead of UTC, in the time zone
/// data of chrono-tz.
pub uninterp spec fn london_offset(secs: i64) -> int;

/// `DateTime::with_timezone` of chrono with the zone `Europe::London` of
/// chrono-tz: the offset that holds at the instant. It is less than a day.
#[verifier::external_body]
pub(crate) fn london_seconds_ahead(secs: i64) -> (r: i32)
    requires
        in_calendar(secs as int),
    ensures
        r == london_offset(secs),
        -86_400 < r < 86_400,
{
    let utc = chrono::DateTime::from_timestamp(secs, 0).unwrap();
    utc.with_timezone(&chrono_tz::Europe::London).offset().fix().local_minus_utc()
}

/// The day of the week of a second count since the start of 1970, a Thursday.
pub open spec fn weekday_of(secs: int) -> Weekday {
    weekday_at((secs / 86_400 + 3) % 7)
}

pub open spec fn time_of(secs: int, nanos: u32) -> NaiveTime {
    NaiveTime { secs: (secs % 86_400) as u32, nanos }
}

/// Seconds since the start of 1970 on London clocks.
pub open spec fn london_secs(t: Timestamp) -> int {
    t.secs + london_offset(t.secs)
}

/// The day of the week in London.
pub open spec fn london_weekday(t: Timestamp) -> Weekday {
    weekday_of(london_secs(t))
}

/// The time of day in London.
pub open spec fn london_time(t: Timestamp) -> NaiveTime {
    time_of(london_secs(t), t.nanos)
}

/// The day of the week and the time of day at which a clock stands that is
/// `ahead` seconds ahead of UTC.
pub fn local_clock(t: &Timestamp, ahead: i32) -> (r: (Weekday, NaiveTime))
    requires
        t.wf(),
        -86_400 < ahead < 86_400,
    ensures
        r.0 == weekday_of(t.secs + ahead),
        r.1 == time_of(t.secs + ahead, t.nanos),
        r.1.wf(),
{
    let local: i64 = t.secs + ahead as i64;
    // Count from a Monday far enough back that nothing is negative.
    let shifted: i64 = local + 8_400_672_000_000;
    assert(8_400_672_000_000int == 86_400 * 97_230_000);
    let day: u32 = ((shifted / 86_400 + 3) % 7) as u32;
    let secs: u32 = (shifted % 86_400) as u32;
    assert(shifted / 86_400 == local as int / 86_400 + 97_230_000);
    assert(97_230_000int == 7 * 13_890_000);
    (weekday_from_number(day), NaiveTime { secs, nanos: t.nanos })
}

/// The day of the week and the time of day in London.
pub fn london_clock(t: &Timestamp) -> (r: (Weekday, NaiveTime))
    requires
        t.wf(),
    ensures
        r.0 == london_weekday(*t),
        r.1 == london_time(*t),
        r.1.wf(),
{
    let ahead = london_seconds_ahead(t.secs);
    local_clock(t, ahead)
}

/// The London time of day as hours and minutes.
pub open spec fn london_text(t: Timestamp) -> Seq<char> {
    clock_text(london_time(t).secs as nat)
}

/// The London time of day as hours and minutes.
pub fn london_hour_minute(t: &Timestamp) -> (r: String)
    requires
        t.wf(),
    ensures
        r@ == london_text(*t),
{
    let local = london_clock(t);
    hour_minute_text(local.1.secs)
}

} // verus!
