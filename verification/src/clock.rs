//! Instants on the UTC time scale and the wall-clock arithmetic the matcher needs.
//!
//! An [`Instant`] is a count of whole non-leap seconds since 1970-01-01T00:00:00Z plus a
//! nanosecond part. Calendar work (reading a timestamp, pinning a clock time to a date,
//! printing a clock time) is done by `chrono`; everything here is stated over plain integers.

use chrono::{DateTime, Datelike, TimeZone, Utc};
use vstd::prelude::*;
use vstd::string::*;

verus! {

/// First supported second: the start of the day before 0000-01-01 (UTC).
pub const MIN_SECS: i64 = -62_167_305_600;

/// Last supported second: the end of the day after 9999-12-31 (UTC).
pub const MAX_SECS: i64 = 253_402_387_199;

/// Whether a count of seconds lies in the supported span of time.
///
/// The span holds every instant whose local year has four digits under any
/// offset of less than a day.
pub open spec fn in_supported_range(secs: int) -> bool {
    MIN_SECS <= secs <= MAX_SECS
}

/// Whether `(secs, nanos)` denotes an instant: the seconds are in the supported span, and the
/// nanosecond part is below one second, or below two seconds inside the last second of a
/// minute (a leap second).
pub open spec fn valid_unix(secs: int, nanos: int) -> bool {
    &&& in_supported_range(secs)
    &&& 0 <= nanos < 2_000_000_000
    &&& nanos >= 1_000_000_000 ==> secs % 60 == 59
}

/// First second of the UTC day that holds `secs`.
pub open spec fn day_start(secs: int) -> int {
    secs - secs % 86_400
}

/// Hour of the UTC day, 0 to 23, at `secs`.
pub open spec fn hour_of_day(secs: int) -> int {
    (secs % 86_400) / 3_600
}

/// Minute of the hour, 0 to 59, at `secs`.
pub open spec fn minute_of_hour(secs: int) -> int {
    (secs % 3_600) / 60
}

/// The second at which the clock shows `hour:minute:00` on the UTC day that holds `secs`.
pub open spec fn clock_time_on_day_of(secs: int, hour: int, minute: int) -> int {
    day_start(secs) + 3_600 * hour + 60 * minute
}

/// Chronological order on `(seconds, nanoseconds)` pairs: earlier or equal.
pub open spec fn not_after(a: (int, int), b: (int, int)) -> bool {
    a.0 < b.0 || (a.0 == b.0 && a.1 <= b.1)
}

/// The decimal digit for `d` in 0..=9.
pub open spec fn digit_char(d: int) -> char {
    if d == 0 {
        '0'
    } else if d == 1 {
        '1'
    } else if d == 2 {
        '2'
    } else if d == 3 {
        '3'
    } else if d == 4 {
        '4'
    } else if d == 5 {
        '5'
    } else if d == 6 {
        '6'
    } else if d == 7 {
        '7'
    } else if d == 8 {
        '8'
    } else {
        '9'
    }
}

/// `n` in 0..=99 written with two decimal digits.
pub open spec fn two_digits(n: int) -> Seq<char> {
    seq![digit_char(n / 10), digit_char(n % 10)]
}

/// A clock time written as `HH:MM`.
pub open spec fn clock_label(hour: int, minute: int) -> Seq<char> {
    two_digits(hour) + seq![':'] + two_digits(minute)
}

/// What `chrono` reads from an RFC 3339 timestamp: the whole seconds since the epoch and the
/// nanosecond part of the instant it denotes, or `None` where the text is not such a timestamp.
pub uninterp spec fn rfc3339_reading(text: Seq<char>) -> Option<(i64, u32)>;

/// Calls `chrono::DateTime::parse_from_rfc3339` and hands back the result's `timestamp()`
/// and `timestamp_subsec_nanos()`.
///
/// Trusted: the outcome depends on the text alone, so it is given the name
/// [`rfc3339_reading`]; nothing else is claimed of it.
#[verifier::external_body]
pub(crate) fn read_rfc3339(text: &str) -> (r: Option<(i64, u32)>)
    ensures
        r == rfc3339_reading(text@),
{
    match DateTime::parse_from_rfc3339(text) {
        Ok(parsed) => Some((parsed.timestamp(), parsed.timestamp_subsec_nanos())),
        Err(_) => None,
    }
}

/// Calls `chrono::TimeZone::with_ymd_and_hms` on `Utc` with the year, month and day of the
/// UTC date that holds `secs`, and returns the result's `timestamp()`.
///
/// Trusted: `chrono` counts a timestamp as 86 400 seconds for each day since the epoch plus
/// the seconds since midnight, so the result is the start of that day plus the clock time.
#[verifier::external_body]
fn utc_clock_time_on_day_of(secs: i64, hour: u32, minute: u32) -> (r: i64)
    requires
        in_supported_range(secs as int),
        hour < 24,
        minute < 60,
    ensures
        r == clock_time_on_day_of(secs as int, hour as int, minute as int),
{
    let day = DateTime::from_timestamp(secs, 0).unwrap();
    Utc.with_ymd_and_hms(day.year(), day.month(), day.day(), hour, minute, 0).unwrap().timestamp()
}

/// Calls `chrono::DateTime::format` with the pattern `%H:%M` on the UTC instant at `secs`.
///
/// Trusted: `%H` and `%M` print the hour of the day and the minute of the hour, each with two
/// digits and a leading zero.
#[verifier::external_body]
fn utc_clock_text(secs: i64) -> (r: String)
    requires
        in_supported_range(secs as int),
    ensures
        r@ == clock_label(hour_of_day(secs as int), minute_of_hour(secs as int)),
{
    DateTime::from_timestamp(secs, 0).unwrap().format("%H:%M").to_string()
}

/// A point on the UTC time scale.
#[derive(Clone, Copy, Debug, PartialEq, Eq, Structural)]
pub struct Instant {
    secs: i64,
    nanos: u32,
}

impl View for Instant {
    type V = (int, int);

    /// Whole seconds since the epoch, and the nanosecond part.
    closed spec fn view(&self) -> (int, int) {
        (self.secs as int, self.nanos as int)
    }
}

impl Instant {
    /// Every instant that the constructors hand out is well formed.
    pub open spec fn wf(&self) -> bool {
        valid_unix(self@.0, self@.1)
    }

    /// The instant `nanos` nanoseconds after the whole second `secs`, where that is one.
    pub fn from_unix(secs: i64, nanos: u32) -> (r: Option<Instant>)
        ensures
            r is Some <==> valid_unix(secs as int, nanos as int),
            r matches Some(i) ==> i@ == (secs as int, nanos as int) && i.wf(),
    {
        if secs < MIN_SECS || secs > MAX_SECS || nanos >= 2_000_000_000 {
            return None;
        }
        let since_min: i64 = secs - MIN_SECS;
        assert(since_min % 60 == (secs as int) % 60);
        if nanos >= 1_000_000_000 && since_min % 60 != 59 {
            return None;
        }
        Some(Instant { secs, nanos })
    }

    /// Reads an RFC 3339 timestamp such as `2024-05-01T08:00:00+02:00`.
    ///
    /// `None` where the text is no such timestamp or the instant is outside the supported span.
    pub fn parse_rfc3339(text: &str) -> (r: Option<Instant>)
        ensures
            r is Some <==> (rfc3339_reading(text@) matches Some(p) && valid_unix(
                p.0 as int,
                p.1 as int,
            )),
            r matches Some(i) ==> rfc3339_reading(text@) == Some((i@.0 as i64, i@.1 as u32))
                && i.wf(),
    {
        match read_rfc3339(text) {
            Some((secs, nanos)) => Instant::from_unix(secs, nanos),
            None => None,
        }
    }

    /// Whole seconds since the epoch.
    pub fn secs(&self) -> (r: i64)
        ensures
            r == self@.0,
    {
        self.secs
    }

    /// Nanoseconds since the last whole second.
    pub fn subsec_nanos(&self) -> (r: u32)
        ensures
            r == self@.1,
    {
        self.nanos
    }

    /// Whether this instant is `other` or earlier.
    pub fn is_not_after(&self, other: &Instant) -> (r: bool)
        ensures
            r == not_after(self@, other@),
    {
        self.secs < other.secs || (self.secs == other.secs && self.nanos <= other.nanos)
    }

    /// The instant at which the clock shows `hour:minute:00` on this instant's UTC date.
    pub fn at_clock_time(&self, hour: u32, minute: u32) -> (r: Instant)
        requires
            self.wf(),
            hour < 24,
            minute < 60,
        ensures
            r@ == (clock_time_on_day_of(self@.0, hour as int, minute as int), 0int),
            r.wf(),
    {
        let secs: i64 = utc_clock_time_on_day_of(self.secs, hour, minute);
        Instant { secs, nanos: 0 }
    }

    /// This instant's UTC clock time as `HH:MM`.
    pub fn clock_text(&self) -> (r: String)
        requires
            self.wf(),
        ensures
            r@ == clock_label(hour_of_day(self@.0), minute_of_hour(self@.0)),
    {
        utc_clock_text(self.secs)
    }
}

} // verus!
