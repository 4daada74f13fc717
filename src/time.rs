//! Instants, as whole seconds since the Unix epoch and nanoseconds within that second.

use chrono::TimeZone;
use vstd::prelude::*;

verus! {

/// The earliest instant a `Timestamp` holds: one day before 0000-01-01T00:00:00Z.
pub const MIN_SECS: i64 = -62_167_305_600;

/// The latest instant a `Timestamp` holds: one day after 9999-12-31T23:59:59Z.
pub const MAX_SECS: i64 = 253_402_387_199;

/// Instants from one day before year 0 to one day after year 9999, without leap seconds.
/// This covers a four-digit wall-clock time in any zone, and lies well inside chrono's range.
pub open spec fn in_range(secs: int, nanos: int) -> bool {
    MIN_SECS <= secs <= MAX_SECS && 0 <= nanos < 1_000_000_000
}

/// An instant in UTC.
#[derive(Clone, Copy, Debug, PartialEq, Eq, Structural)]
pub struct Timestamp {
    secs: i64,
    nanos: u32,
}

/// What a `Timestamp` stands for: seconds since the epoch and nanoseconds.
pub struct TimeView {
    pub secs: int,
    pub nanos: int,
}

/// `a` is not earlier than `b`.
pub open spec fn not_before(a: TimeView, b: TimeView) -> bool {
    a.secs > b.secs || (a.secs == b.secs && a.nanos >= b.nanos)
}

/// The later of two instants.
pub open spec fn later_of(a: TimeView, b: TimeView) -> TimeView {
    if not_before(a, b) {
        a
    } else {
        b
    }
}

/// The text that chrono gives for the UTC instant `secs`, `nanos` in RFC 3339 form, with `Z`
/// for the offset and as many fractional digits as the nanoseconds need.
pub uninterp spec fn rfc3339_utc(secs: int, nanos: int) -> Seq<char>;

/// A leap year of the proleptic Gregorian calendar.
pub open spec fn is_leap_year(year: int) -> bool {
    year % 4 == 0 && (year % 100 != 0 || year % 400 == 0)
}

/// The number of days of a month, from 1 to 12.
pub open spec fn days_in_month(year: int, month: int) -> int {
    if month == 2 {
        if is_leap_year(year) {
            29
        } else {
            28
        }
    } else if month == 4 || month == 6 || month == 9 || month == 11 {
        30
    } else {
        31
    }
}

/// A day that exists, and a time of day without a leap second.
pub open spec fn valid_civil(year: int, month: int, day: int, hour: int, minute: int, second: int)
    -> bool {
    &&& 1 <= month <= 12
    &&& 1 <= day <= days_in_month(year, month)
    &&& 0 <= hour < 24
    &&& 0 <= minute < 60
    &&& 0 <= second < 60
}

/// The UTC instant, in seconds, of a wall-clock time in the Asia/Kolkata zone, when that time
/// exists there and is not ambiguous.
pub uninterp spec fn kolkata_seconds(
    year: i32,
    month: u32,
    day: u32,
    hour: u32,
    minute: u32,
    second: u32,
) -> Option<i64>;

/// Relies on chrono's `DateTime::<Utc>::from_timestamp`, which gives `Some` for every instant
/// in `in_range`, and on `DateTime::to_rfc3339_opts(SecondsFormat::AutoSi, true)`, the form in
/// which chrono also serialises a UTC time.
#[verifier::external_body]
fn utc_text(secs: i64, nanos: u32) -> (r: String)
    requires
        in_range(secs as int, nanos as int),
    ensures
        r@ == rfc3339_utc(secs as int, nanos as int),
{
    let t = chrono::DateTime::from_timestamp(secs, nanos).unwrap();
    t.to_rfc3339_opts(chrono::SecondsFormat::AutoSi, true)
}

/// Relies on chrono's `TimeZone::with_ymd_and_hms` for chrono-tz's `Asia::Kolkata`: no
/// result for a day or time that does not exist (`NaiveDate::from_ymd_opt`,
/// `NaiveDate::and_hms_opt`), and `single` keeps only an unambiguous one;
/// `DateTime::timestamp` gives its seconds since the epoch.
#[verifier::external_body]
fn kolkata_instant(year: i32, month: u32, day: u32, hour: u32, minute: u32, second: u32) -> (r:
    Option<i64>)
    ensures
        r == kolkata_seconds(year, month, day, hour, minute, second),
        r is Some ==> valid_civil(year as int, month as int, day as int, hour as int, minute as int, second as int),
{
    let local = chrono_tz::Asia::Kolkata.with_ymd_and_hms(year, month, day, hour, minute, second);
    match local.single() {
        Some(t) => Some(t.timestamp()),
        None => None,
    }
}

impl Timestamp {
    #[verifier::type_invariant]
    closed spec fn inv(self) -> bool {
        in_range(self.secs as int, self.nanos as int)
    }

    pub closed spec fn view(self) -> TimeView {
        TimeView { secs: self.secs as int, nanos: self.nanos as int }
    }

    /// The instant `secs` seconds and `nanos` nanoseconds after the epoch, when it is in range.
    pub fn new(secs: i64, nanos: u32) -> (r: Option<Timestamp>)
        ensures
            r is Some <==> in_range(secs as int, nanos as int),
            r matches Some(t) ==> t.view() == (TimeView { secs: secs as int, nanos: nanos as int }),
    {
        if MIN_SECS <= secs && secs <= MAX_SECS && nanos < 1_000_000_000 {
            Some(Timestamp { secs, nanos })
        } else {
            None
        }
    }

    pub fn secs(&self) -> (r: i64)
        ensures
            r as int == self.view().secs,
    {
        self.secs
    }

    pub fn nanos(&self) -> (r: u32)
        ensures
            r as int == self.view().nanos,
    {
        self.nanos
    }

    /// The later of `self` and `other`.
    pub fn later(&self, other: &Timestamp) -> (r: Timestamp)
        ensures
            r.view() == later_of(self.view(), other.view()),
    {
        if self.secs > other.secs || (self.secs == other.secs && self.nanos >= other.nanos) {
            *self
        } else {
            *other
        }
    }

    /// The instant in RFC 3339 form, as `2023-01-01T06:30:00Z`.
    pub fn to_rfc3339(&self) -> (r: String)
        ensures
            r@ == rfc3339_utc(self.view().secs, self.view().nanos),
    {
        proof {
            use_type_invariant(self);
        }
        utc_text(self.secs, self.nanos)
    }

    /// The instant of a wall-clock time in the zone that notes are saved in (Asia/Kolkata),
    /// when that time exists there, is unambiguous and is in range.
    pub fn from_source_local(
        year: i32,
        month: u32,
        day: u32,
        hour: u32,
        minute: u32,
        second: u32,
    ) -> (r: Option<Timestamp>)
        ensures
            opt_time(r) == source_local(year, month, day, hour, minute, second),
            r is Some ==> valid_civil(
                year as int,
                month as int,
                day as int,
                hour as int,
                minute as int,
                second as int,
            ),
    {
        match kolkata_instant(year, month, day, hour, minute, second) {
            Some(secs) => Timestamp::new(secs, 0),
            None => None,
        }
    }
}

/// The view of an optional timestamp.
pub open spec fn opt_time(t: Option<Timestamp>) -> Option<TimeView> {
    match t {
        Some(t) => Some(t.view()),
        None => None,
    }
}

/// What `Timestamp::from_source_local` gives.
pub open spec fn source_local(
    year: i32,
    month: u32,
    day: u32,
    hour: u32,
    minute: u32,
    second: u32,
) -> Option<TimeView> {
    match kolkata_seconds(year, month, day, hour, minute, second) {
        Some(secs) => if in_range(secs as int, 0) {
            Some(TimeView { secs: secs as int, nanos: 0 })
        } else {
            None
        },
        None => None,
    }
}

} // verus!
