//! Calendar dates and instants, as plain integers. The days of the calendar
//! are reckoned here; instants are read and written by `chrono`.

use vstd::prelude::*;
use vstd::string::StringExecFns;
use chrono::{Offset, TimeZone};
use crate::text::{format_zero_padded, zero_padded};

verus! {

/// The first year a date can have.
pub const MIN_YEAR: i32 = -262143;

/// The last year a date can have.
pub const MAX_YEAR: i32 = 262142;

/// Leap years of the proleptic Gregorian calendar.
pub open spec fn is_leap_year(year: int) -> bool {
    year % 4 == 0 && (year % 100 != 0 || year % 400 == 0)
}

/// The number of days of a month.
pub open spec fn days_in_month(year: int, month: int) -> int {
    if month == 2 {
        if is_leap_year(year) {
            29
        } else {
            28
        }
    } else if month == 4 || month == 6 || month == 9 || month == 11 {
        30
    } else {
        31
    }
}

/// Year, month and day name a day of the calendar, within the years that a
/// date can have.
pub open spec fn is_calendar_date(year: int, month: int, day: int) -> bool {
    &&& MIN_YEAR <= year <= MAX_YEAR
    &&& 1 <= month <= 12
    &&& 1 <= day <= days_in_month(year, month)
}

/// The day that follows a day of the calendar.
pub open spec fn day_after(year: int, month: int, day: int) -> (int, int, int) {
    if day < days_in_month(year, month) {
        (year, month, day + 1)
    } else if month < 12 {
        (year, month + 1, 1)
    } else {
        (year + 1, 1, 1)
    }
}

/// The number of days of a month.
fn month_length(year: i32, month: u32) -> (n: u32)
    requires
        MIN_YEAR <= year <= MAX_YEAR,
        1 <= month <= 12,
    ensures
        n as int == days_in_month(year as int, month as int),
{
    let shifted: u32 = (year + 262400) as u32;
    assert(shifted as int == year + 262400);
    let leap = shifted % 4 == 0 && (shifted % 100 != 0 || shifted % 400 == 0);
    if month == 2 {
        if leap {
            29
        } else {
            28
        }
    } else if month == 4 || month == 6 || month == 9 || month == 11 {
        30
    } else {
        31
    }
}

/// The day that follows a day of the calendar; none for the last day of
/// the last year.
fn next_calendar_date(year: i32, month: u32, day: u32) -> (r: Option<(i32, u32, u32)>)
    requires
        is_calendar_date(year as int, month as int, day as int),
    ensures
        r is None <==> (year == MAX_YEAR && month == 12 && day == 31),
        r matches Some(n) ==> (n.0 as int, n.1 as int, n.2 as int) == day_after(
            year as int,
            month as int,
            day as int,
        ) && is_calendar_date(n.0 as int, n.1 as int, n.2 as int),
{
    if day < month_length(year, month) {
        Some((year, month, day + 1))
    } else if month < 12 {
        Some((year, month + 1, 1))
    } else if year < MAX_YEAR {
        Some((year + 1, 1, 1))
    } else {
        None
    }
}

/// A day of the calendar.
#[derive(Clone, Copy, Debug, PartialEq, Eq, Structural, PartialOrd, Ord, Hash)]
pub struct Date {
    year: i32,
    month: u32,
    day: u32,
}

impl View for Date {
    type V = (int, int, int);

    closed spec fn view(&self) -> (int, int, int) {
        (self.year as int, self.month as int, self.day as int)
    }
}

impl Date {
    #[verifier::type_invariant]
    spec fn well_formed(self) -> bool {
        is_calendar_date(self.year as int, self.month as int, self.day as int)
    }

    /// The date with this year, month and day, where the calendar has it.
    pub fn from_ymd_opt(year: i32, month: u32, day: u32) -> (r: Option<Date>)
        ensures
            r is Some <==> is_calendar_date(year as int, month as int, day as int),
            r matches Some(d) ==> d@ == (year as int, month as int, day as int),
    {
        if year < MIN_YEAR || year > MAX_YEAR || month < 1 || month > 12 || day < 1 {
            return None;
        }
        let length = month_length(year, month);
        if day > length {
            return None;
        }
        Some(Date { year, month, day })
    }

    /// The year.
    pub fn year(&self) -> (y: i32)
        ensures
            y as int == self@.0,
    {
        self.year
    }

    /// The month, from 1.
    pub fn month(&self) -> (m: u32)
        ensures
            m as int == self@.1,
    {
        self.month
    }

    /// The day of the month, from 1.
    pub fn day(&self) -> (d: u32)
        ensures
            d as int == self@.2,
    {
        self.day
    }

    /// The next day, unless this is the last day that a date can be.
    pub fn succ_opt(&self) -> (r: Option<Date>)
        ensures
            r is None <==> self@ == (MAX_YEAR as int, 12int, 31int),
            r matches Some(d) ==> d@ == day_after(self@.0, self@.1, self@.2) && is_calendar_date(
                d@.0,
                d@.1,
                d@.2,
            ),
    {
        proof {
            use_type_invariant(self);
        }
        match next_calendar_date(self.year, self.month, self.day) {
            Some((year, month, day)) => Some(Date { year, month, day }),
            None => None,
        }
    }

    /// The date as text: year, month and day with hyphens between, as in
    /// `2022-01-14`.
    pub fn to_string(&self) -> (r: String)
        ensures
            r@ == date_text(self@),
    {
        proof {
            use_type_invariant(self);
        }
        let mut out = String::new();
        let size: u32 = if self.year < 0 {
            out.push('-');
            (0 - self.year) as u32
        } else {
            if self.year > 9999 {
                out.push('+');
            }
            self.year as u32
        };
        let ghost sign = out@;
        let year = format_zero_padded(size, 4);
        out.append(year.as_str());
        out.push('-');
        let month = format_zero_padded(self.month, 2);
        out.append(month.as_str());
        out.push('-');
        let day = format_zero_padded(self.day, 2);
        out.append(day.as_str());
        assert(out@ =~= date_text(self@));
        out
    }

    /// Whether the two are the same day.
    pub fn same_day(&self, other: &Date) -> (b: bool)
        ensures
            b == (self@ == other@),
    {
        self.year == other.year && self.month == other.month && self.day == other.day
    }

    /// Whether this day is before the other.
    pub fn is_before(&self, other: &Date) -> (b: bool)
        ensures
            b == date_lt(self@, other@),
    {
        self.year < other.year || (self.year == other.year && (self.month < other.month || (
        self.month == other.month && self.day < other.day)))
    }
}

/// A day as text: the year with four digits at least, the month and the
/// day with two, and hyphens between. A year before the year 0 or after
/// the year 9999 has its sign in front.
pub open spec fn date_text(day: (int, int, int)) -> Seq<char> {
    (if day.0 < 0 {
        seq!['-'] + zero_padded((-day.0) as nat, 4)
    } else if day.0 > 9999 {
        seq!['+'] + zero_padded(day.0 as nat, 4)
    } else {
        zero_padded(day.0 as nat, 4)
    }) + seq!['-'] + zero_padded(day.1 as nat, 2) + seq!['-'] + zero_padded(day.2 as nat, 2)
}

/// The order of days: by year, then month, then day.
pub open spec fn date_lt(a: (int, int, int), b: (int, int, int)) -> bool {
    a.0 < b.0 || (a.0 == b.0 && (a.1 < b.1 || (a.1 == b.1 && a.2 < b.2)))
}

/// The first second an instant can lie in, some 259,000 years before 1970:
/// an instant from here on is one that `chrono` holds and writes out at
/// any offset.
pub const MIN_INSTANT_SECS: i64 = -8_200_000_000_000;

/// The last second an instant can lie in, some 259,000 years after 1970.
pub const MAX_INSTANT_SECS: i64 = 8_200_000_000_000;

/// The offset, in seconds west of Greenwich, of the zone in which instants
/// are written out: eight hours, Pacific standard time.
pub const PACIFIC_WEST_SECS: i32 = 28_800;

/// Seconds and nanoseconds name an instant: the nanoseconds stay below a
/// second, or below two within a leap second, which `chrono` holds as the
/// last second of a minute with a second more of nanoseconds.
pub open spec fn is_instant(secs: int, nanos: int) -> bool {
    &&& MIN_INSTANT_SECS <= secs <= MAX_INSTANT_SECS
    &&& 0 <= nanos < 2_000_000_000
    &&& nanos >= 1_000_000_000 ==> secs % 60 == 59
}

/// What `chrono` writes for an instant, given as seconds and nanoseconds
/// since the epoch, in RFC 3339 form to the second, at a fixed offset of
/// `west` seconds west of Greenwich.
pub uninterp spec fn rfc3339_text(secs: int, nanos: int, west: int) -> Seq<char>;

/// Calls `chrono::DateTime::to_rfc3339_opts`, with whole seconds and a
/// numeric offset, on the instant that `chrono::DateTime::from_timestamp`
/// makes of `secs` and `nanos`, moved to the zone that
/// `chrono::FixedOffset::west_opt` makes of `west`. Claimed of it: the text
/// depends on the three numbers alone.
#[verifier::external_body]
fn rfc3339_seconds(secs: i64, nanos: u32, west: i32) -> (r: String)
    requires
        is_instant(secs as int, nanos as int),
        -86_400 < west < 86_400,
    ensures
        r@ == rfc3339_text(secs as int, nanos as int, west as int),
{
    let zone = chrono::FixedOffset::west_opt(west).unwrap();
    let utc = chrono::DateTime::from_timestamp(secs, nanos).unwrap();
    utc.with_timezone(&zone).to_rfc3339_opts(chrono::SecondsFormat::Secs, false)
}

/// What `chrono` displays for an instant, given as seconds and
/// nanoseconds since the epoch, at a fixed offset of `east` seconds east of
/// Greenwich: the date, the time and the offset.
pub uninterp spec fn display_text(secs: int, nanos: int, east: int) -> Seq<char>;

/// Calls the `Display` of `chrono::DateTime` on the instant that
/// `chrono::DateTime::from_timestamp` makes of `secs` and `nanos`, moved to
/// the zone that `chrono::FixedOffset::east_opt` makes of `east`. Claimed
/// of it: the text depends on the three numbers alone.
#[verifier::external_body]
fn display_seconds(secs: i64, nanos: u32, east: i32) -> (r: String)
    requires
        is_instant(secs as int, nanos as int),
        -86_400 < east < 86_400,
    ensures
        r@ == display_text(secs as int, nanos as int, east as int),
{
    let zone = chrono::FixedOffset::east_opt(east).unwrap();
    let utc = chrono::DateTime::from_timestamp(secs, nanos).unwrap();
    utc.with_timezone(&zone).to_string()
}

/// Calls `TimeZone::offset_from_utc_datetime` of `chrono::Local` on the
/// instant that `chrono::DateTime::from_timestamp` makes of `secs` and
/// `nanos`, and `FixedOffset::local_minus_utc` on what it gives. The offset
/// depends on the time zone of the machine; claimed of it is only that it
/// is less than a day either way, as every offset of `chrono` is.
#[verifier::external_body]
fn local_offset(secs: i64, nanos: u32) -> (east: i32)
    requires
        is_instant(secs as int, nanos as int),
    ensures
        -86_400 < east < 86_400,
{
    let utc = chrono::DateTime::from_timestamp(secs, nanos).unwrap();
    chrono::Local.offset_from_utc_datetime(&utc.naive_utc()).fix().local_minus_utc()
}

/// The text is the display of the instant at some offset of less than a
/// day: what the machine's own time zone shows, whichever zone that is.
pub open spec fn is_local_text(text: Seq<char>, at: (int, int)) -> bool {
    exists|east: int| -86_400 < east < 86_400 && text == #[trigger] display_text(at.0, at.1, east)
}

/// The instant that `chrono` reads from a text with a date, a time and an
/// offset: seconds and nanoseconds since the start of 1970; none where it
/// reads none.
pub uninterp spec fn parsed_instant(text: Seq<char>) -> Option<(i64, u32)>;

/// Calls the `FromStr` of `chrono::DateTime<FixedOffset>`, and
/// `DateTime::timestamp` and `DateTime::timestamp_subsec_nanos` on what it
/// gives. Claimed of it: the result depends on the text alone.
#[verifier::external_body]
fn parse_instant(text: &str) -> (r: Option<(i64, u32)>)
    ensures
        r == parsed_instant(text@),
{
    let at = text.parse::<chrono::DateTime<chrono::FixedOffset>>().ok()?;
    Some((at.timestamp(), at.timestamp_subsec_nanos()))
}

/// The instant that a text names, where it names one within the seconds
/// that an instant can lie in.
pub open spec fn instant_named(text: Seq<char>) -> Option<(int, int)> {
    match parsed_instant(text) {
        Some((secs, nanos)) => if is_instant(secs as int, nanos as int) {
            Some((secs as int, nanos as int))
        } else {
            None
        },
        None => None,
    }
}

/// An instant: seconds and nanoseconds since the start of 1970, universal
/// time, within the seconds that an instant can lie in.
#[derive(Clone, Copy, Debug, PartialEq, Eq, Structural, PartialOrd, Ord, Hash)]
pub struct Timestamp {
    secs: i64,
    nanos: u32,
}

impl View for Timestamp {
    type V = (int, int);

    closed spec fn view(&self) -> (int, int) {
        (self.secs as int, self.nanos as int)
    }
}

impl Timestamp {
    #[verifier::type_invariant]
    spec fn well_formed(self) -> bool {
        is_instant(self.secs as int, self.nanos as int)
    }

    /// The instant `secs` seconds and `nanos` nanoseconds after the start of
    /// 1970, where it lies within the seconds that an instant can lie in.
    pub fn new(secs: i64, nanos: u32) -> (r: Option<Timestamp>)
        ensures
            r is Some <==> is_instant(secs as int, nanos as int),
            r matches Some(t) ==> t@ == (secs as int, nanos as int),
    {
        if secs < MIN_INSTANT_SECS || secs > MAX_INSTANT_SECS || nanos >= 2_000_000_000 {
            return None;
        }
        let minutes_on: u64 = (secs + 8_200_000_000_020) as u64;
        assert(minutes_on as int % 60 == secs as int % 60);
        if nanos >= 1_000_000_000 && minutes_on % 60 != 59 {
            None
        } else {
            Some(Timestamp { secs, nanos })
        }
    }

    /// The instant that a text names: a date, a time and an offset from
    /// universal time, as in `2022-01-14T08:30:00-08:00`.
    pub fn parse(text: &str) -> (r: Option<Timestamp>)
        ensures
            r is Some <==> instant_named(text@) is Some,
            r matches Some(t) ==> Some(t@) == instant_named(text@),
    {
        match parse_instant(text) {
            Some((secs, nanos)) => Timestamp::new(secs, nanos),
            None => None,
        }
    }

    /// Whole seconds since the start of 1970.
    pub fn secs(&self) -> (s: i64)
        ensures
            s as int == self@.0,
    {
        self.secs
    }

    /// Nanoseconds into the second.
    pub fn nanos(&self) -> (n: u32)
        ensures
            n as int == self@.1,
    {
        self.nanos
    }

    /// The instant in RFC 3339 form, to the second, in Pacific standard
    /// time.
    pub fn to_pacific_rfc3339(&self) -> (r: String)
        ensures
            r@ == rfc3339_text(self@.0, self@.1, PACIFIC_WEST_SECS as int),
    {
        proof {
            use_type_invariant(self);
        }
        rfc3339_seconds(self.secs, self.nanos, PACIFIC_WEST_SECS)
    }

    /// The instant as the machine's own time zone shows it: the date, the
    /// time and the offset, at the offset that the zone has at the instant.
    pub fn to_local_text(&self) -> (r: String)
        ensures
            is_local_text(r@, self@),
    {
        proof {
            use_type_invariant(self);
        }
        let east = local_offset(self.secs, self.nanos);
        let text = display_seconds(self.secs, self.nanos, east);
        assert(text@ == display_text(self@.0, self@.1, east as int));
        text
    }
}

} // verus!
