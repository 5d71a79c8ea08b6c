//! Calendar dates, clock times, durations, instants and time zones.
//!
//! Instants are whole seconds since 1970-01-01 00:00:00 UTC. What only the
//! time zone database knows (the local date of an instant, the instant of a
//! local date and time) comes from chrono-tz through the wrappers below.
use chrono::Datelike;
use vstd::prelude::*;

verus! {

/// Years that a calendar date can have (chrono's `NaiveDate` range).
pub const MIN_YEAR: i32 = -262143;

pub const MAX_YEAR: i32 = 262142;

/// Instants from -262143-01-01 00:00:00 to 262142-12-31 23:59:59 UTC.
pub const MIN_INSTANT: i64 = -8334601228800;

pub const MAX_INSTANT: i64 = 8210266876799;

/// Durations are bounded by `i64::MAX` milliseconds, in whole seconds.
pub const MAX_DURATION: i64 = 9223372036854775;

pub const SECS_PER_DAY: i64 = 86400;

pub open spec fn is_instant(t: int) -> bool {
    MIN_INSTANT <= t <= MAX_INSTANT
}

/// An instant at least a day away from both ends of the range, so that its
/// local date exists in every time zone.
pub open spec fn has_local_date(t: int) -> bool {
    MIN_INSTANT + SECS_PER_DAY <= t <= MAX_INSTANT - SECS_PER_DAY
}

pub open spec fn is_leap_year(y: int) -> bool {
    (y % 4 == 0 && y % 100 != 0) || y % 400 == 0
}

pub open spec fn days_in_month(y: int, m: int) -> int {
    if m == 2 {
        if is_leap_year(y) {
            29
        } else {
            28
        }
    } else if m == 4 || m == 6 || m == 9 || m == 11 {
        30
    } else {
        31
    }
}

pub open spec fn is_valid_date(y: int, m: int, d: int) -> bool {
    MIN_YEAR <= y <= MAX_YEAR && 1 <= m <= 12 && 1 <= d <= days_in_month(y, m)
}

/// The calendar day after `(y, m, d)`, if it is in range.
pub open spec fn day_after(date: (int, int, int)) -> Option<(int, int, int)> {
    let (y, m, d) = date;
    if d < days_in_month(y, m) {
        Some((y, m, d + 1))
    } else if m < 12 {
        Some((y, m + 1, 1))
    } else if y < MAX_YEAR {
        Some((y + 1, 1, 1))
    } else {
        None
    }
}

/// A real calendar day: year, month (1 to 12) and day of the month.
#[derive(Clone, Copy, Debug, PartialEq, Eq, Structural)]
pub struct CalendarDate {
    pub year: i32,
    pub month: u32,
    pub day: u32,
}

impl CalendarDate {
    pub open spec fn wf(self) -> bool {
        is_valid_date(self.year as int, self.month as int, self.day as int)
    }

    pub open spec fn ymd(self) -> (int, int, int) {
        (self.year as int, self.month as int, self.day as int)
    }

    /// The date `day.month.year`, if such a day exists.
    pub fn from_ymd(year: i32, month: u32, day: u32) -> (r: Option<CalendarDate>)
        ensures
            r == (if is_valid_date(year as int, month as int, day as int) {
                Some(CalendarDate { year, month, day })
            } else {
                None
            }),
    {
        if valid_ymd(year, month, day) {
            Some(CalendarDate { year, month, day })
        } else {
            None
        }
    }

    /// The following calendar day, if it is in range.
    pub fn succ(self) -> (r: Option<CalendarDate>)
        requires
            self.wf(),
        ensures
            match r {
                Some(n) => n.wf() && day_after(self.ymd()) == Some(n.ymd()),
                None => day_after(self.ymd()) is None,
            },
    {
        date_succ(self)
    }
}

/// A time of day: hour 0 to 23, minute and second 0 to 59.
#[derive(Clone, Copy, Debug, PartialEq, Eq, Structural)]
pub struct ClockTime {
    pub hour: u32,
    pub minute: u32,
    pub second: u32,
}

pub open spec fn is_valid_time(h: int, m: int, s: int) -> bool {
    0 <= h < 24 && 0 <= m < 60 && 0 <= s < 60
}

impl ClockTime {
    pub open spec fn wf(self) -> bool {
        is_valid_time(self.hour as int, self.minute as int, self.second as int)
    }

    pub open spec fn hms(self) -> (int, int, int) {
        (self.hour as int, self.minute as int, self.second as int)
    }

    /// The time `hour:minute:second`, if each part is in range.
    pub fn from_hms(hour: u32, minute: u32, second: u32) -> (r: Option<ClockTime>)
        ensures
            r == (if is_valid_time(hour as int, minute as int, second as int) {
                Some(ClockTime { hour, minute, second })
            } else {
                None
            }),
    {
        if hour < 24 && minute < 60 && second < 60 {
            Some(ClockTime { hour, minute, second })
        } else {
            None
        }
    }
}

/// A span of whole seconds, within `MAX_DURATION` either way.
#[derive(Clone, Copy, Debug, PartialEq, Eq, Structural)]
pub struct Duration {
    pub secs: i64,
}

pub open spec fn in_duration_range(x: int) -> bool {
    -MAX_DURATION <= x <= MAX_DURATION
}

impl Duration {
    pub open spec fn wf(self) -> bool {
        in_duration_range(self.secs as int)
    }

    /// `count` times `unit` seconds, if that is in range.
    pub fn try_from_units(count: i64, unit: i64) -> (r: Option<Duration>)
        requires
            0 < unit <= 604800,
        ensures
            r == (if in_duration_range(count * unit) {
                Some(Duration { secs: (count * unit) as i64 })
            } else {
                None
            }),
    {
        if count > MAX_DURATION / unit || count < -(MAX_DURATION / unit) {
            proof {
                if count > MAX_DURATION / unit {
                    assert(count * unit > MAX_DURATION) by (nonlinear_arith)
                        requires
                            count > MAX_DURATION / unit,
                            unit > 0,
                    ;
                } else {
                    assert(count * unit < -MAX_DURATION) by (nonlinear_arith)
                        requires
                            count < -(MAX_DURATION / unit),
                            unit > 0,
                    ;
                }
            }
            None
        } else {
            proof {
                assert(-MAX_DURATION <= count * unit <= MAX_DURATION) by (nonlinear_arith)
                    requires
                        -(MAX_DURATION / unit) <= count <= MAX_DURATION / unit,
                        unit > 0,
                ;
            }
            Some(Duration { secs: count * unit })
        }
    }

    /// The sum of two durations, if it is in range.
    pub fn checked_add(self, other: Duration) -> (r: Option<Duration>)
        requires
            self.wf(),
            other.wf(),
        ensures
            r == (if in_duration_range(self.secs + other.secs) {
                Some(Duration { secs: (self.secs + other.secs) as i64 })
            } else {
                None
            }),
    {
        let t = self.secs + other.secs;
        if -MAX_DURATION <= t && t <= MAX_DURATION {
            Some(Duration { secs: t })
        } else {
            None
        }
    }
}

/// `t + secs`, if that is an instant.
pub fn instant_plus(t: i64, secs: i64) -> (r: Option<i64>)
    requires
        is_instant(t as int),
        in_duration_range(secs as int),
    ensures
        r == (if is_instant(t + secs) {
            Some((t + secs) as i64)
        } else {
            None
        }),
{
    instant_add(t, secs)
}

#[verifier::external_type_specification]
#[verifier::external_body]
pub struct ExTz(chrono_tz::Tz);

/// Whether the time zone database knows a zone of this name.
pub uninterp spec fn is_zone_name(name: Seq<char>) -> bool;

/// The calendar date in the zone named `zone` at the instant `t`.
pub uninterp spec fn local_date_of(zone: Seq<char>, t: int) -> (int, int, int);

/// The instant at which the zone named `zone` shows the local date and time
/// given, the later one where it shows them twice, none where it skips them.
pub uninterp spec fn latest_instant_of(zone: Seq<char>, date: (int, int, int), time: (int, int, int)) -> Option<int>;

/// A time zone of the IANA database, known by its name.
pub struct Zone {
    name: String,
    tz: chrono_tz::Tz,
}

impl View for Zone {
    type V = Seq<char>;

    closed spec fn view(&self) -> Seq<char> {
        self.name@
    }
}

impl Zone {
    /// The zone of this IANA name ("Europe/Berlin"), if the database has it.
    pub fn named(name: &str) -> (r: Option<Zone>)
        ensures
            r is Some <==> is_zone_name(name@),
            r matches Some(z) ==> z@ == name@,
    {
        match lookup_zone(name) {
            Some(tz) => Some(Zone { name: name.to_string(), tz }),
            None => None,
        }
    }

    /// The local calendar date at the instant `t`.
    pub fn local_date(&self, t: i64) -> (r: CalendarDate)
        requires
            has_local_date(t as int),
        ensures
            r.wf(),
            r.ymd() == local_date_of(self@, t as int),
    {
        zone_date_at(self, t).unwrap()
    }

    /// The instant of a local date and time, the later of two where the
    /// clocks are turned back, none where they skip it.
    pub fn resolve(&self, date: CalendarDate, time: ClockTime) -> (r: Option<i64>)
        requires
            date.wf(),
            time.wf(),
        ensures
            pos_of_instant(r) == latest_instant_of(self@, date.ymd(), time.hms()),
    {
        zone_instant_of(self, date, time)
    }
}

pub open spec fn pos_of_instant(r: Option<i64>) -> Option<int> {
    match r {
        Some(t) => Some(t as int),
        None => None,
    }
}

/// Relies on chrono's `NaiveDate::from_ymd_opt`: a date exists for a year in
/// range, a month 1 to 12 and a day within that month's length.
#[verifier::external_body]
fn valid_ymd(year: i32, month: u32, day: u32) -> (r: bool)
    ensures
        r == is_valid_date(year as int, month as int, day as int),
{
    chrono::NaiveDate::from_ymd_opt(year, month, day).is_some()
}

/// Relies on chrono's `NaiveDate::succ_opt`: the next calendar day, none after
/// the last representable date.
#[verifier::external_body]
fn date_succ(d: CalendarDate) -> (r: Option<CalendarDate>)
    requires
        d.wf(),
    ensures
        match r {
            Some(n) => n.wf() && day_after(d.ymd()) == Some(n.ymd()),
            None => day_after(d.ymd()) is None,
        },
{
    let n = chrono::NaiveDate::from_ymd_opt(d.year, d.month, d.day)?.succ_opt()?;
    Some(CalendarDate { year: n.year(), month: n.month(), day: n.day() })
}

/// Relies on chrono's `DateTime::<Utc>::checked_add_signed`: the sum, none
/// outside the range of `DateTime`.
#[verifier::external_body]
fn instant_add(t: i64, secs: i64) -> (r: Option<i64>)
    requires
        is_instant(t as int),
        in_duration_range(secs as int),
    ensures
        r == (if is_instant(t + secs) {
            Some((t + secs) as i64)
        } else {
            None
        }),
{
    let start = chrono::DateTime::from_timestamp(t, 0)?;
    Some(start.checked_add_signed(chrono::TimeDelta::try_seconds(secs)?)?.timestamp())
}

/// Relies on chrono-tz's `FromStr` for `Tz`: a lookup of the name in the
/// database.
#[verifier::external_body]
fn lookup_zone(name: &str) -> (r: Option<chrono_tz::Tz>)
    ensures
        r is Some <==> is_zone_name(name@),
{
    name.parse::<chrono_tz::Tz>().ok()
}

/// Relies on chrono's `DateTime::with_timezone` and `date_naive` with
/// chrono-tz's offsets: the local date of an instant.
#[verifier::external_body]
fn zone_date_at(zone: &Zone, t: i64) -> (r: Option<CalendarDate>)
    requires
        has_local_date(t as int),
    ensures
        r is Some,
        r->0.wf(),
        r->0.ymd() == local_date_of(zone@, t as int),
{
    let d = chrono::DateTime::from_timestamp(t, 0)?.with_timezone(&zone.tz).date_naive();
    Some(CalendarDate { year: d.year(), month: d.month(), day: d.day() })
}

/// Relies on chrono's `NaiveDateTime::and_local_timezone` and
/// `LocalResult::latest` with chrono-tz's offsets.
#[verifier::external_body]
fn zone_instant_of(zone: &Zone, date: CalendarDate, time: ClockTime) -> (r: Option<i64>)
    requires
        date.wf(),
        time.wf(),
    ensures
        pos_of_instant(r) == latest_instant_of(zone@, date.ymd(), time.hms()),
{
    let d = chrono::NaiveDate::from_ymd_opt(date.year, date.month, date.day)?;
    let t = chrono::NaiveTime::from_hms_opt(time.hour, time.minute, time.second)?;
    Some(chrono::NaiveDateTime::new(d, t).and_local_timezone(zone.tz).latest()?.timestamp())
}

} // verus!
