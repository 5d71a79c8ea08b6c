//! Absolute and mixed expressions: "10.11.2025 14:00", "Morgen um 10:00 Uhr",
//! "in 2 Tagen um 9:30".
use crate::calendar::{
    day_after, has_local_date, is_instant, is_valid_date, is_valid_time, latest_instant_of,
    local_date_of, CalendarDate, ClockTime, Zone, instant_plus, MAX_DURATION, MAX_INSTANT, MIN_INSTANT,
    SECS_PER_DAY,
};
use crate::relative::{chain, chain_at, date_units, lemma_chain_bounds, unit_list};
use crate::text::{number, number_at, tag, tag_at, tag_either, tag_either_at, lemma_digits_end_bounds};
use vstd::prelude::*;

verus! {

pub const U32_MAX: u64 = 4294967295;

pub const I32_MAX: u64 = 2147483647;

/// `day.month.year`, a real calendar day.
pub open spec fn date_at(s: Seq<char>, i: int) -> Option<(int, (int, int, int))> {
    match number_at(s, i, U32_MAX as int) {
        None => None,
        Some((a, d)) => match tag_at(s, a, "."@) {
            None => None,
            Some(b) => match number_at(s, b, U32_MAX as int) {
                None => None,
                Some((c, m)) => match tag_at(s, c, "."@) {
                    None => None,
                    Some(e) => match number_at(s, e, I32_MAX as int) {
                        None => None,
                        Some((f, y)) => if is_valid_date(y, m, d) {
                            Some((f, (y, m, d)))
                        } else {
                            None
                        },
                    },
                },
            },
        },
    }
}

/// An optional "Am " or "am ", then a date.
pub open spec fn full_date_at(s: Seq<char>, i: int) -> Option<(int, (int, int, int))> {
    match tag_either_at(s, i, "Am "@, "am "@) {
        Some(j) => date_at(s, j),
        None => date_at(s, i),
    }
}

/// The optional seconds of a time: ":" and a number, else none at all.
pub open spec fn seconds_at(s: Seq<char>, i: int) -> (int, int) {
    match tag_at(s, i, ":"@) {
        Some(j) => match number_at(s, j, U32_MAX as int) {
            Some((k, v)) => (k, v),
            None => (i, 0),
        },
        None => (i, 0),
    }
}

/// `hour:minute`, optionally `:second`, optionally " Uhr", a valid time.
pub open spec fn time_at(s: Seq<char>, i: int) -> Option<(int, (int, int, int))> {
    match number_at(s, i, U32_MAX as int) {
        None => None,
        Some((a, h)) => match tag_at(s, a, ":"@) {
            None => None,
            Some(b) => match number_at(s, b, U32_MAX as int) {
                None => None,
                Some((c, m)) => {
                    let (d, sec) = seconds_at(s, c);
                    let e = match tag_either_at(s, d, " Uhr"@, " uhr"@) {
                        Some(e) => e,
                        None => d,
                    };
                    if is_valid_time(h, m, sec) {
                        Some((e, (h, m, sec)))
                    } else {
                        None
                    }
                },
            },
        },
    }
}

/// An optional "Um " or "um ", then a time.
pub open spec fn full_time_at(s: Seq<char>, i: int) -> Option<(int, (int, int, int))> {
    match tag_either_at(s, i, "Um "@, "um "@) {
        Some(j) => time_at(s, j),
        None => time_at(s, i),
    }
}

/// "Übermorgen": two days after `today`.
pub open spec fn overmorrow_at(s: Seq<char>, i: int, today: (int, int, int)) -> Option<(int, (int, int, int))> {
    match tag_either_at(s, i, "Übermorgen"@, "übermorgen"@) {
        Some(j) => match day_after(today) {
            Some(d1) => match day_after(d1) {
                Some(d2) => Some((j, d2)),
                None => None,
            },
            None => None,
        },
        None => None,
    }
}

/// "Heute", "Morgen" or "Übermorgen", as the date it names; `today` is the
/// local date now, if there is one.
pub open spec fn special_at(s: Seq<char>, i: int, today: Option<(int, int, int)>) -> Option<(int, (int, int, int))> {
    match today {
        None => None,
        Some(t) => match tag_either_at(s, i, "Heute"@, "heute"@) {
            Some(j) => Some((j, t)),
            None => match tag_either_at(s, i, "Morgen"@, "morgen"@) {
                Some(j) => match day_after(t) {
                    Some(d) => Some((j, d)),
                    None => overmorrow_at(s, i, t),
                },
                None => overmorrow_at(s, i, t),
            },
        },
    }
}

/// `first`, one space, then `second`.
pub open spec fn spaced<A, B>(s: Seq<char>, first: Option<(int, A)>, second: spec_fn(int) -> Option<(int, B)>) -> Option<(int, A, B)> {
    match first {
        None => None,
        Some((a, x)) => match tag_at(s, a, " "@) {
            None => None,
            Some(b) => match second(b) {
                None => None,
                Some((c, y)) => Some((c, x, y)),
            },
        },
    }
}

pub type Moment = ((int, int, int), (int, int, int));

/// The four orders of a date and a time, the first that stands at `i`.
pub open spec fn date_time_at(s: Seq<char>, i: int, today: Option<(int, int, int)>) -> Option<(int, Moment)> {
    let a = spaced(s, full_date_at(s, i), |j: int| full_time_at(s, j));
    let b = spaced(s, full_time_at(s, i), |j: int| full_date_at(s, j));
    let c = spaced(s, special_at(s, i, today), |j: int| full_time_at(s, j));
    let d = spaced(s, full_time_at(s, i), |j: int| special_at(s, j, today));
    if let Some((e, x, y)) = a {
        Some((e, (x, y)))
    } else if let Some((e, y, x)) = b {
        Some((e, (x, y)))
    } else if let Some((e, x, y)) = c {
        Some((e, (x, y)))
    } else if let Some((e, y, x)) = d {
        Some((e, (x, y)))
    } else {
        None
    }
}

/// A date and time in the zone, as an instant strictly after `now`.
pub open spec fn absolute_at(s: Seq<char>, i: int, zone: Seq<char>, now: int, today: Option<(int, int, int)>) -> Option<(int, int)> {
    match date_time_at(s, i, today) {
        None => None,
        Some((e, (d, t))) => match latest_instant_of(zone, d, t) {
            Some(u) => if u > now {
                Some((e, u))
            } else {
                None
            },
            None => None,
        },
    }
}

/// A date offset (days and weeks) and a time, in either order.
pub open spec fn offset_time_at(s: Seq<char>, i: int) -> Option<(int, (int, (int, int, int)))> {
    let a = spaced(s, chain_at(s, i, date_units()), |j: int| full_time_at(s, j));
    let b = spaced(s, full_time_at(s, i), |j: int| chain_at(s, j, date_units()));
    if let Some((e, x, y)) = a {
        Some((e, (x, y)))
    } else if let Some((e, y, x)) = b {
        Some((e, (x, y)))
    } else {
        None
    }
}

/// The time of day on the local date of `now` plus the offset, as an instant
/// strictly after `now`.
pub open spec fn mixed_at(s: Seq<char>, i: int, zone: Seq<char>, now: int) -> Option<(int, int)> {
    match offset_time_at(s, i) {
        None => None,
        Some((e, (off, t))) => if has_local_date(now + off) {
            match latest_instant_of(zone, local_date_of(zone, now + off), t) {
                Some(u) => if u > now {
                    Some((e, u))
                } else {
                    None
                },
                None => None,
            }
        } else {
            None
        },
    }
}

pub open spec fn date_of(r: Option<(usize, CalendarDate)>) -> Option<(int, (int, int, int))> {
    match r {
        Some((j, d)) => Some((j as int, d.ymd())),
        None => None,
    }
}

pub open spec fn time_of(r: Option<(usize, ClockTime)>) -> Option<(int, (int, int, int))> {
    match r {
        Some((j, t)) => Some((j as int, t.hms())),
        None => None,
    }
}

/// A date at `i`, see `date_at`.
pub fn date(s: &Vec<char>, i: usize) -> (r: Option<(usize, CalendarDate)>)
    requires
        i <= s@.len(),
    ensures
        date_of(r) == date_at(s@, i as int),
        r matches Some((j, d)) ==> d.wf() && j <= s@.len(),
{
    proof {
        reveal_strlit(".");
    }
    let (a, d) = match number(s, i, U32_MAX) {
        Some(x) => x,
        None => return None,
    };
    proof { lemma_digits_end_bounds(s@, i as int); }
    let b = match tag(s, a, ".") {
        Some(x) => x,
        None => return None,
    };
    let (c, m) = match number(s, b, U32_MAX) {
        Some(x) => x,
        None => return None,
    };
    proof { lemma_digits_end_bounds(s@, b as int); }
    let e = match tag(s, c, ".") {
        Some(x) => x,
        None => return None,
    };
    let (f, y) = match number(s, e, I32_MAX) {
        Some(x) => x,
        None => return None,
    };
    proof { lemma_digits_end_bounds(s@, e as int); }
    match CalendarDate::from_ymd(y as i32, m as u32, d as u32) {
        Some(date) => Some((f, date)),
        None => None,
    }
}

/// An optional "Am ", then a date.
pub fn full_date(s: &Vec<char>, i: usize) -> (r: Option<(usize, CalendarDate)>)
    requires
        i <= s@.len(),
    ensures
        date_of(r) == full_date_at(s@, i as int),
        r matches Some((j, d)) ==> d.wf() && j <= s@.len(),
{
    match tag_either(s, i, "Am ", "am ") {
        Some(j) => date(s, j),
        None => date(s, i),
    }
}

/// A time at `i`, see `time_at`.
pub fn time(s: &Vec<char>, i: usize) -> (r: Option<(usize, ClockTime)>)
    requires
        i <= s@.len(),
    ensures
        time_of(r) == time_at(s@, i as int),
        r matches Some((j, t)) ==> t.wf() && j <= s@.len(),
{
    proof {
        reveal_strlit(":");
    }
    let (a, h) = match number(s, i, U32_MAX) {
        Some(x) => x,
        None => return None,
    };
    proof { lemma_digits_end_bounds(s@, i as int); }
    let b = match tag(s, a, ":") {
        Some(x) => x,
        None => return None,
    };
    let (c, m) = match number(s, b, U32_MAX) {
        Some(x) => x,
        None => return None,
    };
    proof { lemma_digits_end_bounds(s@, b as int); }
    let (d, sec) = match tag(s, c, ":") {
        Some(j) => match number(s, j, U32_MAX) {
            Some((k, v)) => {
                proof { lemma_digits_end_bounds(s@, j as int); }
                (k, v)
            },
            None => (c, 0),
        },
        None => (c, 0),
    };
    let e = match tag_either(s, d, " Uhr", " uhr") {
        Some(e) => e,
        None => d,
    };
    match ClockTime::from_hms(h as u32, m as u32, sec as u32) {
        Some(t) => Some((e, t)),
        None => None,
    }
}

/// An optional "Um ", then a time.
pub fn full_time(s: &Vec<char>, i: usize) -> (r: Option<(usize, ClockTime)>)
    requires
        i <= s@.len(),
    ensures
        time_of(r) == full_time_at(s@, i as int),
        r matches Some((j, t)) ==> t.wf() && j <= s@.len(),
{
    match tag_either(s, i, "Um ", "um ") {
        Some(j) => time(s, j),
        None => time(s, i),
    }
}

pub open spec fn today_of(today: Option<CalendarDate>) -> Option<(int, int, int)> {
    match today {
        Some(d) => Some(d.ymd()),
        None => None,
    }
}

pub open spec fn today_wf(today: Option<CalendarDate>) -> bool {
    today matches Some(d) ==> d.wf()
}

fn overmorrow(s: &Vec<char>, i: usize, today: CalendarDate) -> (r: Option<(usize, CalendarDate)>)
    requires
        i <= s@.len(),
        today.wf(),
    ensures
        date_of(r) == overmorrow_at(s@, i as int, today.ymd()),
        r matches Some((j, d)) ==> d.wf() && j <= s@.len(),
{
    match tag_either(s, i, "Übermorgen", "übermorgen") {
        Some(j) => match today.succ() {
            Some(d1) => match d1.succ() {
                Some(d2) => Some((j, d2)),
                None => None,
            },
            None => None,
        },
        None => None,
    }
}

/// "Heute", "Morgen" or "Übermorgen" at `i`, see `special_at`.
pub fn special(s: &Vec<char>, i: usize, today: Option<CalendarDate>) -> (r: Option<(usize, CalendarDate)>)
    requires
        i <= s@.len(),
        today_wf(today),
    ensures
        date_of(r) == special_at(s@, i as int, today_of(today)),
        r matches Some((j, d)) ==> d.wf() && j <= s@.len(),
{
    let t = match today {
        Some(t) => t,
        None => return None,
    };
    match tag_either(s, i, "Heute", "heute") {
        Some(j) => Some((j, t)),
        None => match tag_either(s, i, "Morgen", "morgen") {
            Some(j) => match t.succ() {
                Some(d) => Some((j, d)),
                None => overmorrow(s, i, t),
            },
            None => overmorrow(s, i, t),
        },
    }
}

pub open spec fn moment_of(r: Option<(usize, CalendarDate, ClockTime)>) -> Option<(int, Moment)> {
    match r {
        Some((j, d, t)) => Some((j as int, (d.ymd(), t.hms()))),
        None => None,
    }
}

/// A date and a time in one of four orders at `i`, see `date_time_at`.
pub fn date_time(s: &Vec<char>, i: usize, today: Option<CalendarDate>) -> (r: Option<(usize, CalendarDate, ClockTime)>)
    requires
        i <= s@.len(),
        today_wf(today),
    ensures
        moment_of(r) == date_time_at(s@, i as int, today_of(today)),
        r matches Some((j, d, t)) ==> d.wf() && t.wf() && j <= s@.len(),
{
    proof {
        reveal_strlit(" ");
    }
    if let Some((j, d)) = full_date(s, i) {
        if let Some(k) = tag(s, j, " ") {
            if let Some((e, t)) = full_time(s, k) {
                return Some((e, d, t));
            }
        }
    }
    if let Some((j, t)) = full_time(s, i) {
        if let Some(k) = tag(s, j, " ") {
            if let Some((e, d)) = full_date(s, k) {
                return Some((e, d, t));
            }
        }
    }
    if let Some((j, d)) = special(s, i, today) {
        if let Some(k) = tag(s, j, " ") {
            if let Some((e, t)) = full_time(s, k) {
                return Some((e, d, t));
            }
        }
    }
    if let Some((j, t)) = full_time(s, i) {
        if let Some(k) = tag(s, j, " ") {
            if let Some((e, d)) = special(s, k, today) {
                return Some((e, d, t));
            }
        }
    }
    None
}

pub open spec fn instant_of(r: Option<(usize, i64)>) -> Option<(int, int)> {
    match r {
        Some((j, u)) => Some((j as int, u as int)),
        None => None,
    }
}

/// A date and a time at `i` as an instant after `now`, see `absolute_at`.
pub fn absolute(s: &Vec<char>, i: usize, zone: &Zone, now: i64, today: Option<CalendarDate>) -> (r: Option<(usize, i64)>)
    requires
        i <= s@.len(),
        today_wf(today),
    ensures
        instant_of(r) == absolute_at(s@, i as int, zone@, now as int, today_of(today)),
        r matches Some((j, u)) ==> j <= s@.len(),
{
    match date_time(s, i, today) {
        None => None,
        Some((e, d, t)) => match zone.resolve(d, t) {
            Some(u) => if u > now {
                Some((e, u))
            } else {
                None
            },
            None => None,
        },
    }
}

/// A date offset and a time at `i`, see `offset_time_at`.
fn offset_time(s: &Vec<char>, i: usize) -> (r: Option<(usize, i64, ClockTime)>)
    requires
        i <= s@.len(),
    ensures
        match r {
            Some((e, off, t)) => offset_time_at(s@, i as int) == Some((e as int, (off as int, t.hms())))
                && t.wf() && 0 < off <= MAX_DURATION && e <= s@.len(),
            None => offset_time_at(s@, i as int) is None,
        },
{
    proof {
        reveal_strlit(" ");
    }
    let cands = unit_list(true);
    if let Some((j, off)) = chain(s, i, &cands) {
        proof { lemma_chain_bounds(s@, i as int, cands@); }
        if let Some(k) = tag(s, j, " ") {
            if let Some((e, t)) = full_time(s, k) {
                return Some((e, off.secs, t));
            }
        }
    }
    if let Some((j, t)) = full_time(s, i) {
        if let Some(k) = tag(s, j, " ") {
            if let Some((e, off)) = chain(s, k, &cands) {
                proof {
                    crate::text::lemma_tag_end(s@, j as int, " "@);
                    lemma_chain_bounds(s@, k as int, cands@);
                }
                return Some((e, off.secs, t));
            }
        }
    }
    None
}

/// A date offset and a time at `i` as an instant after `now`, see `mixed_at`.
pub fn mixed(s: &Vec<char>, i: usize, zone: &Zone, now: i64) -> (r: Option<(usize, i64)>)
    requires
        i <= s@.len(),
        is_instant(now as int),
    ensures
        instant_of(r) == mixed_at(s@, i as int, zone@, now as int),
        r matches Some((j, u)) ==> j <= s@.len(),
{
    let (e, off, t) = match offset_time(s, i) {
        Some(x) => x,
        None => return None,
    };
    let start = match instant_plus(now, off) {
        Some(u) => u,
        None => return None,
    };
    if !(MIN_INSTANT + SECS_PER_DAY <= start && start <= MAX_INSTANT - SECS_PER_DAY) {
        return None;
    }
    let day = zone.local_date(start);
    match zone.resolve(day, t) {
        Some(u) => if u > now {
            Some((e, u))
        } else {
            None
        },
        None => None,
    }
}

proof fn lemma_number_within(s: Seq<char>, i: int, max: int)
    requires
        0 <= i <= s.len(),
    ensures
        number_at(s, i, max) matches Some((j, v)) ==> i < j <= s.len(),
{
    lemma_digits_end_bounds(s, i);
}

proof fn lemma_date_within(s: Seq<char>, i: int)
    requires
        0 <= i <= s.len(),
    ensures
        full_date_at(s, i) matches Some((e, d)) ==> i <= e <= s.len(),
{
    crate::text::lemma_tag_end(s, i, "Am "@);
    crate::text::lemma_tag_end(s, i, "am "@);
    let j = match tag_either_at(s, i, "Am "@, "am "@) {
        Some(j) => j,
        None => i,
    };
    lemma_number_within(s, j, U32_MAX as int);
    if let Some((a, d)) = number_at(s, j, U32_MAX as int) {
        crate::text::lemma_tag_end(s, a, "."@);
        if let Some(b) = tag_at(s, a, "."@) {
            lemma_number_within(s, b, U32_MAX as int);
            if let Some((c, m)) = number_at(s, b, U32_MAX as int) {
                crate::text::lemma_tag_end(s, c, "."@);
                if let Some(e) = tag_at(s, c, "."@) {
                    lemma_number_within(s, e, I32_MAX as int);
                }
            }
        }
    }
}

proof fn lemma_time_within(s: Seq<char>, i: int)
    requires
        0 <= i <= s.len(),
    ensures
        full_time_at(s, i) matches Some((e, t)) ==> i <= e <= s.len(),
{
    crate::text::lemma_tag_end(s, i, "Um "@);
    crate::text::lemma_tag_end(s, i, "um "@);
    let j = match tag_either_at(s, i, "Um "@, "um "@) {
        Some(j) => j,
        None => i,
    };
    lemma_number_within(s, j, U32_MAX as int);
    if let Some((a, h)) = number_at(s, j, U32_MAX as int) {
        crate::text::lemma_tag_end(s, a, ":"@);
        if let Some(b) = tag_at(s, a, ":"@) {
            lemma_number_within(s, b, U32_MAX as int);
            if let Some((c, m)) = number_at(s, b, U32_MAX as int) {
                crate::text::lemma_tag_end(s, c, ":"@);
                if let Some(k) = tag_at(s, c, ":"@) {
                    lemma_number_within(s, k, U32_MAX as int);
                }
                let (d, sec) = seconds_at(s, c);
                crate::text::lemma_tag_end(s, d, " Uhr"@);
                crate::text::lemma_tag_end(s, d, " uhr"@);
            }
        }
    }
}

proof fn lemma_special_within(s: Seq<char>, i: int, today: Option<(int, int, int)>)
    requires
        0 <= i <= s.len(),
    ensures
        special_at(s, i, today) matches Some((e, d)) ==> i <= e <= s.len(),
{
    crate::text::lemma_tag_end(s, i, "Heute"@);
    crate::text::lemma_tag_end(s, i, "heute"@);
    crate::text::lemma_tag_end(s, i, "Morgen"@);
    crate::text::lemma_tag_end(s, i, "morgen"@);
    crate::text::lemma_tag_end(s, i, "Übermorgen"@);
    crate::text::lemma_tag_end(s, i, "übermorgen"@);
}

proof fn lemma_space_within(s: Seq<char>, i: int)
    ensures
        tag_at(s, i, " "@) matches Some(j) ==> i <= j <= s.len(),
{
    crate::text::lemma_tag_end(s, i, " "@);
}

/// The absolute and mixed forms end within the text.
pub proof fn lemma_forms_within(s: Seq<char>, zone: Seq<char>, now: int, today: Option<(int, int, int)>)
    ensures
        mixed_at(s, 0, zone, now) matches Some((e, u)) ==> 0 <= e <= s.len(),
        absolute_at(s, 0, zone, now, today) matches Some((e, u)) ==> 0 <= e <= s.len(),
{
    lemma_date_within(s, 0);
    lemma_time_within(s, 0);
    lemma_special_within(s, 0, today);
    lemma_chain_bounds(s, 0, date_units());
    if let Some((a, x)) = full_date_at(s, 0) {
        lemma_space_within(s, a);
        if let Some(b) = tag_at(s, a, " "@) {
            lemma_time_within(s, b);
        }
    }
    if let Some((a, x)) = full_time_at(s, 0) {
        lemma_space_within(s, a);
        if let Some(b) = tag_at(s, a, " "@) {
            lemma_date_within(s, b);
            lemma_special_within(s, b, today);
            lemma_chain_bounds(s, b, date_units());
        }
    }
    if let Some((a, x)) = special_at(s, 0, today) {
        lemma_space_within(s, a);
        if let Some(b) = tag_at(s, a, " "@) {
            lemma_time_within(s, b);
        }
    }
    if let Some((a, x)) = chain_at(s, 0, date_units()) {
        lemma_space_within(s, a);
        if let Some(b) = tag_at(s, a, " "@) {
            lemma_time_within(s, b);
        }
    }
}

/// Where a date and a time stand at `i`, in any of the four orders: a local
/// time that the zone skips is not read; otherwise it is read as the later
/// of the instants that show it, where that lies strictly after `now`, and a
/// past instant is rejected rather than clamped. Whatever is read lies after
/// `now`.
pub proof fn lemma_absolute_resolution(s: Seq<char>, i: int, zone: Seq<char>, now: int, today: Option<(int, int, int)>)
    ensures
        date_time_at(s, i, today) matches Some((e, (d, t))) ==> absolute_at(s, i, zone, now, today) == match latest_instant_of(zone, d, t) {
            None => None,
            Some(r) => if r > now {
                Some((e, r))
            } else {
                None
            },
        },
        date_time_at(s, i, today) is None ==> absolute_at(s, i, zone, now, today) is None,
        absolute_at(s, i, zone, now, today) matches Some((e, r)) ==> r > now,
        mixed_at(s, i, zone, now) matches Some((e, r)) ==> r > now,
{
}

} // verus!
