//! The whole expression: a mixed, an absolute or a relative form, in that
//! order, covering all of the text.
use crate::absolute::{absolute, absolute_at, mixed, mixed_at};
use crate::calendar::{
    has_local_date, instant_plus, is_instant, local_date_of, Zone, MAX_INSTANT, MIN_INSTANT,
    SECS_PER_DAY,
};
use crate::relative::{after_in, all_units, chain, chain_at, lemma_after_in, lemma_chain_bounds, skip_in, unit_list, units, units_at};
use crate::text::chars_of;
use vstd::prelude::*;

verus! {

/// The local date now, where the instant has one.
pub open spec fn today_at(zone: Seq<char>, now: int) -> Option<(int, int, int)> {
    if has_local_date(now) {
        Some(local_date_of(zone, now))
    } else {
        None
    }
}

/// A form that ends at `e` succeeds with `u` only where it covers the text;
/// otherwise the text fails from `e` on.
pub open spec fn covering(s: Seq<char>, e: int, u: int) -> Result<int, int> {
    if e == s.len() {
        Ok(u)
    } else {
        Err(e)
    }
}

/// Where the text fails when no form stands at its start: where the relative
/// units should begin, after an optional "in ", when none stands there;
/// else the start of the text.
pub open spec fn relative_failure(s: Seq<char>) -> int {
    if units_at(s, after_in(s, 0), all_units()) is None {
        after_in(s, 0)
    } else {
        0
    }
}

/// The instant that the text `s` names in the zone `zone` at the instant
/// `now`, or the position from which the text could not be read.
pub open spec fn parse_result(s: Seq<char>, zone: Seq<char>, now: int) -> Result<int, int> {
    match mixed_at(s, 0, zone, now) {
        Some((e, u)) => covering(s, e, u),
        None => match absolute_at(s, 0, zone, now, today_at(zone, now)) {
            Some((e, u)) => covering(s, e, u),
            None => match chain_at(s, 0, all_units()) {
                Some((e, d)) => if is_instant(now + d) {
                    covering(s, e, now + d)
                } else {
                    Err(0)
                },
                None => Err(relative_failure(s)),
            },
        },
    }
}

/// Reads a German date or time expression as an instant (seconds since
/// 1970-01-01 00:00:00 UTC) in the zone `tz`, at the instant `now`. On
/// failure, gives the rest of the text from where it could not be read.
pub fn parse_time<'a>(inp: &'a str, tz: &Zone, now: i64) -> (r: Result<i64, &'a str>)
    requires
        is_instant(now as int),
    ensures
        match r {
            Ok(u) => parse_result(inp@, tz@, now as int) == Ok::<int, int>(u as int),
            Err(rest) => parse_result(inp@, tz@, now as int) is Err
                && rest@ == inp@.subrange(parse_result(inp@, tz@, now as int)->Err_0, inp@.len() as int),
        },
{
    let s = chars_of(inp);
    let len = s.len();
    if let Some((e, u)) = mixed(&s, 0, tz, now) {
        return covering_exec(inp, len, e, u);
    }
    let today = if MIN_INSTANT + SECS_PER_DAY <= now && now <= MAX_INSTANT - SECS_PER_DAY {
        Some(tz.local_date(now))
    } else {
        None
    };
    if let Some((e, u)) = absolute(&s, 0, tz, now, today) {
        return covering_exec(inp, len, e, u);
    }
    let cands = unit_list(false);
    match chain(&s, 0, &cands) {
        Some((e, d)) => {
            proof {
                lemma_chain_bounds(s@, 0, cands@);
            }
            match instant_plus(now, d.secs) {
                Some(u) => covering_exec(inp, len, e, u),
                None => Err(inp.substring_char(0, len)),
            }
        },
        None => {
            proof {
                lemma_after_in(s@, 0);
            }
            let p0 = skip_in(&s, 0);
            match units(&s, p0, &cands) {
                None => Err(inp.substring_char(p0, len)),
                Some(_) => Err(inp.substring_char(0, len)),
            }
        },
    }
}

fn covering_exec<'a>(inp: &'a str, len: usize, e: usize, u: i64) -> (r: Result<i64, &'a str>)
    requires
        len == inp@.len(),
        e <= len,
    ensures
        match r {
            Ok(v) => covering(inp@, e as int, u as int) == Ok::<int, int>(v as int),
            Err(rest) => covering(inp@, e as int, u as int) is Err
                && rest@ == inp@.subrange(e as int, len as int),
        },
{
    if e == len {
        Ok(u)
    } else {
        Err(inp.substring_char(e, len))
    }
}

/// Every instant that a text is read as lies strictly after `now`: absolute
/// and mixed forms are checked, and a relative duration is never zero.
pub proof fn lemma_result_after_now(s: Seq<char>, zone: Seq<char>, now: int)
    ensures
        parse_result(s, zone, now) matches Ok(u) ==> u > now,
{
    lemma_chain_bounds(s, 0, all_units());
}

/// A failure is a suffix of the text: the caller finds the first unread
/// character at `s.len()` minus the length of what failed.
pub proof fn lemma_failure_is_suffix(s: Seq<char>, zone: Seq<char>, now: int)
    ensures
        parse_result(s, zone, now) matches Err(p) ==> 0 <= p <= s.len(),
{
    lemma_after_in(s, 0);
    crate::absolute::lemma_forms_within(s, zone, now, today_at(zone, now));
    lemma_chain_bounds(s, 0, all_units());
}

/// Text left over after the form that was read fails the whole text, and
/// the failure is exactly what was left over.
pub proof fn lemma_trailing_text_fails(s: Seq<char>, zone: Seq<char>, now: int, e: int)
    requires
        e < s.len(),
    ensures
        mixed_at(s, 0, zone, now) matches Some((x, u)) && x == e
            ==> parse_result(s, zone, now) == Err::<int, int>(e),
        mixed_at(s, 0, zone, now) is None ==> (absolute_at(s, 0, zone, now, today_at(zone, now)) matches Some((x, u))
            && x == e ==> parse_result(s, zone, now) == Err::<int, int>(e)),
        mixed_at(s, 0, zone, now) is None ==> absolute_at(s, 0, zone, now, today_at(zone, now)) is None
            ==> (chain_at(s, 0, all_units()) matches Some((x, d)) && x == e && is_instant(now + d)
            ==> parse_result(s, zone, now) == Err::<int, int>(e)),
{
}

} // verus!
