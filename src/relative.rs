//! Relative durations: "5m", "1h30m", "in 2 Tagen und 3 Stunden".
use crate::calendar::{in_duration_range, Duration, MAX_DURATION};
use crate::text::{
    number, number_at, pos_of, tag, tag_at, tag_either, tag_either_at, lemma_digits_end_bounds,
};
use vstd::prelude::*;

verus! {

pub const I64_MAX: u64 = 9223372036854775807;

/// The units a relative duration is made of.
#[derive(Clone, Copy, Debug, PartialEq, Eq, Structural)]
pub enum Unit {
    Seconds,
    Minutes,
    Hours,
    Days,
    Weeks,
}

pub open spec fn unit_secs(u: Unit) -> int {
    match u {
        Unit::Seconds => 1,
        Unit::Minutes => 60,
        Unit::Hours => 3600,
        Unit::Days => 86400,
        Unit::Weeks => 604800,
    }
}

/// Every unit, in the order in which they are tried.
pub open spec fn all_units() -> Seq<Unit> {
    seq![Unit::Seconds, Unit::Minutes, Unit::Hours, Unit::Days, Unit::Weeks]
}

/// The units of a date offset.
pub open spec fn date_units() -> Seq<Unit> {
    seq![Unit::Days, Unit::Weeks]
}

pub open spec fn or_else(a: Option<int>, b: Option<int>) -> Option<int> {
    if a is Some {
        a
    } else {
        b
    }
}

/// The short forms ("s", "sec", "m", "min", "h", "d", "w").
pub open spec fn short_tag(s: Seq<char>, i: int, u: Unit) -> Option<int> {
    match u {
        Unit::Seconds => or_else(tag_at(s, i, "sec"@), tag_at(s, i, "s"@)),
        Unit::Minutes => or_else(tag_at(s, i, "min"@), tag_at(s, i, "m"@)),
        Unit::Hours => tag_at(s, i, "h"@),
        Unit::Days => tag_at(s, i, "d"@),
        Unit::Weeks => tag_at(s, i, "w"@),
    }
}

/// The German words, plural before singular, capitalised or lower-case.
pub open spec fn long_tag(s: Seq<char>, i: int, u: Unit) -> Option<int> {
    match u {
        Unit::Seconds => or_else(
            tag_either_at(s, i, "Sekunden"@, "sekunden"@),
            tag_either_at(s, i, "Sekunde"@, "sekunde"@),
        ),
        Unit::Minutes => or_else(
            tag_either_at(s, i, "Minuten"@, "minuten"@),
            tag_either_at(s, i, "Minute"@, "minute"@),
        ),
        Unit::Hours => or_else(
            tag_either_at(s, i, "Stunden"@, "stunden"@),
            tag_either_at(s, i, "Stunde"@, "stunde"@),
        ),
        Unit::Days => or_else(
            tag_either_at(s, i, "Tagen"@, "tagen"@),
            or_else(tag_either_at(s, i, "Tage"@, "tage"@), tag_either_at(s, i, "Tag"@, "tag"@)),
        ),
        Unit::Weeks => or_else(
            tag_either_at(s, i, "Wochen"@, "wochen"@),
            tag_either_at(s, i, "Woche"@, "woche"@),
        ),
    }
}

/// A unit name after a number: a short form, optionally after one space, or
/// else a space and a German word.
pub open spec fn unit_tag(s: Seq<char>, i: int, u: Unit) -> Option<int> {
    let j = if tag_at(s, i, " "@) is Some { i + 1 } else { i };
    match short_tag(s, j, u) {
        Some(k) => Some(k),
        None => if tag_at(s, i, " "@) is Some {
            long_tag(s, i + 1, u)
        } else {
            None
        },
    }
}

/// A count and a unit: where it ends and how many seconds it stands for.
pub open spec fn unit_at(s: Seq<char>, i: int, u: Unit) -> Option<(int, int)> {
    match number_at(s, i, I64_MAX as int) {
        None => None,
        Some((j, n)) => match unit_tag(s, j, u) {
            None => None,
            Some(k) => if in_duration_range(n * unit_secs(u)) {
                Some((k, n * unit_secs(u)))
            } else {
                None
            },
        },
    }
}

/// The first candidate, from index `k` on, whose unit stands at `i`.
pub open spec fn first_hit(s: Seq<char>, i: int, cands: Seq<Unit>, k: int) -> Option<int>
    decreases cands.len() - k,
{
    if k < 0 || k >= cands.len() {
        None
    } else if unit_at(s, i, cands[k]) is Some {
        Some(k)
    } else {
        first_hit(s, i, cands, k + 1)
    }
}

/// The candidate units in any order, each at most once: the first candidate
/// that stands at the current position is taken and leaves the candidates,
/// until none stands there. Gives the end and the total in seconds.
pub open spec fn permute_units(s: Seq<char>, i: int, cands: Seq<Unit>) -> (int, int)
    decreases cands.len(),
{
    match first_hit(s, i, cands, 0) {
        // `first_hit` gives an index of the candidates; the test only bounds
        // the recursion
        Some(k) => if 0 <= k < cands.len() {
            let (j, v) = unit_at(s, i, cands[k])->0;
            let (e, rest) = permute_units(s, j, cands.remove(k));
            (e, v + rest)
        } else {
            (i, 0)
        },
        None => (i, 0),
    }
}

/// Candidate units in any order with a total that is neither zero nor out of
/// range.
pub open spec fn units_at(s: Seq<char>, i: int, cands: Seq<Unit>) -> Option<(int, int)> {
    let (e, v) = permute_units(s, i, cands);
    if v == 0 || v > MAX_DURATION {
        None
    } else {
        Some((e, v))
    }
}

/// The separators between parts: " und ", ", " or " ".
pub open spec fn sep_at(s: Seq<char>, i: int) -> Option<int> {
    or_else(tag_at(s, i, " und "@), or_else(tag_at(s, i, ", "@), tag_at(s, i, " "@)))
}

/// After an optional "In " or "in ".
pub open spec fn after_in(s: Seq<char>, i: int) -> int {
    match tag_either_at(s, i, "In "@, "in "@) {
        Some(j) => j,
        None => i,
    }
}

/// Parts joined by separators, each an optional "in " and candidate units;
/// a separator not followed by a part is left over. The totals are summed;
/// a sum out of range fails the chain.
pub open spec fn chain_at(s: Seq<char>, i: int, cands: Seq<Unit>) -> Option<(int, int)>
    decreases s.len() - i,
{
    match units_at(s, after_in(s, i), cands) {
        None => None,
        Some((p1, d1)) => match sep_at(s, p1) {
            None => Some((p1, d1)),
            // a part and a separator each take at least one character
            // (`lemma_chain_bounds`); the test only bounds the recursion
            Some(p2) => if i < p2 <= s.len() {
                match chain_at(s, p2, cands) {
                    None => Some((p1, d1)),
                    Some((p3, d2)) => if d1 + d2 <= MAX_DURATION {
                        Some((p3, d1 + d2))
                    } else {
                        None
                    },
                }
            } else {
                Some((p1, d1))
            },
        },
    }
}

pub open spec fn span_of(r: Option<(usize, Duration)>) -> Option<(int, int)> {
    match r {
        Some((j, d)) => Some((j as int, d.secs as int)),
        None => None,
    }
}

fn or_else_exec(a: Option<usize>, b: Option<usize>) -> (r: Option<usize>)
    ensures
        pos_of(r) == or_else(pos_of(a), pos_of(b)),
{
    if a.is_some() {
        a
    } else {
        b
    }
}

fn short_tag_exec(s: &Vec<char>, i: usize, u: Unit) -> (r: Option<usize>)
    requires
        i <= s@.len(),
    ensures
        pos_of(r) == short_tag(s@, i as int, u),
{
    match u {
        Unit::Seconds => or_else_exec(tag(s, i, "sec"), tag(s, i, "s")),
        Unit::Minutes => or_else_exec(tag(s, i, "min"), tag(s, i, "m")),
        Unit::Hours => tag(s, i, "h"),
        Unit::Days => tag(s, i, "d"),
        Unit::Weeks => tag(s, i, "w"),
    }
}

fn long_tag_exec(s: &Vec<char>, i: usize, u: Unit) -> (r: Option<usize>)
    requires
        i <= s@.len(),
    ensures
        pos_of(r) == long_tag(s@, i as int, u),
{
    match u {
        Unit::Seconds => or_else_exec(
            tag_either(s, i, "Sekunden", "sekunden"),
            tag_either(s, i, "Sekunde", "sekunde"),
        ),
        Unit::Minutes => or_else_exec(
            tag_either(s, i, "Minuten", "minuten"),
            tag_either(s, i, "Minute", "minute"),
        ),
        Unit::Hours => or_else_exec(
            tag_either(s, i, "Stunden", "stunden"),
            tag_either(s, i, "Stunde", "stunde"),
        ),
        Unit::Days => or_else_exec(
            tag_either(s, i, "Tagen", "tagen"),
            or_else_exec(tag_either(s, i, "Tage", "tage"), tag_either(s, i, "Tag", "tag")),
        ),
        Unit::Weeks => or_else_exec(
            tag_either(s, i, "Wochen", "wochen"),
            tag_either(s, i, "Woche", "woche"),
        ),
    }
}

fn unit_tag_exec(s: &Vec<char>, i: usize, u: Unit) -> (r: Option<usize>)
    requires
        i <= s@.len(),
    ensures
        pos_of(r) == unit_tag(s@, i as int, u),
{
    proof {
        reveal_strlit(" ");
    }
    let space = tag(s, i, " ");
    let j = match space {
        Some(k) => k,
        None => i,
    };
    match short_tag_exec(s, j, u) {
        Some(k) => Some(k),
        None => match space {
            Some(k) => long_tag_exec(s, k, u),
            None => None,
        },
    }
}

fn unit_secs_exec(u: Unit) -> (r: i64)
    ensures
        r as int == unit_secs(u),
{
    match u {
        Unit::Seconds => 1,
        Unit::Minutes => 60,
        Unit::Hours => 3600,
        Unit::Days => 86400,
        Unit::Weeks => 604800,
    }
}

/// A count and a unit at `i`, see `unit_at`.
pub fn unit(s: &Vec<char>, i: usize, u: Unit) -> (r: Option<(usize, Duration)>)
    requires
        i <= s@.len(),
    ensures
        span_of(r) == unit_at(s@, i as int, u),
{
    match number(s, i, I64_MAX) {
        None => None,
        Some((j, n)) => {
            proof {
                lemma_digits_end_bounds(s@, i as int);
            }
            match unit_tag_exec(s, j, u) {
                None => None,
                Some(k) => match Duration::try_from_units(n as i64, unit_secs_exec(u)) {
                    Some(d) => Some((k, d)),
                    None => None,
                },
            }
        },
    }
}

pub proof fn lemma_tag_bounds(s: Seq<char>, i: int, u: Unit)
    ensures
        short_tag(s, i, u) matches Some(k) ==> i < k <= s.len(),
        long_tag(s, i, u) matches Some(k) ==> i < k <= s.len(),
{
    reveal_strlit("sec");
    reveal_strlit("s");
    reveal_strlit("min");
    reveal_strlit("m");
    reveal_strlit("h");
    reveal_strlit("d");
    reveal_strlit("w");
    reveal_strlit("Sekunden");
    reveal_strlit("sekunden");
    reveal_strlit("Sekunde");
    reveal_strlit("sekunde");
    reveal_strlit("Minuten");
    reveal_strlit("minuten");
    reveal_strlit("Minute");
    reveal_strlit("minute");
    reveal_strlit("Stunden");
    reveal_strlit("stunden");
    reveal_strlit("Stunde");
    reveal_strlit("stunde");
    reveal_strlit("Tagen");
    reveal_strlit("tagen");
    reveal_strlit("Tage");
    reveal_strlit("tage");
    reveal_strlit("Tag");
    reveal_strlit("tag");
    reveal_strlit("Wochen");
    reveal_strlit("wochen");
    reveal_strlit("Woche");
    reveal_strlit("woche");
}

/// A unit that stands at `i` ends after `i`, within the text, and stands for
/// a positive number of seconds in range.
pub proof fn lemma_unit_bounds(s: Seq<char>, i: int, u: Unit)
    requires
        0 <= i <= s.len(),
    ensures
        unit_at(s, i, u) matches Some((k, v)) ==> i < k <= s.len() && 0 <= v <= MAX_DURATION,
{
    lemma_digits_end_bounds(s, i);
    if let Some((j, n)) = number_at(s, i, I64_MAX as int) {
        reveal_strlit(" ");
        lemma_tag_bounds(s, j, u);
        lemma_tag_bounds(s, j + 1, u);
        crate::text::lemma_digits_value_grows(s, i, i, j);
        assert(n >= 0);
        assert(n * unit_secs(u) >= 0) by (nonlinear_arith)
            requires
                n >= 0,
                unit_secs(u) > 0,
        ;
    }
}

pub proof fn lemma_first_hit(s: Seq<char>, i: int, cands: Seq<Unit>, k: int)
    requires
        0 <= k,
    ensures
        first_hit(s, i, cands, k) matches Some(x) ==> k <= x < cands.len() && unit_at(s, i, cands[x]) is Some,
    decreases cands.len() - k,
{
    if k < cands.len() && unit_at(s, i, cands[k]) is None {
        lemma_first_hit(s, i, cands, k + 1);
    }
}

/// The units taken end within the text, after `i` if any was taken, and add
/// up to at most `MAX_DURATION` each.
pub proof fn lemma_permute_bounds(s: Seq<char>, i: int, cands: Seq<Unit>)
    requires
        0 <= i <= s.len(),
    ensures
        i <= permute_units(s, i, cands).0 <= s.len(),
        0 <= permute_units(s, i, cands).1 <= cands.len() * MAX_DURATION,
        permute_units(s, i, cands).1 != 0 ==> permute_units(s, i, cands).0 > i,
    decreases cands.len(),
{
    lemma_first_hit(s, i, cands, 0);
    if let Some(k) = first_hit(s, i, cands, 0) {
        lemma_unit_bounds(s, i, cands[k]);
        let (j, v) = unit_at(s, i, cands[k])->0;
        lemma_permute_bounds(s, j, cands.remove(k));
        assert((cands.len() - 1) * MAX_DURATION + MAX_DURATION == cands.len() * MAX_DURATION)
            by (nonlinear_arith);
    }
}

/// A chain ends after `i`, within the text, and stands for a positive
/// duration in range.
pub proof fn lemma_chain_bounds(s: Seq<char>, i: int, cands: Seq<Unit>)
    requires
        0 <= i <= s.len(),
    ensures
        chain_at(s, i, cands) matches Some((e, d)) ==> i < e <= s.len() && 0 < d <= MAX_DURATION,
    decreases s.len() - i,
{
    lemma_after_in(s, i);
    let p0 = after_in(s, i);
    lemma_permute_bounds(s, p0, cands);
    if let Some((p1, d1)) = units_at(s, p0, cands) {
        if let Some(p2) = sep_at(s, p1) {
            if i < p2 <= s.len() {
                lemma_chain_bounds(s, p2, cands);
            }
        }
    }
}

pub proof fn lemma_after_in(s: Seq<char>, i: int)
    requires
        0 <= i <= s.len(),
    ensures
        i <= after_in(s, i) <= s.len(),
{
    reveal_strlit("In ");
    reveal_strlit("in ");
}

pub proof fn lemma_sep_bounds(s: Seq<char>, i: int)
    ensures
        sep_at(s, i) matches Some(k) ==> i < k <= s.len(),
{
    reveal_strlit(" und ");
    reveal_strlit(", ");
    reveal_strlit(" ");
}

/// The first candidate that stands at `i`: its index, end and duration.
fn find_hit(s: &Vec<char>, i: usize, cands: &Vec<Unit>) -> (r: Option<(usize, usize, Duration)>)
    requires
        i <= s@.len(),
    ensures
        match r {
            Some((k, j, d)) => first_hit(s@, i as int, cands@, 0) == Some(k as int) && k < cands@.len()
                && unit_at(s@, i as int, cands@[k as int]) == Some((j as int, d.secs as int)),
            None => first_hit(s@, i as int, cands@, 0) is None,
        },
{
    let mut k: usize = 0;
    while k < cands.len()
        invariant
            k <= cands@.len(),
            i <= s@.len(),
            first_hit(s@, i as int, cands@, 0) == first_hit(s@, i as int, cands@, k as int),
        decreases cands@.len() - k,
    {
        match unit(s, i, cands[k]) {
            Some((j, d)) => {
                return Some((k, j, d));
            },
            None => {},
        }
        k = k + 1;
    }
    None
}

fn without(cands: &Vec<Unit>, k: usize) -> (r: Vec<Unit>)
    requires
        k < cands@.len(),
    ensures
        r@ == cands@.remove(k as int),
{
    let mut r: Vec<Unit> = Vec::new();
    let mut x: usize = 0;
    while x < cands.len()
        invariant
            x <= cands@.len(),
            k < cands@.len(),
            r@ == (if x <= k {
                cands@.subrange(0, x as int)
            } else {
                cands@.subrange(0, k as int) + cands@.subrange(k + 1, x as int)
            }),
        decreases cands@.len() - x,
    {
        if x != k {
            r.push(cands[x]);
        }
        x = x + 1;
        proof {
            if x <= k {
                assert(r@ =~= cands@.subrange(0, x as int));
            } else {
                assert(r@ =~= cands@.subrange(0, k as int) + cands@.subrange(k + 1, x as int));
            }
        }
    }
    assert(r@ =~= cands@.remove(k as int));
    r
}

/// The candidate units in any order at `i`, see `permute_units`.
fn permute(s: &Vec<char>, i: usize, cands: &Vec<Unit>) -> (r: (usize, i64))
    requires
        i <= s@.len(),
        cands@.len() <= 5,
    ensures
        (r.0 as int, r.1 as int) == permute_units(s@, i as int, cands@),
    decreases cands@.len(),
{
    match find_hit(s, i, cands) {
        None => (i, 0),
        Some((k, j, d)) => {
            let rest = without(cands, k);
            proof {
                lemma_unit_bounds(s@, i as int, cands@[k as int]);
                lemma_permute_bounds(s@, j as int, rest@);
                assert(rest@.len() * MAX_DURATION <= 4 * MAX_DURATION) by (nonlinear_arith)
                    requires
                        rest@.len() <= 4,
                ;
            }
            let (e, v) = permute(s, j, &rest);
            (e, d.secs + v)
        },
    }
}

/// Candidate units at `i` with a total neither zero nor out of range.
pub fn units(s: &Vec<char>, i: usize, cands: &Vec<Unit>) -> (r: Option<(usize, Duration)>)
    requires
        i <= s@.len(),
        cands@.len() <= 5,
    ensures
        span_of(r) == units_at(s@, i as int, cands@),
{
    let (e, v) = permute(s, i, cands);
    if v == 0 || v > MAX_DURATION {
        None
    } else {
        Some((e, Duration { secs: v }))
    }
}

fn sep(s: &Vec<char>, i: usize) -> (r: Option<usize>)
    requires
        i <= s@.len(),
    ensures
        pos_of(r) == sep_at(s@, i as int),
{
    or_else_exec(tag(s, i, " und "), or_else_exec(tag(s, i, ", "), tag(s, i, " ")))
}

pub fn skip_in(s: &Vec<char>, i: usize) -> (r: usize)
    requires
        i <= s@.len(),
    ensures
        r as int == after_in(s@, i as int),
{
    match tag_either(s, i, "In ", "in ") {
        Some(j) => j,
        None => i,
    }
}

/// Parts joined by separators at `i`, see `chain_at`.
pub fn chain(s: &Vec<char>, i: usize, cands: &Vec<Unit>) -> (r: Option<(usize, Duration)>)
    requires
        i <= s@.len(),
        cands@.len() <= 5,
    ensures
        span_of(r) == chain_at(s@, i as int, cands@),
    decreases s@.len() - i,
{
    proof {
        lemma_after_in(s@, i as int);
    }
    let p0 = skip_in(s, i);
    match units(s, p0, cands) {
        None => None,
        Some((p1, d1)) => {
            proof {
                lemma_permute_bounds(s@, p0 as int, cands@);
                lemma_sep_bounds(s@, p1 as int);
            }
            match sep(s, p1) {
                None => Some((p1, d1)),
                Some(p2) => match chain(s, p2, cands) {
                    None => Some((p1, d1)),
                    Some((p3, d2)) => {
                        proof {
                            lemma_chain_bounds(s@, p2 as int, cands@);
                        }
                        match d1.checked_add(d2) {
                            Some(d) => Some((p3, d)),
                            None => None,
                        }
                    },
                },
            }
        },
    }
}

/// The candidates of a relative duration: every unit, or days and weeks.
pub fn unit_list(date_only: bool) -> (r: Vec<Unit>)
    ensures
        r@ == (if date_only {
            date_units()
        } else {
            all_units()
        }),
{
    if date_only {
        let r = vec![Unit::Days, Unit::Weeks];
        assert(r@ =~= date_units());
        r
    } else {
        let r = vec![Unit::Seconds, Unit::Minutes, Unit::Hours, Unit::Days, Unit::Weeks];
        assert(r@ =~= all_units());
        r
    }
}

/// A duration whose count and unit exceed the range of durations is not
/// read, rather than wrapped around; no unit, and no chain of them, stands
/// for more than `MAX_DURATION` seconds.
pub proof fn lemma_overflow_rejected(s: Seq<char>, i: int, u: Unit, cands: Seq<Unit>)
    requires
        0 <= i <= s.len(),
    ensures
        number_at(s, i, I64_MAX as int) matches Some((j, n)) && n * unit_secs(u) > MAX_DURATION
            ==> unit_at(s, i, u) is None,
        unit_at(s, i, u) matches Some((k, v)) ==> v <= MAX_DURATION,
        chain_at(s, i, cands) matches Some((e, d)) ==> d <= MAX_DURATION,
{
    lemma_unit_bounds(s, i, u);
    lemma_chain_bounds(s, i, cands);
}

/// A relative duration that is read is never zero: "0s", or any parts that
/// all count zero, are not read.
pub proof fn lemma_zero_rejected(s: Seq<char>, i: int, cands: Seq<Unit>)
    requires
        0 <= i <= s.len(),
    ensures
        units_at(s, i, cands) matches Some((e, v)) ==> v > 0,
        chain_at(s, i, cands) matches Some((e, d)) ==> d > 0,
{
    lemma_permute_bounds(s, i, cands);
    lemma_chain_bounds(s, i, cands);
}

} // verus!
