//! Expressions written out from numbers ("1h30m", "10.11.2025 14:00"), and
//! what the grammar reads in them: counts of units in any order, a date and
//! a time in either order, and a day word and a time in either order.
use crate::absolute::{
    overmorrow_at, special_at,
    absolute_at, date_at, date_time_at, full_date_at, full_time_at, mixed_at, offset_time_at,
    seconds_at, time_at, I32_MAX, U32_MAX,
};
use crate::calendar::{is_instant, is_valid_date, is_valid_time, latest_instant_of, MAX_DURATION};
use crate::datetime::{parse_result, today_at};
use crate::relative::{
    after_in, all_units, chain_at, date_units, first_hit, permute_units, sep_at, short_tag, unit_at,
    unit_secs, unit_tag, units_at, Unit, I64_MAX,
};
use crate::text::{digits_end, digits_value, is_digit, matches_at, number_at, tag_at};
use vstd::prelude::*;

verus! {

pub open spec fn digit_char(d: int) -> char {
    seq!['0', '1', '2', '3', '4', '5', '6', '7', '8', '9'][d]
}

/// The decimal digits of `n`, without leading zeros.
pub open spec fn decimal(n: nat) -> Seq<char>
    decreases n,
{
    if n < 10 {
        seq![digit_char(n as int)]
    } else {
        decimal(n / 10).push(digit_char((n % 10) as int))
    }
}

/// The letter of a unit's short form.
pub open spec fn unit_letter(u: Unit) -> char {
    match u {
        Unit::Seconds => 's',
        Unit::Minutes => 'm',
        Unit::Hours => 'h',
        Unit::Days => 'd',
        Unit::Weeks => 'w',
    }
}

/// Counts and units written one after the other: "1h30m".
pub open spec fn units_text(items: Seq<(Unit, nat)>) -> Seq<char>
    decreases items.len(),
{
    if items.len() == 0 {
        Seq::empty()
    } else {
        decimal(items[0].1) + seq![unit_letter(items[0].0)] + units_text(items.drop_first())
    }
}

/// The seconds that counts and units stand for together.
pub open spec fn units_total(items: Seq<(Unit, nat)>) -> int
    decreases items.len(),
{
    if items.len() == 0 {
        0
    } else {
        items[0].1 * unit_secs(items[0].0) + units_total(items.drop_first())
    }
}

/// No unit occurs twice.
pub open spec fn distinct_units(items: Seq<(Unit, nat)>) -> bool {
    forall|a: int, b: int| 0 <= a < b < items.len() ==> items[a].0 != items[b].0
}

proof fn lemma_digit_char(d: int)
    requires
        0 <= d <= 9,
    ensures
        is_digit(digit_char(d)),
        digit_char(d) as int - '0' as int == d,
{
}

proof fn lemma_decimal(n: nat)
    ensures
        decimal(n).len() >= 1,
        forall|k: int| 0 <= k < decimal(n).len() ==> is_digit(#[trigger] decimal(n)[k]),
    decreases n,
{
    lemma_digit_char((n % 10) as int);
    if n >= 10 {
        lemma_decimal(n / 10);
        assert forall|k: int| 0 <= k < decimal(n).len() implies is_digit(#[trigger] decimal(n)[k]) by {
            if k < decimal(n).len() - 1 {
                assert(decimal(n)[k] == decimal(n / 10)[k]);
            }
        }
    } else {
        lemma_digit_char(n as int);
    }
}

proof fn lemma_digits_end_run(s: Seq<char>, k: int, e: int)
    requires
        0 <= k <= e <= s.len(),
        forall|x: int| k <= x < e ==> is_digit(#[trigger] s[x]),
        e == s.len() || !is_digit(s[e]),
    ensures
        digits_end(s, k) == e,
    decreases e - k,
{
    if k < e {
        lemma_digits_end_run(s, k + 1, e);
    }
}

proof fn lemma_digits_value_decimal(s: Seq<char>, p: int, n: nat)
    requires
        0 <= p,
        p + decimal(n).len() <= s.len(),
        s.subrange(p, p + decimal(n).len()) == decimal(n),
    ensures
        digits_value(s, p, p + decimal(n).len()) == n,
    decreases n,
{
    let l = decimal(n).len() as int;
    assert(s[p + l - 1] == s.subrange(p, p + l)[l - 1]);
    if n >= 10 {
        lemma_decimal(n / 10);
        let l1 = decimal(n / 10).len();
        assert(decimal(n).subrange(0, l1 as int) =~= decimal(n / 10));
        assert(s.subrange(p, p + l1) =~= s.subrange(p, p + l).subrange(0, l1 as int));
        lemma_digits_value_decimal(s, p, n / 10);
        lemma_digit_char((n % 10) as int);
    } else {
        lemma_digit_char(n as int);
        assert(digits_value(s, p, p) == 0);
    }
}

/// A number written in decimal is read as itself.
pub proof fn lemma_number_decimal(s: Seq<char>, p: int, n: nat, max: int)
    requires
        0 <= p,
        p + decimal(n).len() <= s.len(),
        s.subrange(p, p + decimal(n).len()) == decimal(n),
        p + decimal(n).len() == s.len() || !is_digit(s[p + decimal(n).len()]),
        n <= max,
    ensures
        number_at(s, p, max) == Some((p + decimal(n).len(), n as int)),
{
    lemma_decimal(n);
    let e = p + decimal(n).len();
    assert forall|x: int| p <= x < e implies is_digit(#[trigger] s[x]) by {
        assert(s[x] == s.subrange(p, e)[x - p]);
    }
    lemma_digits_end_run(s, p, e);
    lemma_digits_value_decimal(s, p, n);
}

proof fn lemma_first_chars(s: Seq<char>, i: int, w: Seq<char>)
    ensures
        matches_at(s, i, w) && w.len() >= 1 ==> s[i] == w[0],
        matches_at(s, i, w) && w.len() >= 2 ==> s[i + 1] == w[1],
{
    if matches_at(s, i, w) && w.len() >= 1 {
        assert(s.subrange(i, i + w.len())[0] == s[i]);
    }
    if matches_at(s, i, w) && w.len() >= 2 {
        assert(s.subrange(i, i + w.len())[1] == s[i + 1]);
    }
}

/// After a unit letter that neither 'e' nor 'i' follows, the unit tag of that
/// unit is the letter alone, and no other unit's tag stands there.
proof fn lemma_unit_tag_letter(s: Seq<char>, q: int, u: Unit, c: Unit)
    requires
        0 <= q < s.len(),
        s[q] == unit_letter(u),
        q + 1 == s.len() || (s[q + 1] != 'e' && s[q + 1] != 'i'),
    ensures
        unit_tag(s, q, c) == (if c == u {
            Some(q + 1)
        } else {
            None::<int>
        }),
{
    reveal_strlit(" ");
    reveal_strlit("sec");
    reveal_strlit("s");
    reveal_strlit("min");
    reveal_strlit("m");
    reveal_strlit("h");
    reveal_strlit("d");
    reveal_strlit("w");
    lemma_first_chars(s, q, " "@);
    lemma_first_chars(s, q, "sec"@);
    lemma_first_chars(s, q, "s"@);
    lemma_first_chars(s, q, "min"@);
    lemma_first_chars(s, q, "m"@);
    lemma_first_chars(s, q, "h"@);
    lemma_first_chars(s, q, "d"@);
    lemma_first_chars(s, q, "w"@);
    assert(tag_at(s, q, " "@) is None);
    assert(!matches_at(s, q, "sec"@));
    assert(!matches_at(s, q, "min"@));
    let one = seq![unit_letter(u)];
    assert(s.subrange(q, q + 1) =~= one);
    match u {
        Unit::Seconds => assert("s"@ =~= one),
        Unit::Minutes => assert("m"@ =~= one),
        Unit::Hours => assert("h"@ =~= one),
        Unit::Days => assert("d"@ =~= one),
        Unit::Weeks => assert("w"@ =~= one),
    }
    assert(short_tag(s, q, c) == (if c == u {
        Some(q + 1)
    } else {
        None::<int>
    }));
}

/// A count written in decimal and a unit letter, followed by neither 'e'
/// nor 'i': that unit stands there, and no other.
proof fn lemma_unit_at_item(s: Seq<char>, p: int, u: Unit, n: nat, c: Unit)
    requires
        0 <= p,
        p + decimal(n).len() + 1 <= s.len(),
        s.subrange(p, p + decimal(n).len()) == decimal(n),
        s[p + decimal(n).len()] == unit_letter(u),
        p + decimal(n).len() + 1 == s.len() || (s[p + decimal(n).len() + 1] != 'e' && s[p + decimal(n).len() + 1] != 'i'),
        n * unit_secs(u) <= MAX_DURATION,
    ensures
        unit_at(s, p, c) == (if c == u {
            Some((p + decimal(n).len() + 1, n * unit_secs(u)))
        } else {
            None::<(int, int)>
        }),
{
    assert(n <= I64_MAX) by (nonlinear_arith)
        requires
            n * unit_secs(u) <= MAX_DURATION,
            unit_secs(u) >= 1,
    ;
    lemma_number_decimal(s, p, n, I64_MAX as int);
    lemma_unit_tag_letter(s, p + decimal(n).len(), u, c);
    assert(n * unit_secs(u) >= 0) by (nonlinear_arith)
        requires
            unit_secs(u) >= 1,
    ;
}

proof fn lemma_first_hit_is(s: Seq<char>, p: int, cands: Seq<Unit>, j: int, k: int)
    requires
        0 <= j <= k < cands.len(),
        unit_at(s, p, cands[k]) is Some,
        forall|x: int| j <= x < k ==> unit_at(s, p, #[trigger] cands[x]) is None,
    ensures
        first_hit(s, p, cands, j) == Some(k),
    decreases k - j,
{
    if j < k {
        lemma_first_hit_is(s, p, cands, j + 1, k);
    }
}

proof fn lemma_first_hit_none(s: Seq<char>, p: int, cands: Seq<Unit>, j: int)
    requires
        0 <= j,
        forall|x: int| j <= x < cands.len() ==> unit_at(s, p, #[trigger] cands[x]) is None,
    ensures
        first_hit(s, p, cands, j) is None,
    decreases cands.len() - j,
{
    if j < cands.len() {
        lemma_first_hit_none(s, p, cands, j + 1);
    }
}

proof fn lemma_units_total_nonneg(items: Seq<(Unit, nat)>)
    ensures
        units_total(items) >= 0,
    decreases items.len(),
{
    if items.len() > 0 {
        lemma_units_total_nonneg(items.drop_first());
        assert(items[0].1 * unit_secs(items[0].0) >= 0) by (nonlinear_arith)
            requires
                unit_secs(items[0].0) >= 1,
        ;
    }
}

proof fn lemma_units_text_start(items: Seq<(Unit, nat)>)
    requires
        items.len() > 0,
    ensures
        units_text(items).len() > 0,
        is_digit(units_text(items)[0]),
{
    lemma_decimal(items[0].1);
    assert(units_text(items)[0] == decimal(items[0].1)[0]);
}

/// A character after counts and units that continues none of them: the
/// end, or neither a digit nor the 'e' of "sec" or the 'i' of "min".
pub open spec fn ends_units(s: Seq<char>, k: int) -> bool {
    k == s.len() || (!is_digit(s[k]) && s[k] != 'e' && s[k] != 'i')
}

/// The candidates, holding every unit of the text once, read the counts and
/// units written at `p` and add them up, up to where they end.
pub proof fn lemma_permute_text(s: Seq<char>, p: int, items: Seq<(Unit, nat)>, cands: Seq<Unit>)
    requires
        0 <= p,
        p + units_text(items).len() <= s.len(),
        s.subrange(p, p + units_text(items).len()) == units_text(items),
        ends_units(s, p + units_text(items).len()),
        distinct_units(items),
        forall|x: int| 0 <= x < items.len() ==> cands.contains(#[trigger] items[x].0),
        cands.no_duplicates(),
        units_total(items) <= MAX_DURATION,
    ensures
        permute_units(s, p, cands) == (p + units_text(items).len(), units_total(items)),
    decreases items.len(),
{
    if items.len() == 0 {
        assert forall|x: int| 0 <= x < cands.len() implies unit_at(s, p, #[trigger] cands[x]) is None by {
            assert(digits_end(s, p) == p);
        }
        lemma_first_hit_none(s, p, cands, 0);
    } else {
        let (u, n) = items[0];
        let rest = items.drop_first();
        let l = decimal(n).len() as int;
        let q = p + l + 1;
        let lt = units_text(items).len() as int;
        lemma_decimal(n);
        lemma_units_total_nonneg(rest);
        assert(n * unit_secs(u) >= 0) by (nonlinear_arith)
            requires
                unit_secs(u) >= 1,
        ;
        let t = s.subrange(p, p + lt);
        assert(t == decimal(n) + seq![unit_letter(u)] + units_text(rest));
        assert(s.subrange(p, p + l) =~= t.subrange(0, l as int));
        assert(t.subrange(0, l as int) =~= decimal(n));
        assert(s[p + l] == t[l as int]);
        assert(s.subrange(q, p + lt) =~= t.subrange(l + 1 as int, lt));
        assert(t.subrange(l + 1 as int, lt) =~= units_text(rest));
        assert(q + units_text(rest).len() == p + lt);
        if rest.len() > 0 {
            lemma_units_text_start(rest);
            assert(s[q] == units_text(rest)[0]);
        }
        let k = cands.index_of(u);
        assert(cands.contains(items[0].0));
        assert forall|x: int| 0 <= x < cands.len() implies unit_at(s, p, #[trigger] cands[x]) == (if cands[x] == u {
            Some((q, n * unit_secs(u)))
        } else {
            None::<(int, int)>
        }) by {
            lemma_unit_at_item(s, p, u, n, cands[x]);
        }
        lemma_first_hit_is(s, p, cands, 0, k);
        let cands2 = cands.remove(k);
        assert forall|x: int| 0 <= x < rest.len() implies cands2.contains(#[trigger] rest[x].0) by {
            assert(rest[x] == items[x + 1]);
            assert(items[0].0 != items[x + 1].0);
            let y = cands.index_of(rest[x].0);
            assert(cands.contains(items[x + 1].0));
            if y < k {
                assert(cands2[y] == cands[y]);
            } else {
                assert(cands2[y - 1] == cands[y]);
            }
        }
        assert(cands2.no_duplicates()) by {
            assert forall|a: int, b: int| 0 <= a < b < cands2.len() implies cands2[a] != cands2[b] by {
                let a0 = if a < k { a } else { a + 1 };
                let b0 = if b < k { b } else { b + 1 };
                assert(cands2[a] == cands[a0]);
                assert(cands2[b] == cands[b0]);
            }
        }
        lemma_permute_text(s, q, rest, cands2);
    }
}

proof fn lemma_all_units_contain(items: Seq<(Unit, nat)>)
    ensures
        forall|x: int| 0 <= x < items.len() ==> all_units().contains(#[trigger] items[x].0),
        all_units().no_duplicates(),
{
    assert forall|x: int| 0 <= x < items.len() implies all_units().contains(#[trigger] items[x].0) by {
        let u = items[x].0;
        match u {
            Unit::Seconds => assert(all_units()[0] == u),
            Unit::Minutes => assert(all_units()[1] == u),
            Unit::Hours => assert(all_units()[2] == u),
            Unit::Days => assert(all_units()[3] == u),
            Unit::Weeks => assert(all_units()[4] == u),
        }
    }
}

/// Counts of distinct units in short form, in any order and followed by
/// any text that continues none of them, are read as one relative part up to
/// that text, standing for the sum of the counts: "30m1h, ..." as "1h30m, ...".
pub proof fn lemma_units_any_order_then_rest(items: Seq<(Unit, nat)>, rest: Seq<char>)
    requires
        distinct_units(items),
        0 < units_total(items) <= MAX_DURATION,
        ends_units(units_text(items) + rest, units_text(items).len() as int),
    ensures
        units_at(units_text(items) + rest, 0, all_units()) == Some((units_text(items).len() as int, units_total(items))),
{
    let s = units_text(items) + rest;
    assert(s.subrange(0, units_text(items).len() as int) =~= units_text(items));
    lemma_all_units_contain(items);
    lemma_permute_text(s, 0, items, all_units());
}

proof fn lemma_units_text_chars(items: Seq<(Unit, nat)>)
    ensures
        forall|k: int| 0 <= k < units_text(items).len() ==> #[trigger] units_text(items)[k] != ' ',
    decreases items.len(),
{
    if items.len() > 0 {
        let rest = items.drop_first();
        lemma_units_text_chars(rest);
        lemma_decimal(items[0].1);
        let d = decimal(items[0].1);
        let t = units_text(items);
        assert forall|k: int| 0 <= k < t.len() implies #[trigger] t[k] != ' ' by {
            if k < d.len() {
                assert(t[k] == d[k]);
            } else if k == d.len() {
                assert(t[k] == unit_letter(items[0].0));
            } else {
                assert(t[k] == units_text(rest)[k - d.len() - 1]);
            }
        }
    }
}

/// Counts of distinct units, written in short form one after the other in
/// any order, are read as `now` plus the sum of what each stands for, where
/// that sum is neither zero nor out of range: "1h30m" and "30m1h" both as
/// `now` plus 90 minutes.
pub proof fn lemma_units_in_any_order(items: Seq<(Unit, nat)>, zone: Seq<char>, now: int)
    requires
        distinct_units(items),
        0 < units_total(items) <= MAX_DURATION,
        is_instant(now + units_total(items)),
    ensures
        parse_result(units_text(items), zone, now) == Ok::<int, int>(now + units_total(items)),
{
    let s = units_text(items);
    let total = units_total(items);
    if items.len() == 0 {
        assert(total == 0);
    }
    lemma_units_text_start(items);
    lemma_units_text_chars(items);
    reveal_strlit(" ");
    reveal_strlit("In ");
    reveal_strlit("in ");
    reveal_strlit(" und ");
    reveal_strlit(", ");
    assert forall|a: int| !(#[trigger] tag_at(s, a, " "@) is Some) by {
        lemma_first_chars(s, a, " "@);
    }
    lemma_first_chars(s, 0, "In "@);
    lemma_first_chars(s, 0, "in "@);
    assert(after_in(s, 0) == 0);
    assert(mixed_at(s, 0, zone, now) is None);
    assert(absolute_at(s, 0, zone, now, today_at(zone, now)) is None);
    lemma_all_units_contain(items);
    assert(s.subrange(0, s.len() as int) =~= s);
    lemma_permute_text(s, 0, items, all_units());
    assert(units_at(s, 0, all_units()) == Some((s.len() as int, total)));
    assert(sep_at(s, s.len() as int) is None);
    assert(chain_at(s, 0, all_units()) == Some((s.len() as int, total)));
}

/// `day.month.year` in decimal.
pub open spec fn date_text(d: nat, m: nat, y: nat) -> Seq<char> {
    decimal(d) + seq!['.'] + decimal(m) + seq!['.'] + decimal(y)
}

/// `hour:minute` in decimal.
pub open spec fn time_text(h: nat, mi: nat) -> Seq<char> {
    decimal(h) + seq![':'] + decimal(mi)
}

/// After a count, a '.', ':' or ' ' names no unit.
proof fn lemma_no_unit_after(s: Seq<char>, p: int, n: nat, c: Unit)
    requires
        0 <= p,
        p + decimal(n).len() < s.len(),
        s.subrange(p, p + decimal(n).len()) == decimal(n),
        s[p + decimal(n).len()] == '.' || s[p + decimal(n).len()] == ':',
        n <= I64_MAX,
    ensures
        unit_at(s, p, c) is None,
{
    let q = p + decimal(n).len();
    lemma_number_decimal(s, p, n, I64_MAX as int);
    reveal_strlit(" ");
    reveal_strlit("sec");
    reveal_strlit("s");
    reveal_strlit("min");
    reveal_strlit("m");
    reveal_strlit("h");
    reveal_strlit("d");
    reveal_strlit("w");
    lemma_first_chars(s, q, " "@);
    lemma_first_chars(s, q, "sec"@);
    lemma_first_chars(s, q, "s"@);
    lemma_first_chars(s, q, "min"@);
    lemma_first_chars(s, q, "m"@);
    lemma_first_chars(s, q, "h"@);
    lemma_first_chars(s, q, "d"@);
    lemma_first_chars(s, q, "w"@);
    assert(unit_tag(s, q, c) is None);
}

/// No date-offset units stand at a count followed by '.' or ':'.
proof fn lemma_no_offset_at(s: Seq<char>, p: int, n: nat)
    requires
        0 <= p,
        p + decimal(n).len() < s.len(),
        s.subrange(p, p + decimal(n).len()) == decimal(n),
        s[p + decimal(n).len()] == '.' || s[p + decimal(n).len()] == ':',
        n <= I64_MAX,
    ensures
        chain_at(s, p, date_units()) is None,
{
    lemma_decimal(n);
    assert(is_digit(s[p])) by {
        assert(s[p] == s.subrange(p, p + decimal(n).len())[0]);
    }
    reveal_strlit("In ");
    reveal_strlit("in ");
    lemma_first_chars(s, p, "In "@);
    lemma_first_chars(s, p, "in "@);
    assert(after_in(s, p) == p);
    lemma_no_unit_after(s, p, n, Unit::Days);
    lemma_no_unit_after(s, p, n, Unit::Weeks);
    assert(date_units()[0] == Unit::Days);
    assert(date_units()[1] == Unit::Weeks);
    lemma_first_hit_none(s, p, date_units(), 0);
    assert(permute_units(s, p, date_units()) == (p, 0int));
}

proof fn lemma_sub(s: Seq<char>, p: int, w: Seq<char>, a: int, b: int)
    requires
        0 <= p,
        p + w.len() <= s.len(),
        s.subrange(p, p + w.len()) == w,
        0 <= a <= b <= w.len(),
    ensures
        s.subrange(p + a, p + b) == w.subrange(a, b),
        forall|k: int| 0 <= k < w.len() ==> s[p + k] == #[trigger] w[k],
{
    assert forall|k: int| 0 <= k < w.len() implies s[p + k] == #[trigger] w[k] by {
        assert(s.subrange(p, p + w.len())[k] == s[p + k]);
    }
    assert(s.subrange(p + a, p + b) =~= w.subrange(a, b));
}

/// A date in decimal, followed by a space or the end, is read as that date.
proof fn lemma_date_text_at(s: Seq<char>, p: int, d: nat, m: nat, y: nat)
    requires
        0 <= p,
        p + date_text(d, m, y).len() <= s.len(),
        s.subrange(p, p + date_text(d, m, y).len()) == date_text(d, m, y),
        p + date_text(d, m, y).len() == s.len() || s[p + date_text(d, m, y).len()] == ' ',
        is_valid_date(y as int, m as int, d as int),
    ensures
        full_date_at(s, p) == Some((p + date_text(d, m, y).len(), (y as int, m as int, d as int))),
{
    let w = date_text(d, m, y);
    let ld = decimal(d).len() as int;
    let lm = decimal(m).len() as int;
    let ly = decimal(y).len() as int;
    lemma_decimal(d);
    lemma_decimal(m);
    lemma_decimal(y);
    lemma_sub(s, p, w, 0, ld);
    assert(w.subrange(0, ld) =~= decimal(d));
    assert(w[ld] == '.');
    lemma_sub(s, p, w, ld + 1, ld + 1 + lm);
    assert(w.subrange(ld + 1, ld + 1 + lm) =~= decimal(m));
    assert(w[ld + 1 + lm] == '.');
    lemma_sub(s, p, w, ld + lm + 2, ld + lm + 2 + ly);
    assert(w.subrange(ld + lm + 2, ld + lm + 2 + ly) =~= decimal(y));
    assert(w[0] == decimal(d)[0]);
    reveal_strlit("Am ");
    reveal_strlit("am ");
    reveal_strlit(".");
    lemma_first_chars(s, p, "Am "@);
    lemma_first_chars(s, p, "am "@);
    lemma_number_decimal(s, p, d, U32_MAX as int);
    assert(s.subrange(p + ld, p + ld + 1) =~= "."@);
    lemma_number_decimal(s, p + ld + 1, m, U32_MAX as int);
    assert(s.subrange(p + ld + 1 + lm, p + ld + 2 + lm) =~= "."@);
    lemma_number_decimal(s, p + ld + lm + 2, y, I32_MAX as int);
    assert(date_at(s, p) == Some((p + w.len(), (y as int, m as int, d as int))));
}

/// A time in decimal, followed by the end or by a space and neither 'U' nor
/// 'u', is read as that time.
proof fn lemma_time_text_at(s: Seq<char>, p: int, h: nat, mi: nat)
    requires
        0 <= p,
        p + time_text(h, mi).len() <= s.len(),
        s.subrange(p, p + time_text(h, mi).len()) == time_text(h, mi),
        p + time_text(h, mi).len() == s.len() || (s[p + time_text(h, mi).len()] == ' '
            && p + time_text(h, mi).len() + 1 < s.len() && s[p + time_text(h, mi).len() + 1] != 'U'
            && s[p + time_text(h, mi).len() + 1] != 'u'),
        is_valid_time(h as int, mi as int, 0),
    ensures
        full_time_at(s, p) == Some((p + time_text(h, mi).len(), (h as int, mi as int, 0int))),
{
    let w = time_text(h, mi);
    let lh = decimal(h).len() as int;
    let lm = decimal(mi).len() as int;
    let e = p + w.len();
    lemma_decimal(h);
    lemma_decimal(mi);
    lemma_sub(s, p, w, 0, lh);
    assert(w.subrange(0, lh) =~= decimal(h));
    assert(w[lh] == ':');
    lemma_sub(s, p, w, lh + 1, lh + 1 + lm);
    assert(w.subrange(lh + 1, lh + 1 + lm) =~= decimal(mi));
    assert(w[0] == decimal(h)[0]);
    reveal_strlit("Um ");
    reveal_strlit("um ");
    reveal_strlit(":");
    reveal_strlit(" Uhr");
    reveal_strlit(" uhr");
    lemma_first_chars(s, p, "Um "@);
    lemma_first_chars(s, p, "um "@);
    lemma_first_chars(s, e, ":"@);
    lemma_first_chars(s, e, " Uhr"@);
    lemma_first_chars(s, e, " uhr"@);
    lemma_number_decimal(s, p, h, U32_MAX as int);
    assert(s.subrange(p + lh, p + lh + 1) =~= ":"@);
    lemma_number_decimal(s, p + lh + 1, mi, U32_MAX as int);
    assert(seconds_at(s, e) == (e, 0int));
    assert(time_at(s, p) == Some((e, (h as int, mi as int, 0int))));
}

pub open spec fn date_then_time(d: nat, m: nat, y: nat, h: nat, mi: nat) -> Seq<char> {
    date_text(d, m, y) + seq![' '] + time_text(h, mi)
}

proof fn lemma_date_then_time_layout(d: nat, m: nat, y: nat, h: nat, mi: nat)
    ensures
        ({
            let s = date_then_time(d, m, y, h, mi);
            let ld = date_text(d, m, y).len() as int;
            let lt = time_text(h, mi).len() as int;
            let lday = decimal(d).len() as int;
            &&& s.len() == ld + 1 + lt
            &&& s.subrange(0, ld) == date_text(d, m, y)
            &&& s.subrange(ld + 1, ld + 1 + lt) == time_text(h, mi)
            &&& s.subrange(0, lday) == decimal(d)
            &&& lday < s.len() && s[lday] == '.'
            &&& s[ld] == ' '
            &&& is_digit(s[0])
        }),
{
    let dt = date_text(d, m, y);
    let tt = time_text(h, mi);
    let ld = dt.len() as int;
    let lt = tt.len() as int;
    lemma_decimal(d);
    assert(dt[0] == decimal(d)[0]);
    assert(dt[decimal(d).len() as int] == '.');
    let s = date_then_time(d, m, y, h, mi);
    assert(s.subrange(0, ld) =~= dt);
    assert(s.subrange(ld + 1, ld + 1 + lt) =~= tt);
    assert(s.subrange(0, decimal(d).len() as int) =~= decimal(d));
}

proof fn lemma_date_then_time_parts(d: nat, m: nat, y: nat, h: nat, mi: nat)
    requires
        is_valid_date(y as int, m as int, d as int),
        is_valid_time(h as int, mi as int, 0),
    ensures
        full_date_at(date_then_time(d, m, y, h, mi), 0) == Some((date_text(d, m, y).len() as int, (y as int, m as int, d as int))),
        tag_at(date_then_time(d, m, y, h, mi), date_text(d, m, y).len() as int, " "@) == Some(date_text(d, m, y).len() + 1 as int),
        full_time_at(date_then_time(d, m, y, h, mi), date_text(d, m, y).len() + 1 as int)
            == Some((date_then_time(d, m, y, h, mi).len() as int, (h as int, mi as int, 0int))),
{
    lemma_date_then_time_layout(d, m, y, h, mi);
    let s = date_then_time(d, m, y, h, mi);
    let ld = date_text(d, m, y).len() as int;
    lemma_date_text_at(s, 0, d, m, y);
    lemma_time_text_at(s, ld + 1, h, mi);
    reveal_strlit(" ");
    assert(s.subrange(ld, ld + 1) =~= " "@);
}

proof fn lemma_date_then_time_start(d: nat, m: nat, y: nat, h: nat, mi: nat)
    requires
        is_valid_date(y as int, m as int, d as int),
    ensures
        full_time_at(date_then_time(d, m, y, h, mi), 0) is None,
        chain_at(date_then_time(d, m, y, h, mi), 0, date_units()) is None,
{
    lemma_date_then_time_layout(d, m, y, h, mi);
    let s = date_then_time(d, m, y, h, mi);
    lemma_no_offset_at(s, 0, d);
    lemma_number_decimal(s, 0, d, U32_MAX as int);
    reveal_strlit(":");
    reveal_strlit("Um ");
    reveal_strlit("um ");
    lemma_first_chars(s, 0, "Um "@);
    lemma_first_chars(s, 0, "um "@);
    lemma_first_chars(s, decimal(d).len() as int, ":"@);
    assert(time_at(s, 0) is None);
}

proof fn lemma_date_first(d: nat, m: nat, y: nat, h: nat, mi: nat, today: Option<(int, int, int)>)
    requires
        is_valid_date(y as int, m as int, d as int),
        is_valid_time(h as int, mi as int, 0),
    ensures
        offset_time_at(date_text(d, m, y) + seq![' '] + time_text(h, mi), 0) is None,
        date_time_at(date_text(d, m, y) + seq![' '] + time_text(h, mi), 0, today) == Some((
            (date_text(d, m, y) + seq![' '] + time_text(h, mi)).len() as int,
            ((y as int, m as int, d as int), (h as int, mi as int, 0int)),
        )),
{
    lemma_date_then_time_parts(d, m, y, h, mi);
    lemma_date_then_time_start(d, m, y, h, mi);
}

pub open spec fn time_then_date(d: nat, m: nat, y: nat, h: nat, mi: nat) -> Seq<char> {
    time_text(h, mi) + seq![' '] + date_text(d, m, y)
}

proof fn lemma_time_then_date_layout(d: nat, m: nat, y: nat, h: nat, mi: nat)
    ensures
        ({
            let s = time_then_date(d, m, y, h, mi);
            let lt = time_text(h, mi).len() as int;
            let ld = date_text(d, m, y).len() as int;
            let lh = decimal(h).len() as int;
            &&& s.len() == lt + 1 + ld
            &&& s.subrange(0, lt) == time_text(h, mi)
            &&& s.subrange(lt + 1, lt + 1 + ld) == date_text(d, m, y)
            &&& s.subrange(0, lh) == decimal(h)
            &&& lh < s.len() && s[lh] == ':'
            &&& s.subrange(lt + 1, lt + 1 + decimal(d).len()) == decimal(d)
            &&& lt + 1 + decimal(d).len() < s.len() && s[lt + 1 + decimal(d).len()] == '.'
            &&& s[lt] == ' '
            &&& is_digit(s[0])
            &&& is_digit(s[lt + 1])
        }),
{
    let dt = date_text(d, m, y);
    let tt = time_text(h, mi);
    let ld = dt.len() as int;
    let lt = tt.len() as int;
    lemma_decimal(d);
    lemma_decimal(h);
    assert(dt[0] == decimal(d)[0]);
    assert(tt[0] == decimal(h)[0]);
    assert(dt[decimal(d).len() as int] == '.');
    assert(tt[decimal(h).len() as int] == ':');
    let s2 = time_then_date(d, m, y, h, mi);
    assert(s2.subrange(0, lt) =~= tt);
    assert(s2.subrange(lt + 1, lt + 1 + ld) =~= dt);
    assert(s2.subrange(0, decimal(h).len() as int) =~= decimal(h));
    assert(s2.subrange(lt + 1, lt + 1 + decimal(d).len()) =~= decimal(d));
    assert(s2[lt + 1] == dt[0]);
}

proof fn lemma_time_then_date_time(d: nat, m: nat, y: nat, h: nat, mi: nat)
    requires
        is_valid_time(h as int, mi as int, 0),
    ensures
        full_time_at(time_then_date(d, m, y, h, mi), 0) == Some((time_text(h, mi).len() as int, (h as int, mi as int, 0int))),
        tag_at(time_then_date(d, m, y, h, mi), time_text(h, mi).len() as int, " "@) == Some(time_text(h, mi).len() + 1 as int),
{
    lemma_time_then_date_layout(d, m, y, h, mi);
    let s = time_then_date(d, m, y, h, mi);
    let lt = time_text(h, mi).len() as int;
    lemma_time_text_at(s, 0, h, mi);
    reveal_strlit(" ");
    assert(s.subrange(lt, lt + 1) =~= " "@);
}

proof fn lemma_time_then_date_date(d: nat, m: nat, y: nat, h: nat, mi: nat)
    requires
        is_valid_date(y as int, m as int, d as int),
    ensures
        full_date_at(time_then_date(d, m, y, h, mi), time_text(h, mi).len() + 1 as int)
            == Some((time_then_date(d, m, y, h, mi).len() as int, (y as int, m as int, d as int))),
        chain_at(time_then_date(d, m, y, h, mi), time_text(h, mi).len() + 1 as int, date_units()) is None,
{
    lemma_time_then_date_layout(d, m, y, h, mi);
    let s = time_then_date(d, m, y, h, mi);
    let lt = time_text(h, mi).len() as int;
    lemma_date_text_at(s, lt + 1, d, m, y);
    lemma_no_offset_at(s, lt + 1, d);
}

proof fn lemma_time_then_date_start(d: nat, m: nat, y: nat, h: nat, mi: nat)
    requires
        is_valid_time(h as int, mi as int, 0),
    ensures
        full_date_at(time_then_date(d, m, y, h, mi), 0) is None,
        chain_at(time_then_date(d, m, y, h, mi), 0, date_units()) is None,
{
    lemma_time_then_date_layout(d, m, y, h, mi);
    let s = time_then_date(d, m, y, h, mi);
    lemma_no_offset_at(s, 0, h);
    lemma_number_decimal(s, 0, h, U32_MAX as int);
    reveal_strlit(".");
    reveal_strlit("Am ");
    reveal_strlit("am ");
    lemma_first_chars(s, 0, "Am "@);
    lemma_first_chars(s, 0, "am "@);
    lemma_first_chars(s, decimal(h).len() as int, "."@);
    assert(date_at(s, 0) is None);
}

proof fn lemma_time_first(d: nat, m: nat, y: nat, h: nat, mi: nat, today: Option<(int, int, int)>)
    requires
        is_valid_date(y as int, m as int, d as int),
        is_valid_time(h as int, mi as int, 0),
    ensures
        offset_time_at(time_text(h, mi) + seq![' '] + date_text(d, m, y), 0) is None,
        date_time_at(time_text(h, mi) + seq![' '] + date_text(d, m, y), 0, today) == Some((
            (time_text(h, mi) + seq![' '] + date_text(d, m, y)).len() as int,
            ((y as int, m as int, d as int), (h as int, mi as int, 0int)),
        )),
{
    lemma_time_then_date_time(d, m, y, h, mi);
    lemma_time_then_date_date(d, m, y, h, mi);
    lemma_time_then_date_start(d, m, y, h, mi);
}

/// A date and a time in decimal are read as the same instant in either
/// order, "10.11.2025 14:00" as "14:00 10.11.2025": the instant at which the
/// zone shows that date and time, where it lies after `now`.
pub proof fn lemma_date_time_either_order(
    d: nat,
    m: nat,
    y: nat,
    h: nat,
    mi: nat,
    zone: Seq<char>,
    now: int,
    u: int,
)
    requires
        is_valid_date(y as int, m as int, d as int),
        is_valid_time(h as int, mi as int, 0),
        latest_instant_of(zone, (y as int, m as int, d as int), (h as int, mi as int, 0int)) == Some(u),
        u > now,
    ensures
        parse_result(date_text(d, m, y) + seq![' '] + time_text(h, mi), zone, now) == Ok::<int, int>(u),
        parse_result(time_text(h, mi) + seq![' '] + date_text(d, m, y), zone, now) == Ok::<int, int>(u),
{
    lemma_date_first(d, m, y, h, mi, today_at(zone, now));
    lemma_time_first(d, m, y, h, mi, today_at(zone, now));
}

/// The words for today, tomorrow and the day after, capitalised or not.
pub open spec fn is_day_word(w: Seq<char>) -> bool {
    w == "Heute"@ || w == "heute"@ || w == "Morgen"@ || w == "morgen"@ || w == "Übermorgen"@
        || w == "übermorgen"@
}

proof fn lemma_tag_prefix_local(w: Seq<char>, r: Seq<char>, x: Seq<char>)
    ensures
        x.len() <= w.len() ==> tag_at(w + r, 0, x) == tag_at(w, 0, x),
        w.len() > 0 && x.len() > 0 && w[0] != x[0] ==> tag_at(w + r, 0, x) is None && tag_at(w, 0, x) is None,
{
    if x.len() <= w.len() {
        assert((w + r).subrange(0, x.len() as int) =~= w.subrange(0, x.len() as int));
    }
    lemma_first_chars(w + r, 0, x);
    lemma_first_chars(w, 0, x);
}

proof fn lemma_tag_suffix_local(pre: Seq<char>, w: Seq<char>, x: Seq<char>)
    ensures
        tag_at(pre + w, pre.len() as int, x) == (match tag_at(w, 0, x) {
            Some(e) => Some(e + pre.len()),
            None => None::<int>,
        }),
{
    if x.len() <= w.len() {
        assert((pre + w).subrange(pre.len() as int, pre.len() + x.len() as int) =~= w.subrange(0, x.len() as int));
    }
}

proof fn lemma_day_words_revealed()
    ensures
        "Heute"@ == seq!['H', 'e', 'u', 't', 'e'],
        "heute"@ == seq!['h', 'e', 'u', 't', 'e'],
        "Morgen"@ == seq!['M', 'o', 'r', 'g', 'e', 'n'],
        "morgen"@ == seq!['m', 'o', 'r', 'g', 'e', 'n'],
        "Übermorgen"@ == seq!['Ü', 'b', 'e', 'r', 'm', 'o', 'r', 'g', 'e', 'n'],
        "übermorgen"@ == seq!['ü', 'b', 'e', 'r', 'm', 'o', 'r', 'g', 'e', 'n'],
{
    reveal_strlit("Heute");
    reveal_strlit("heute");
    reveal_strlit("Morgen");
    reveal_strlit("morgen");
    reveal_strlit("Übermorgen");
    reveal_strlit("übermorgen");
    assert("Heute"@ =~= seq!['H', 'e', 'u', 't', 'e']);
    assert("heute"@ =~= seq!['h', 'e', 'u', 't', 'e']);
    assert("Morgen"@ =~= seq!['M', 'o', 'r', 'g', 'e', 'n']);
    assert("morgen"@ =~= seq!['m', 'o', 'r', 'g', 'e', 'n']);
    assert("Übermorgen"@ =~= seq!['Ü', 'b', 'e', 'r', 'm', 'o', 'r', 'g', 'e', 'n']);
    assert("übermorgen"@ =~= seq!['ü', 'b', 'e', 'r', 'm', 'o', 'r', 'g', 'e', 'n']);
}

/// A day word reads the same with text after it.
proof fn lemma_special_prefix(w: Seq<char>, r: Seq<char>, today: Option<(int, int, int)>)
    requires
        is_day_word(w),
    ensures
        special_at(w + r, 0, today) == special_at(w, 0, today),
{
    lemma_day_words_revealed();
    lemma_tag_prefix_local(w, r, "Heute"@);
    lemma_tag_prefix_local(w, r, "heute"@);
    lemma_tag_prefix_local(w, r, "Morgen"@);
    lemma_tag_prefix_local(w, r, "morgen"@);
    lemma_tag_prefix_local(w, r, "Übermorgen"@);
    lemma_tag_prefix_local(w, r, "übermorgen"@);
    assert(overmorrow_at(w + r, 0, today->0) == overmorrow_at(w, 0, today->0));
}

/// A day word reads the same with text before it.
proof fn lemma_special_suffix(pre: Seq<char>, w: Seq<char>, today: Option<(int, int, int)>)
    ensures
        special_at(w, 0, today) matches Some((e, dd)) ==> special_at(pre + w, pre.len() as int, today) == Some((e + pre.len(), dd)),
{
    lemma_tag_suffix_local(pre, w, "Heute"@);
    lemma_tag_suffix_local(pre, w, "heute"@);
    lemma_tag_suffix_local(pre, w, "Morgen"@);
    lemma_tag_suffix_local(pre, w, "morgen"@);
    lemma_tag_suffix_local(pre, w, "Übermorgen"@);
    lemma_tag_suffix_local(pre, w, "übermorgen"@);
}

proof fn lemma_day_word_start(w: Seq<char>)
    requires
        is_day_word(w),
    ensures
        w.len() >= 5,
        !is_digit(w[0]),
        w[0] != 'A' && w[0] != 'a' && w[0] != 'U' && w[0] != 'u' && w[0] != 'I' && w[0] != 'i',
{
    lemma_day_words_revealed();
}

proof fn lemma_word_then_time(w: Seq<char>, h: nat, mi: nat, today: Option<(int, int, int)>, dd: (int, int, int))
    requires
        is_day_word(w),
        is_valid_time(h as int, mi as int, 0),
        special_at(w, 0, today) == Some((w.len() as int, dd)),
    ensures
        date_time_at(w + seq![' '] + time_text(h, mi), 0, today) == Some((
            (w + seq![' '] + time_text(h, mi)).len() as int,
            (dd, (h as int, mi as int, 0int)),
        )),
{
    let tt = time_text(h, mi);
    let s = w + seq![' '] + tt;
    let lw = w.len() as int;
    lemma_day_word_start(w);
    assert(s =~= w + (seq![' '] + tt));
    lemma_special_prefix(w, seq![' '] + tt, today);
    reveal_strlit(" ");
    reveal_strlit("Am ");
    reveal_strlit("am ");
    reveal_strlit("Um ");
    reveal_strlit("um ");
    assert(s.subrange(lw, lw + 1) =~= " "@);
    assert(s.subrange(lw + 1, s.len() as int) =~= tt);
    lemma_time_text_at(s, lw + 1, h, mi);
    assert(s[0] == w[0]);
    lemma_first_chars(s, 0, "Am "@);
    lemma_first_chars(s, 0, "am "@);
    lemma_first_chars(s, 0, "Um "@);
    lemma_first_chars(s, 0, "um "@);
    assert(digits_end(s, 0) == 0);
    assert(full_date_at(s, 0) is None);
    assert(full_time_at(s, 0) is None);
}

proof fn lemma_time_then_word_parts(w: Seq<char>, h: nat, mi: nat, today: Option<(int, int, int)>, dd: (int, int, int))
    requires
        is_day_word(w),
        is_valid_time(h as int, mi as int, 0),
        special_at(w, 0, today) == Some((w.len() as int, dd)),
    ensures
        ({
            let s = time_text(h, mi) + seq![' '] + w;
            let lt = time_text(h, mi).len() as int;
            &&& full_time_at(s, 0) == Some((lt, (h as int, mi as int, 0int)))
            &&& tag_at(s, lt, " "@) == Some(lt + 1)
            &&& full_date_at(s, lt + 1) is None
            &&& special_at(s, lt + 1, today) == Some((s.len() as int, dd))
        }),
{
    let tt = time_text(h, mi);
    let s = tt + seq![' '] + w;
    let lt = tt.len() as int;
    lemma_day_word_start(w);
    lemma_special_suffix(tt + seq![' '], w, today);
    reveal_strlit(" ");
    reveal_strlit("Am ");
    reveal_strlit("am ");
    assert(s.subrange(0, lt) =~= tt);
    assert(s[lt + 1] == w[0]);
    assert(s.subrange(lt, lt + 1) =~= " "@);
    lemma_time_text_at(s, 0, h, mi);
    lemma_first_chars(s, lt + 1, "Am "@);
    lemma_first_chars(s, lt + 1, "am "@);
    assert(digits_end(s, lt + 1) == lt + 1);
}

proof fn lemma_time_then_word_start(w: Seq<char>, h: nat, mi: nat, today: Option<(int, int, int)>)
    requires
        is_valid_time(h as int, mi as int, 0),
    ensures
        full_date_at(time_text(h, mi) + seq![' '] + w, 0) is None,
        special_at(time_text(h, mi) + seq![' '] + w, 0, today) is None,
{
    let tt = time_text(h, mi);
    let s = tt + seq![' '] + w;
    let lh = decimal(h).len() as int;
    lemma_decimal(h);
    lemma_day_words_revealed();
    reveal_strlit(".");
    reveal_strlit("Am ");
    reveal_strlit("am ");
    assert(tt[0] == decimal(h)[0]);
    assert(tt[lh] == ':');
    assert(s.subrange(0, lh) =~= decimal(h));
    lemma_number_decimal(s, 0, h, U32_MAX as int);
    lemma_first_chars(s, 0, "Am "@);
    lemma_first_chars(s, 0, "am "@);
    lemma_first_chars(s, lh, "."@);
    lemma_first_chars(s, 0, "Heute"@);
    lemma_first_chars(s, 0, "heute"@);
    lemma_first_chars(s, 0, "Morgen"@);
    lemma_first_chars(s, 0, "morgen"@);
    lemma_first_chars(s, 0, "Übermorgen"@);
    lemma_first_chars(s, 0, "übermorgen"@);
    assert(date_at(s, 0) is None);
}

proof fn lemma_time_then_word(w: Seq<char>, h: nat, mi: nat, today: Option<(int, int, int)>, dd: (int, int, int))
    requires
        is_day_word(w),
        is_valid_time(h as int, mi as int, 0),
        special_at(w, 0, today) == Some((w.len() as int, dd)),
    ensures
        date_time_at(time_text(h, mi) + seq![' '] + w, 0, today) == Some((
            (time_text(h, mi) + seq![' '] + w).len() as int,
            (dd, (h as int, mi as int, 0int)),
        )),
{
    lemma_time_then_word_parts(w, h, mi, today, dd);
    lemma_time_then_word_start(w, h, mi, today);
}

/// "Heute", "Morgen" or "Übermorgen" and a time in decimal are read as the
/// same instant in either order, "Morgen 10:00" as "10:00 Morgen": the
/// instant at which the zone shows that time on the day the word names,
/// where it lies after `now`.
pub proof fn lemma_day_word_time_either_order(
    w: Seq<char>,
    h: nat,
    mi: nat,
    zone: Seq<char>,
    now: int,
    today: Option<(int, int, int)>,
    dd: (int, int, int),
    u: int,
)
    requires
        is_day_word(w),
        is_valid_time(h as int, mi as int, 0),
        special_at(w, 0, today) == Some((w.len() as int, dd)),
        latest_instant_of(zone, dd, (h as int, mi as int, 0int)) == Some(u),
        u > now,
    ensures
        absolute_at(w + seq![' '] + time_text(h, mi), 0, zone, now, today)
            == Some(((w + seq![' '] + time_text(h, mi)).len() as int, u)),
        absolute_at(time_text(h, mi) + seq![' '] + w, 0, zone, now, today)
            == Some(((time_text(h, mi) + seq![' '] + w).len() as int, u)),
{
    lemma_word_then_time(w, h, mi, today, dd);
    lemma_time_then_word(w, h, mi, today, dd);
}

} // verus!
