//! Character-level building blocks: literal tags and decimal numbers.
use vstd::prelude::*;

verus! {

/// The literal `w` stands in `s` at position `i`.
pub open spec fn matches_at(s: Seq<char>, i: int, w: Seq<char>) -> bool {
    0 <= i && i + w.len() <= s.len() && s.subrange(i, i + w.len()) == w
}

/// Where a literal tag ends, if it matches.
pub open spec fn tag_at(s: Seq<char>, i: int, w: Seq<char>) -> Option<int> {
    if matches_at(s, i, w) {
        Some(i + w.len())
    } else {
        None
    }
}

/// A tag written either as given or in its lower-case form (sentence-initial
/// capitals such as "In" versus "in").
pub open spec fn tag_either_at(s: Seq<char>, i: int, w: Seq<char>, lw: Seq<char>) -> Option<int> {
    if matches_at(s, i, w) {
        Some(i + w.len())
    } else if matches_at(s, i, lw) {
        Some(i + lw.len())
    } else {
        None
    }
}

pub open spec fn is_digit(c: char) -> bool {
    '0' <= c && c <= '9'
}

/// End of the longest run of ASCII digits that starts at `i`.
pub open spec fn digits_end(s: Seq<char>, i: int) -> int
    decreases s.len() - i,
{
    if 0 <= i < s.len() && is_digit(s[i]) {
        digits_end(s, i + 1)
    } else {
        i
    }
}

/// The decimal value of the digits `s[i..j]`.
pub open spec fn digits_value(s: Seq<char>, i: int, j: int) -> int
    decreases j - i,
{
    if j <= i {
        0
    } else {
        digits_value(s, i, j - 1) * 10 + (s[j - 1] as int - '0' as int)
    }
}

/// One or more digits read as a number of at most `max`; the whole run of
/// digits is read, and a run whose value exceeds `max` is no number.
pub open spec fn number_at(s: Seq<char>, i: int, max: int) -> Option<(int, int)> {
    let e = digits_end(s, i);
    if e == i || digits_value(s, i, e) > max {
        None
    } else {
        Some((e, digits_value(s, i, e)))
    }
}

pub proof fn lemma_tag_end(s: Seq<char>, i: int, w: Seq<char>)
    ensures
        tag_at(s, i, w) matches Some(j) ==> i <= j <= s.len(),
{
}

pub open spec fn pos_of(r: Option<usize>) -> Option<int> {
    match r {
        Some(j) => Some(j as int),
        None => None,
    }
}

pub proof fn lemma_digits_end_bounds(s: Seq<char>, i: int)
    requires
        0 <= i <= s.len(),
    ensures
        i <= digits_end(s, i) <= s.len(),
        digits_end(s, i) == s.len() || !is_digit(s[digits_end(s, i)]),
        forall|k: int| i <= k < digits_end(s, i) ==> is_digit(#[trigger] s[k]),
    decreases s.len() - i,
{
    if i < s.len() && is_digit(s[i]) {
        lemma_digits_end_bounds(s, i + 1);
    }
}

pub proof fn lemma_digits_value_grows(s: Seq<char>, i: int, j: int, k: int)
    requires
        i <= j <= k,
        forall|x: int| i <= x < k ==> is_digit(#[trigger] s[x]),
    ensures
        0 <= digits_value(s, i, j) <= digits_value(s, i, k),
    decreases k - i,
{
    if j < k {
        lemma_digits_value_grows(s, i, j, k - 1);
        assert(is_digit(s[k - 1]));
    } else if i < j {
        lemma_digits_value_grows(s, i, j - 1, j - 1);
        assert(is_digit(s[j - 1]));
    }
}

/// Converts text to its characters.
pub fn chars_of(t: &str) -> (r: Vec<char>)
    ensures
        r@ == t@,
{
    let n = t.unicode_len();
    let mut r: Vec<char> = Vec::new();
    let mut k: usize = 0;
    while k < n
        invariant
            n == t@.len(),
            k <= n,
            r@ == t@.subrange(0, k as int),
        decreases n - k,
    {
        r.push(t.get_char(k));
        k = k + 1;
    }
    assert(r@ =~= t@);
    r
}

pub fn tag(s: &Vec<char>, i: usize, w: &str) -> (r: Option<usize>)
    requires
        i <= s@.len(),
    ensures
        pos_of(r) == tag_at(s@, i as int, w@),
{
    let n = w.unicode_len();
    let len = s.len();
    if n > len - i {
        return None;
    }
    let mut k: usize = 0;
    while k < n
        invariant
            n == w@.len(),
            len == s@.len(),
            i + n <= len,
            k <= n,
            forall|x: int| 0 <= x < k ==> s@[i + x] == w@[x],
        decreases n - k,
    {
        if s[i + k] != w.get_char(k) {
            assert(s@.subrange(i as int, i + n)[k as int] != w@[k as int]);
            return None;
        }
        k = k + 1;
    }
    assert(s@.subrange(i as int, i + n) =~= w@);
    Some(i + n)
}

pub fn tag_either(s: &Vec<char>, i: usize, w: &str, lw: &str) -> (r: Option<usize>)
    requires
        i <= s@.len(),
    ensures
        pos_of(r) == tag_either_at(s@, i as int, w@, lw@),
{
    match tag(s, i, w) {
        Some(j) => Some(j),
        None => tag(s, i, lw),
    }
}

/// Reads a number of at most `max` at `i`, see `number_at`.
pub fn number(s: &Vec<char>, i: usize, max: u64) -> (r: Option<(usize, u64)>)
    requires
        i <= s@.len(),
        max >= 9,
    ensures
        match r {
            Some((j, v)) => number_at(s@, i as int, max as int) == Some((j as int, v as int)),
            None => number_at(s@, i as int, max as int) is None,
        },
{
    proof {
        lemma_digits_end_bounds(s@, i as int);
    }
    let ghost e = digits_end(s@, i as int);
    let mut j: usize = i;
    let mut acc: u64 = 0;
    while j < s.len() && '0' <= s[j] && s[j] <= '9'
        invariant
            i <= j <= e,
            e <= s@.len(),
            max >= 9,
            e == s@.len() || !is_digit(s@[e]),
            e == digits_end(s@, i as int),
            forall|k: int| i <= k < e ==> is_digit(#[trigger] s@[k]),
            acc as int == digits_value(s@, i as int, j as int),
            acc <= max,
        decreases s@.len() - j,
    {
        let d = (s[j] as u32 - '0' as u32) as u64;
        if acc > (max - d) / 10 {
            proof {
                assert(digits_value(s@, i as int, j + 1) > max) by (nonlinear_arith)
                    requires
                        digits_value(s@, i as int, j + 1) == acc * 10 + d,
                        acc > (max - d) / 10,
                        d <= 9,
                        d <= max,
                ;
                lemma_digits_end_bounds(s@, j + 1);
                lemma_digits_value_grows(s@, i as int, j + 1, e);
            }
            return None;
        }
        proof {
            assert(acc * 10 + d <= max) by (nonlinear_arith)
                requires
                    acc <= (max - d) / 10,
                    d <= max,
            ;
        }
        acc = acc * 10 + d;
        j = j + 1;
    }
    if j == i {
        return None;
    }
    Some((j, acc))
}

} // verus!
