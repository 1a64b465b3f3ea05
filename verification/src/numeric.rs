//! Which typed operands a numeric filter can use. A number is text that
//! `f64`'s `from_str` accepts once surrounding white space and thousands
//! separators are gone; its grammar, as std documents it: an optional sign,
//! then `inf`, `infinity` or `nan` in any case, or digits with an optional
//! fraction (at least one digit in all) and an optional exponent (`e` or
//! `E`, an optional sign, at least one digit). A date is `YYYY-MM-DD`, once
//! surrounding white space is gone, naming a day of the Gregorian calendar.
use vstd::prelude::*;
use crate::text::{chars_of, trim, trimmed};

verus! {

pub open spec fn is_digit(c: char) -> bool {
    '0' <= c <= '9'
}

/// Number of leading ASCII digits of `s`.
pub open spec fn lead_digits(s: Seq<char>) -> nat
    decreases s.len(),
{
    if s.len() > 0 && is_digit(s[0]) {
        1 + lead_digits(s.drop_first())
    } else {
        0
    }
}

/// `s` without a leading `+` or `-`.
pub open spec fn drop_sign(s: Seq<char>) -> Seq<char> {
    if s.len() > 0 && (s[0] == '+' || s[0] == '-') {
        s.drop_first()
    } else {
        s
    }
}

/// `s` is empty or an exponent: `e` or `E`, an optional sign, digits.
pub open spec fn exponent_ok(s: Seq<char>) -> bool {
    s.len() == 0 || ((s[0] == 'e' || s[0] == 'E') && {
        let t = drop_sign(s.drop_first());
        t.len() > 0 && lead_digits(t) == t.len()
    })
}

/// `s` is digits with an optional fraction, at least one digit in all,
/// then an optional exponent.
pub open spec fn decimal_ok(s: Seq<char>) -> bool {
    let i = lead_digits(s) as int;
    let r = s.skip(i);
    if r.len() > 0 && r[0] == '.' {
        let r2 = r.drop_first();
        let j = lead_digits(r2) as int;
        i + j >= 1 && exponent_ok(r2.skip(j))
    } else {
        i >= 1 && exponent_ok(r)
    }
}

/// `s` spells `lower` ignoring ASCII case (`upper` is `lower` capitalised).
pub open spec fn word_ci(s: Seq<char>, lower: Seq<char>, upper: Seq<char>) -> bool {
    s.len() == lower.len() && forall|i: int| 0 <= i < s.len() ==> s[i] == lower[i] || s[i] == upper[i]
}

/// `s` is an infinity or not-a-number in any case.
pub open spec fn special_ok(s: Seq<char>) -> bool {
    ||| word_ci(s, seq!['i', 'n', 'f'], seq!['I', 'N', 'F'])
    ||| word_ci(s, seq!['i', 'n', 'f', 'i', 'n', 'i', 't', 'y'], seq!['I', 'N', 'F', 'I', 'N', 'I', 'T', 'Y'])
    ||| word_ci(s, seq!['n', 'a', 'n'], seq!['N', 'A', 'N'])
}

/// `s` is text that `f64`'s `from_str` accepts.
pub open spec fn float_text(s: Seq<char>) -> bool {
    decimal_ok(drop_sign(s)) || special_ok(drop_sign(s))
}

/// `s` without its commas.
pub open spec fn without_commas(s: Seq<char>) -> Seq<char>
    decreases s.len(),
{
    if s.len() == 0 {
        seq![]
    } else {
        let p = without_commas(s.drop_last());
        if s.last() == ',' { p } else { p.push(s.last()) }
    }
}

/// `s`, typed as an operand, names a number: trimmed and without
/// thousands separators it is text that `f64` parses.
pub open spec fn number_operand(s: Seq<char>) -> bool {
    float_text(without_commas(trimmed(s)))
}

/// Number of leading digits of `v` from `start` on.
fn digits_from(v: &Vec<char>, start: usize) -> (n: usize)
    requires
        start <= v@.len(),
    ensures
        n == lead_digits(v@.skip(start as int)),
        start + n <= v@.len(),
{
    let mut k = start;
    while k < v.len() && '0' <= v[k] && v[k] <= '9'
        invariant
            start <= k <= v@.len(),
            lead_digits(v@.skip(start as int)) == (k - start) + lead_digits(v@.skip(k as int)),
        decreases v@.len() - k,
    {
        assert(v@.skip(k as int).drop_first() =~= v@.skip(k as int + 1));
        k += 1;
    }
    k - start
}

/// Whether `v` from `start` on is empty or an exponent.
fn exponent_from(v: &Vec<char>, start: usize) -> (b: bool)
    requires
        start <= v@.len(),
    ensures
        b == exponent_ok(v@.skip(start as int)),
{
    let n = v.len();
    if start == n {
        return true;
    }
    if v[start] != 'e' && v[start] != 'E' {
        return false;
    }
    let mut s = start + 1;
    assert(v@.skip(start as int).drop_first() =~= v@.skip(s as int));
    if s < n && (v[s] == '+' || v[s] == '-') {
        assert(v@.skip(s as int).drop_first() =~= v@.skip(s as int + 1));
        s += 1;
    }
    let d = digits_from(v, s);
    s < n && d == n - s
}

/// Whether `v` from `start` on is a decimal with an optional exponent.
fn decimal_from(v: &Vec<char>, start: usize) -> (b: bool)
    requires
        start <= v@.len(),
    ensures
        b == decimal_ok(v@.skip(start as int)),
{
    let n = v.len();
    let i = digits_from(v, start);
    let q = start + i;
    assert(v@.skip(start as int).skip(i as int) =~= v@.skip(q as int));
    if q < v.len() && v[q] == '.' {
        assert(v@.skip(q as int).drop_first() =~= v@.skip(q as int + 1));
        let j = digits_from(v, q + 1);
        assert(v@.skip(q as int + 1).skip(j as int) =~= v@.skip((q + 1 + j) as int));
        i + j >= 1 && exponent_from(v, q + 1 + j)
    } else {
        i >= 1 && exponent_from(v, q)
    }
}

/// Whether `v` from `start` on spells `lower` ignoring ASCII case.
fn word_from(v: &Vec<char>, start: usize, lower: &Vec<char>, upper: &Vec<char>) -> (b: bool)
    requires
        start <= v@.len(),
        lower@.len() == upper@.len(),
    ensures
        b == word_ci(v@.skip(start as int), lower@, upper@),
{
    if v.len() - start != lower.len() {
        return false;
    }
    let mut k: usize = 0;
    while k < lower.len()
        invariant
            start <= v@.len(),
            v@.len() <= usize::MAX,
            v@.len() - start == lower@.len(),
            lower@.len() == upper@.len(),
            k <= lower@.len(),
            forall|i: int| 0 <= i < k ==> v@.skip(start as int)[i] == lower@[i] || v@.skip(start as int)[i] == upper@[i],
        decreases lower@.len() - k,
    {
        if v[start + k] != lower[k] && v[start + k] != upper[k] {
            assert(v@.skip(start as int)[k as int] == v@[start + k]);
            return false;
        }
        k += 1;
    }
    true
}

/// Whether `v` is text that `f64`'s `from_str` accepts.
fn float_check(v: &Vec<char>) -> (b: bool)
    ensures
        b == float_text(v@),
{
    let p: usize = if v.len() > 0 && (v[0] == '+' || v[0] == '-') { 1 } else { 0 };
    assert(drop_sign(v@) =~= v@.skip(p as int));
    if decimal_from(v, p) {
        return true;
    }
    let inf_l = vec!['i', 'n', 'f'];
    let inf_u = vec!['I', 'N', 'F'];
    let infinity_l = vec!['i', 'n', 'f', 'i', 'n', 'i', 't', 'y'];
    let infinity_u = vec!['I', 'N', 'F', 'I', 'N', 'I', 'T', 'Y'];
    let nan_l = vec!['n', 'a', 'n'];
    let nan_u = vec!['N', 'A', 'N'];
    word_from(v, p, &inf_l, &inf_u) || word_from(v, p, &infinity_l, &infinity_u) || word_from(v, p, &nan_l, &nan_u)
}

/// Whether the typed text `s` names a number (see [`number_operand`]).
pub fn is_number_operand(s: &str) -> (b: bool)
    ensures
        b == number_operand(s@),
{
    let t = chars_of(trim(s));
    let mut w: Vec<char> = Vec::new();
    let mut i: usize = 0;
    while i < t.len()
        invariant
            i <= t@.len(),
            w@ == without_commas(t@.take(i as int)),
        decreases t@.len() - i,
    {
        assert(t@.take(i as int + 1).drop_last() =~= t@.take(i as int));
        if t[i] != ',' {
            w.push(t[i]);
        }
        i += 1;
    }
    assert(t@.take(i as int) =~= t@);
    float_check(&w)
}

/// The value of a run of decimal digits.
pub open spec fn digits_value(s: Seq<char>) -> int
    decreases s.len(),
{
    if s.len() == 0 {
        0
    } else {
        digits_value(s.drop_last()) * 10 + (s.last() as int - '0' as int)
    }
}

/// `s` is one or more decimal digits.
pub open spec fn all_digits(s: Seq<char>) -> bool {
    s.len() > 0 && lead_digits(s) == s.len()
}

/// Whether year `y` is a leap year in the Gregorian calendar (stated on
/// `y % 400`, which decides it).
pub open spec fn leap_year(y: int) -> bool {
    let r = y % 400;
    (r % 4 == 0 && r % 100 != 0) || r == 0
}

/// Number of days of month `m` (1 to 12) in year `y`.
pub open spec fn month_length(y: int, m: int) -> int {
    if m == 2 {
        if leap_year(y) { 29 } else { 28 }
    } else if m == 4 || m == 6 || m == 9 || m == 11 {
        30
    } else {
        31
    }
}

/// `s` is a calendar date written `YYYY-MM-DD`: digits for the year, the
/// month and the day, joined by `-`, naming a month from 1 to 12 and a day
/// that month has.
pub open spec fn date_text(s: Seq<char>) -> bool {
    let i = lead_digits(s) as int;
    let r = s.skip(i + 1);
    let j = lead_digits(r) as int;
    let t = r.skip(j + 1);
    &&& 0 < i < s.len() && s[i] == '-'
    &&& 0 < j < r.len() && r[j] == '-'
    &&& all_digits(t)
    &&& {
        let y = digits_value(s.take(i));
        let m = digits_value(r.take(j));
        let d = digits_value(t);
        1 <= m <= 12 && 1 <= d <= month_length(y, m)
    }
}

/// `s`, typed as a date operand, names a date: trimmed, it is `YYYY-MM-DD`.
pub open spec fn date_operand(s: Seq<char>) -> bool {
    date_text(trimmed(s))
}

proof fn lemma_lead_digits(s: Seq<char>)
    ensures
        lead_digits(s) <= s.len(),
        forall|i: int| 0 <= i < lead_digits(s) ==> is_digit(#[trigger] s[i]),
        lead_digits(s) < s.len() ==> !is_digit(s[lead_digits(s) as int]),
    decreases s.len(),
{
    if s.len() > 0 && is_digit(s[0]) {
        lemma_lead_digits(s.drop_first());
        assert forall|i: int| 0 <= i < lead_digits(s) implies is_digit(#[trigger] s[i]) by {
            if i > 0 {
                assert(s[i] == s.drop_first()[i - 1]);
            }
        }
        if lead_digits(s) < s.len() {
            assert(s[lead_digits(s) as int] == s.drop_first()[lead_digits(s.drop_first()) as int]);
        }
    }
}

proof fn lemma_mod_step(a: int, d: int)
    requires
        a >= 0,
        0 <= d < 10,
    ensures
        (a * 10 + d) % 400 == ((a % 400) * 10 + d) % 400,
{
    vstd::arithmetic::div_mod::lemma_add_mod_noop(a * 10, d, 400);
    vstd::arithmetic::div_mod::lemma_add_mod_noop((a % 400) * 10, d, 400);
    vstd::arithmetic::div_mod::lemma_mul_mod_noop_left(a, 10, 400);
}

/// The value of the digits `v[start..end]`, or 100 when it is 100 or more.
fn small_value(v: &Vec<char>, start: usize, end: usize) -> (r: u64)
    requires
        start <= end <= v@.len(),
        forall|i: int| start <= i < end ==> is_digit(#[trigger] v@[i]),
    ensures
        (r < 100 && r == digits_value(v@.subrange(start as int, end as int)))
            || (r == 100 && digits_value(v@.subrange(start as int, end as int)) >= 100),
{
    let mut r: u64 = 0;
    let mut k = start;
    assert(v@.subrange(start as int, start as int).len() == 0);
    while k < end
        invariant
            start <= k <= end <= v@.len(),
            forall|i: int| start <= i < end ==> is_digit(#[trigger] v@[i]),
            digits_value(v@.subrange(start as int, k as int)) >= 0,
            (r < 100 && r == digits_value(v@.subrange(start as int, k as int)))
                || (r == 100 && digits_value(v@.subrange(start as int, k as int)) >= 100),
        decreases end - k,
    {
        assert(v@.subrange(start as int, k as int + 1).drop_last() =~= v@.subrange(start as int, k as int));
        assert(is_digit(v@[k as int]));
        let digit = (v[k] as u32 - '0' as u32) as u64;
        if r < 100 {
            let next = r * 10 + digit;
            r = if next >= 100 { 100 } else { next };
        }
        k += 1;
    }
    r
}

/// The value of the digits `v[start..end]`, modulo 400.
fn value_mod_400(v: &Vec<char>, start: usize, end: usize) -> (r: u64)
    requires
        start <= end <= v@.len(),
        forall|i: int| start <= i < end ==> is_digit(#[trigger] v@[i]),
    ensures
        r == digits_value(v@.subrange(start as int, end as int)) % 400,
{
    let mut r: u64 = 0;
    let mut k = start;
    assert(v@.subrange(start as int, start as int).len() == 0);
    while k < end
        invariant
            start <= k <= end <= v@.len(),
            forall|i: int| start <= i < end ==> is_digit(#[trigger] v@[i]),
            digits_value(v@.subrange(start as int, k as int)) >= 0,
            r == digits_value(v@.subrange(start as int, k as int)) % 400,
        decreases end - k,
    {
        assert(v@.subrange(start as int, k as int + 1).drop_last() =~= v@.subrange(start as int, k as int));
        assert(is_digit(v@[k as int]));
        let digit = (v[k] as u32 - '0' as u32) as u64;
        proof {
            lemma_mod_step(digits_value(v@.subrange(start as int, k as int)), digit as int);
        }
        r = (r * 10 + digit) % 400;
        k += 1;
    }
    r
}

/// Whether `v` is a calendar date written `YYYY-MM-DD`.
fn date_check(v: &Vec<char>) -> (b: bool)
    ensures
        b == date_text(v@),
{
    let n = v.len();
    proof {
        lemma_lead_digits(v@);
    }
    let i = digits_from(v, 0);
    assert(v@.skip(0) =~= v@);
    if i == 0 || i >= n || v[i] != '-' {
        return false;
    }
    let rs = i + 1;
    proof {
        lemma_lead_digits(v@.skip(rs as int));
    }
    let j = digits_from(v, rs);
    let ks = rs + j;
    if j == 0 || ks >= n || v[ks] != '-' {
        proof {
            if ks < n {
                assert(v@.skip(rs as int)[j as int] == v@[ks as int]);
            }
        }
        return false;
    }
    assert(v@.skip(rs as int)[j as int] == v@[ks as int]);
    let ts = ks + 1;
    proof {
        lemma_lead_digits(v@.skip(ts as int));
        assert(v@.skip(rs as int).skip(j + 1) =~= v@.skip(ts as int));
    }
    let k = digits_from(v, ts);
    if ts >= n || k != n - ts {
        return false;
    }
    proof {
        assert forall|x: int| 0 <= x < i implies is_digit(#[trigger] v@[x]) by {
            assert(v@.skip(0)[x] == v@[x]);
        }
        assert forall|x: int| rs <= x < ks implies is_digit(#[trigger] v@[x]) by {
            assert(v@.skip(rs as int)[x - rs] == v@[x]);
        }
        assert forall|x: int| ts <= x < n implies is_digit(#[trigger] v@[x]) by {
            assert(v@.skip(ts as int)[x - ts] == v@[x]);
        }
        assert(v@.take(i as int) =~= v@.subrange(0, i as int));
        assert(v@.skip(rs as int).take(j as int) =~= v@.subrange(rs as int, ks as int));
        assert(v@.skip(ts as int) =~= v@.subrange(ts as int, n as int));
    }
    let y400 = value_mod_400(v, 0, i);
    let m = small_value(v, rs, ks);
    let d = small_value(v, ts, n);
    if m < 1 || m > 12 || d < 1 {
        return false;
    }
    let leap = (y400 % 4 == 0 && y400 % 100 != 0) || y400 == 0;
    let length: u64 = if m == 2 {
        if leap { 29 } else { 28 }
    } else if m == 4 || m == 6 || m == 9 || m == 11 {
        30
    } else {
        31
    };
    proof {
        let y = digits_value(v@.subrange(0, i as int));
        assert(leap == leap_year(y));
    }
    d <= length
}

/// Whether the typed text `s` names a date (see [`date_operand`]).
pub fn is_date_operand(s: &str) -> (b: bool)
    ensures
        b == date_operand(s@),
{
    let t = chars_of(trim(s));
    date_check(&t)
}

} // verus!
