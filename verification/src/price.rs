//! Prices as fixed-point numbers, and how they are written.
//!
//! A price is a whole number of millionths of a dollar per megawatt hour.

use vstd::prelude::*;
use vstd::string::*;
use crate::numeral::{
    decimal_body,
    decimal_micros,
    decimal_more,
    digits_value,
    fraction_of,
    is_digit,
    is_exponent_mark,
    lemma_leading_digits,
    lemma_no_mark_no_exponent,
    plain_body,
    six_places,
    unsigned_micros,
};
use crate::text::push_char;

verus! {

/// The digit that writes `d`.
pub open spec fn digit_char(d: int) -> char {
    if d == 0 {
        '0'
    } else if d == 1 {
        '1'
    } else if d == 2 {
        '2'
    } else if d == 3 {
        '3'
    } else if d == 4 {
        '4'
    } else if d == 5 {
        '5'
    } else if d == 6 {
        '6'
    } else if d == 7 {
        '7'
    } else if d == 8 {
        '8'
    } else {
        '9'
    }
}

/// A natural number in decimal digits, without leading zeros.
pub open spec fn nat_text(n: nat) -> Seq<char>
    decreases n,
{
    if n < 10 {
        seq![digit_char(n as int)]
    } else {
        nat_text(n / 10).push(digit_char((n % 10) as int))
    }
}

/// An integer in decimal digits, with a minus sign where it is negative.
pub open spec fn int_text(v: int) -> Seq<char> {
    sign_text(v) + nat_text(magnitude(v))
}

/// The size of a number without its sign.
pub open spec fn magnitude(v: int) -> nat {
    if v < 0 {
        (-v) as nat
    } else {
        v as nat
    }
}

/// A minus sign for a negative number, nothing for any other.
pub open spec fn sign_text(v: int) -> Seq<char> {
    if v < 0 {
        seq!['-']
    } else {
        Seq::<char>::empty()
    }
}

/// `m / d` rounded to the nearest whole number, a tie to the even neighbour.
pub open spec fn round_half_even(m: nat, d: nat) -> nat {
    let q = m / d;
    let r = m % d;
    if 2 * r > d || (2 * r == d && q % 2 == 1) {
        q + 1
    } else {
        q
    }
}

/// A price in whole dollars: rounded half to even, and signed as the price is,
/// so that a small negative price reads `-0`.
pub open spec fn dollars_text(v: int) -> Seq<char> {
    sign_text(v) + nat_text(round_half_even(magnitude(v), 1_000_000))
}

/// A number of hundredths with its point: `1234` reads `12.34`.
pub open spec fn hundredths_text(q: nat) -> Seq<char> {
    nat_text(q / 100).push('.').push(digit_char(((q / 10) % 10) as int)).push(
        digit_char((q % 10) as int),
    )
}

/// A price in dollars and cents: rounded half to even, and signed as the price is.
pub open spec fn cents_text(v: int) -> Seq<char> {
    sign_text(v) + hundredths_text(round_half_even(magnitude(v), 10_000))
}

/// A number of tenths with its point: `125` reads `12.5`.
pub open spec fn tenths_text(q: nat) -> Seq<char> {
    nat_text(q / 10).push('.').push(digit_char((q % 10) as int))
}

fn char_of_digit(d: u64) -> (c: char)
    requires
        d <= 9,
    ensures
        c == digit_char(d as int),
{
    if d == 0 {
        '0'
    } else if d == 1 {
        '1'
    } else if d == 2 {
        '2'
    } else if d == 3 {
        '3'
    } else if d == 4 {
        '4'
    } else if d == 5 {
        '5'
    } else if d == 6 {
        '6'
    } else if d == 7 {
        '7'
    } else if d == 8 {
        '8'
    } else {
        '9'
    }
}

/// Appends `n` in decimal digits.
pub fn push_nat(s: &mut String, n: u64)
    ensures
        final(s)@ == old(s)@ + nat_text(n as nat),
    decreases n,
{
    if n < 10 {
        push_char(s, char_of_digit(n));
        assert(s@ =~= old(s)@ + nat_text(n as nat));
    } else {
        push_nat(s, n / 10);
        push_char(s, char_of_digit(n % 10));
        assert(s@ =~= old(s)@ + nat_text(n as nat));
    }
}

/// The size of `v` without its sign.
pub fn magnitude_of(v: i64) -> (m: u64)
    ensures
        m == magnitude(v as int),
{
    if v >= 0 {
        v as u64
    } else if v == i64::MIN {
        9_223_372_036_854_775_808u64
    } else {
        (-v) as u64
    }
}

/// Appends `v` in decimal digits, with its sign.
pub fn push_int(s: &mut String, v: i64)
    ensures
        final(s)@ == old(s)@ + int_text(v as int),
{
    if v < 0 {
        push_char(s, '-');
    }
    push_nat(s, magnitude_of(v));
    assert(s@ =~= old(s)@ + int_text(v as int));
}

/// `m / d` rounded half to even.
pub fn rounded(m: u64, d: u64) -> (q: u64)
    requires
        d > 0,
    ensures
        q == round_half_even(m as nat, d as nat),
{
    let q = m / d;
    let r = m % d;
    if 2 * (r as u128) > d as u128 || (2 * (r as u128) == d as u128 && q % 2 == 1) {
        assert(q < u64::MAX) by {
            assert(d >= 2);
            assert(q <= m / 2) by (nonlinear_arith)
                requires
                    q == m / d,
                    d >= 2,
            ;
        }
        q + 1
    } else {
        q
    }
}

/// Appends a price in whole dollars.
pub fn push_dollars(s: &mut String, v: i64)
    ensures
        final(s)@ == old(s)@ + dollars_text(v as int),
{
    if v < 0 {
        push_char(s, '-');
    }
    push_nat(s, rounded(magnitude_of(v), 1_000_000));
    assert(s@ =~= old(s)@ + dollars_text(v as int));
}

/// Appends a number of hundredths with its point.
pub fn push_hundredths(s: &mut String, q: u64)
    ensures
        final(s)@ == old(s)@ + hundredths_text(q as nat),
{
    push_nat(s, q / 100);
    push_char(s, '.');
    push_char(s, char_of_digit((q / 10) % 10));
    push_char(s, char_of_digit(q % 10));
    assert(s@ =~= old(s)@ + hundredths_text(q as nat));
}

/// Appends a price in dollars and cents.
pub fn push_cents(s: &mut String, v: i64)
    ensures
        final(s)@ == old(s)@ + cents_text(v as int),
{
    if v < 0 {
        push_char(s, '-');
    }
    let ghost mid = s@;
    push_hundredths(s, rounded(magnitude_of(v), 10_000));
    assert(s@ =~= old(s)@ + cents_text(v as int));
}

/// Appends a number of tenths with its point.
pub fn push_tenths(s: &mut String, q: u64)
    ensures
        final(s)@ == old(s)@ + tenths_text(q as nat),
{
    push_nat(s, q / 10);
    push_char(s, '.');
    push_char(s, char_of_digit(q % 10));
    assert(s@ =~= old(s)@ + tenths_text(q as nat));
}

/// Six digits, with leading zeros.
pub open spec fn six_digits(n: int) -> Seq<char> {
    seq![
        digit_char(n / 100_000),
        digit_char((n / 10_000) % 10),
        digit_char((n / 1_000) % 10),
        digit_char((n / 100) % 10),
        digit_char((n / 10) % 10),
        digit_char(n % 10),
    ]
}

/// Millionths as a decimal numeral with six places: `-12500000` reads
/// `-12.500000`.
pub open spec fn decimal_text(v: int) -> Seq<char> {
    sign_text(v) + nat_text(magnitude(v) / 1_000_000) + seq!['.'] + six_digits(
        (magnitude(v) % 1_000_000) as int,
    )
}

/// The digits of a number are digits, and they write the number.
pub proof fn lemma_nat_text_is_digits(n: nat)
    ensures
        nat_text(n).len() >= 1,
        forall|i: int| 0 <= i < nat_text(n).len() ==> is_digit(#[trigger] nat_text(n)[i]),
        digits_value(nat_text(n)) == n,
    decreases n,
{
    if n < 10 {
        let t = nat_text(n);
        assert(t.drop_last() =~= Seq::<char>::empty());
        assert(digits_value(t.drop_last()) == 0);
    } else {
        lemma_nat_text_is_digits(n / 10);
        let t = nat_text(n);
        assert(t.drop_last() =~= nat_text(n / 10));
    }
}

proof fn lemma_six_digits(n: int)
    requires
        0 <= n < 1_000_000,
    ensures
        six_digits(n).len() == 6,
        forall|i: int| 0 <= i < 6 ==> is_digit(#[trigger] six_digits(n)[i]),
        digits_value(six_digits(n)) == n,
{
    let s = six_digits(n);
    let s5 = s.drop_last();
    let s4 = s5.drop_last();
    let s3 = s4.drop_last();
    let s2 = s3.drop_last();
    let s1 = s2.drop_last();
    let s0 = s1.drop_last();
    assert(s0.len() == 0);
    assert(digits_value(s0) == 0);
    assert(digits_value(s1) == n / 100_000);
    assert(digits_value(s2) == n / 10_000);
    assert(digits_value(s3) == n / 1_000);
    assert(digits_value(s4) == n / 100);
    assert(digits_value(s5) == n / 10);
}

/// A price written as a decimal numeral with six places reads as itself.
pub proof fn lemma_decimal_text_reads_back(v: int)
    requires
        -1_000_000_000_000_000_000 < v < 1_000_000_000_000_000_000,
    ensures
        decimal_micros(decimal_text(v)) == Some(v),
        decimal_text(v).len() >= 8,
        decimal_text(v)[0] == '-' || is_digit(decimal_text(v)[0]),
        is_digit(decimal_text(v).last()),
        forall|k: int|
            0 <= k < decimal_text(v).len() ==> (#[trigger] decimal_text(v)[k]) == '-'
                || decimal_text(v)[k] == '.' || is_digit(decimal_text(v)[k]),
        !decimal_more(decimal_text(v)),
{
    let m = magnitude(v);
    let w = m / 1_000_000;
    let f = (m % 1_000_000) as int;
    let whole = nat_text(w);
    let six = six_digits(f);
    lemma_nat_text_is_digits(w);
    lemma_six_digits(f);
    let body = whole + seq!['.'] + six;
    let text = decimal_text(v);
    if v < 0 {
        assert(text =~= seq!['-'] + body);
        assert(text[0] == '-');
        assert(text.drop_first() =~= body);
    } else {
        assert(text =~= body);
        assert(body[0] == whole[0]);
    }
    let d = whole.len() as int;
    assert forall|i: int| 0 <= i < d implies is_digit(#[trigger] body[i]) by {
        assert(body[i] == whole[i]);
    }
    assert(body[d] == '.');
    lemma_leading_digits(body, d);
    assert(body.take(d) =~= whole);
    let rest = body.skip(d);
    assert(rest[0] == '.');
    assert(rest.drop_first() =~= six);
    lemma_leading_digits(six, 6);
    assert(six_places(six) =~= six);
    assert(unsigned_micros(body) == Some(w * 1_000_000 + f));
    assert(text.last() == six[5]);
    assert(decimal_body(text) == body);
    assert(fraction_of(body) == six);
    assert forall|k: int| 0 <= k < body.len() implies !is_exponent_mark(#[trigger] body[k]) by {
        if k > d {
            assert(body[k] == six[k - d - 1]);
        } else if k < d {
            assert(body[k] == whole[k]);
        }
    }
    lemma_no_mark_no_exponent(body);
    assert(plain_body(body) == Some(body));
    assert(!decimal_more(text));
    assert forall|k: int| 0 <= k < body.len() implies is_digit(#[trigger] body[k]) || body[k]
        == '.' by {
        if k > d {
            assert(body[k] == six[k - d - 1]);
        }
    }
    assert forall|k: int| 0 <= k < text.len() implies (#[trigger] text[k]) == '-' || text[k]
        == '.' || is_digit(text[k]) by {
        if v < 0 {
            if k > 0 {
                assert(text[k] == body[k - 1]);
            }
        }
    }
}
} // verus!
