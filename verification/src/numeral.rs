//! Decimal numerals, read as fixed-point numbers.
//!
//! A numeral is read as a whole number of millionths, towards zero, together
//! with what tells on which side of them the number as written lies.

use vstd::prelude::*;
use vstd::slice::slice_subrange;

verus! {

/// Millionths in one dollar.
pub const MICROS: i64 = 1_000_000;

/// Integer parts from here on stand for no price.
pub const WHOLE_LIMIT: u64 = 1_000_000_000_000;

/// Whether a character is one of the ten decimal digits.
pub open spec fn is_digit(c: char) -> bool {
    '0' <= c && c <= '9'
}

/// The number that a decimal digit writes.
pub open spec fn digit_value(c: char) -> int {
    c as int - '0' as int
}

/// The number that a run of decimal digits writes.
pub open spec fn digits_value(s: Seq<char>) -> int
    decreases s.len(),
{
    if s.len() == 0 {
        0
    } else {
        digits_value(s.drop_last()) * 10 + digit_value(s.last())
    }
}

/// How many decimal digits `s` begins with.
pub open spec fn leading_digits(s: Seq<char>) -> nat
    decreases s.len(),
{
    if s.len() > 0 && is_digit(s[0]) {
        1 + leading_digits(s.drop_first())
    } else {
        0
    }
}

/// The first six digits after the point, filled up with zeros.
pub open spec fn six_places(f: Seq<char>) -> Seq<char> {
    if f.len() >= 6 {
        f.take(6)
    } else {
        f + Seq::new((6 - f.len()) as nat, |i: int| '0')
    }
}

/// The millionths that an unsigned numeral stands for: digits, then
/// optionally a point and more digits, with a digit on at least one side.
/// Digits after the sixth place are dropped. `None` for any other text and
/// where the integer part reaches `WHOLE_LIMIT`.
pub open spec fn unsigned_micros(body: Seq<char>) -> Option<int> {
    let d = leading_digits(body) as int;
    let whole = digits_value(body.take(d));
    let rest = body.skip(d);
    if whole >= WHOLE_LIMIT {
        None
    } else if rest.len() == 0 {
        if d >= 1 {
            Some(whole * MICROS)
        } else {
            None
        }
    } else if rest[0] == '.' {
        let f = rest.drop_first();
        if leading_digits(f) == f.len() && d + f.len() >= 1 {
            Some(whole * MICROS + digits_value(six_places(f)))
        } else {
            None
        }
    } else {
        None
    }
}

/// Whether a text has the form of an unsigned numeral: digits, then
/// optionally a point and more digits, with a digit on at least one side.
pub open spec fn unsigned_form(body: Seq<char>) -> bool {
    let d = leading_digits(body) as int;
    let rest = body.skip(d);
    if rest.len() == 0 {
        d >= 1
    } else if rest[0] == '.' {
        let f = rest.drop_first();
        leading_digits(f) == f.len() && d + f.len() >= 1
    } else {
        false
    }
}

/// The digits after the point of an unsigned numeral, and none where it has
/// no point.
pub open spec fn fraction_of(body: Seq<char>) -> Seq<char> {
    let rest = body.skip(leading_digits(body) as int);
    if rest.len() > 0 && rest[0] == '.' {
        rest.drop_first()
    } else {
        Seq::<char>::empty()
    }
}

/// Whether, among the first `upto` digits after the point, one after the
/// sixth place is not a zero.
pub open spec fn drops_before(f: Seq<char>, upto: int) -> bool {
    exists|k: int| 6 <= k < upto && k < f.len() && f[k] != '0'
}

/// Whether a character marks the exponent of a numeral.
pub open spec fn is_exponent_mark(c: char) -> bool {
    c == 'e' || c == 'E'
}

/// How many characters stand before the first exponent mark of a text: all
/// of them where it has none.
pub open spec fn mantissa_len(body: Seq<char>) -> nat
    decreases body.len(),
{
    if body.len() > 0 && !is_exponent_mark(body[0]) {
        1 + mantissa_len(body.drop_first())
    } else {
        0
    }
}

/// Whether a text has the form of an exponent: an optional sign, then
/// digits, one at least, and nothing else.
pub open spec fn exponent_form(x: Seq<char>) -> bool {
    decimal_body(x).len() > 0 && leading_digits(decimal_body(x)) == decimal_body(x).len()
}

/// The whole number that an exponent writes.
pub open spec fn exponent_value(x: Seq<char>) -> int {
    if decimal_negative(x) {
        -digits_value(decimal_body(x))
    } else {
        digits_value(decimal_body(x))
    }
}

/// `n` zeros, none where `n` is not positive.
pub open spec fn zeros(n: int) -> Seq<char> {
    Seq::new(
        if n > 0 {
            n as nat
        } else {
            0
        },
        |i: int| '0',
    )
}

/// `e`, brought to lie between `-reach` and `reach`.
pub open spec fn clamped(e: int, reach: int) -> int {
    if e > reach {
        reach
    } else if e < -reach {
        -reach
    } else {
        e
    }
}

/// The numeral that writes `whole.frac` times ten to the power `e` without
/// an exponent: the point moved `e` places to the right, or `-e` places to
/// the left, over zeros where the digits end.
pub open spec fn shifted(whole: Seq<char>, frac: Seq<char>, e: int) -> Seq<char> {
    if e >= 0 {
        let moved = if e <= frac.len() {
            e
        } else {
            frac.len() as int
        };
        whole + frac.take(moved) + zeros(e - moved) + seq!['.'] + frac.skip(moved)
    } else {
        let moved = if -e <= whole.len() {
            -e
        } else {
            whole.len() as int
        };
        whole.take(whole.len() - moved) + seq!['.'] + zeros(-e - moved) + whole.skip(
            whole.len() - moved,
        ) + frac
    }
}

/// The unsigned numeral without an exponent that writes a mantissa times
/// ten to the power of an exponent; `None` where mantissa or exponent have
/// not their form.
pub open spec fn scaled_plain(mantissa: Seq<char>, exponent: Seq<char>) -> Option<Seq<char>> {
    if unsigned_form(mantissa) && exponent_form(exponent) {
        Some(
            shifted(
                mantissa.take(leading_digits(mantissa) as int),
                fraction_of(mantissa),
                exponent_value(exponent),
            ),
        )
    } else {
        None
    }
}

/// The unsigned numeral without an exponent that writes the same number as
/// an unsigned numeral with or without one: the text itself where it has no
/// exponent mark, and `None` where mantissa or exponent have not their form.
pub open spec fn plain_body(body: Seq<char>) -> Option<Seq<char>> {
    let m = mantissa_len(body) as int;
    if m == body.len() {
        Some(body)
    } else {
        scaled_plain(body.take(m), body.skip(m + 1))
    }
}

/// A numeral without its sign.
pub open spec fn decimal_body(s: Seq<char>) -> Seq<char> {
    if s.len() > 0 && (s[0] == '-' || s[0] == '+') {
        s.drop_first()
    } else {
        s
    }
}

/// Whether a text has the form of a decimal numeral: an optional sign, an
/// unsigned numeral, and optionally an exponent, which is `e` or `E`, an
/// optional sign and digits. A text of this form that stands for no price
/// writes a number whose integer part reaches `WHOLE_LIMIT`.
pub open spec fn decimal_form(s: Seq<char>) -> bool {
    match plain_body(decimal_body(s)) {
        Some(plain) => unsigned_form(plain),
        None => false,
    }
}

/// The millionths that a decimal numeral stands for, towards zero: what the
/// numeral writes beyond them is dropped. `1e3` stands for a thousand
/// dollars, `2.5E-1` for a quarter. No blanks, and no names of special
/// values: `inf`, `infinity` and `NaN` are no numerals.
pub open spec fn decimal_micros(s: Seq<char>) -> Option<int> {
    match plain_body(decimal_body(s)) {
        Some(plain) => match unsigned_micros(plain) {
            Some(v) => Some(
                if decimal_negative(s) {
                    -v
                } else {
                    v
                },
            ),
            None => None,
        },
        None => None,
    }
}

/// Whether the numeral writes more than its millionths hold: whether a digit
/// that is dropped, after the sixth place, is not a zero.
pub open spec fn decimal_more(s: Seq<char>) -> bool {
    match plain_body(decimal_body(s)) {
        Some(plain) => drops_before(fraction_of(plain), fraction_of(plain).len() as int),
        None => false,
    }
}

/// Whether the numeral begins with a minus sign.
pub open spec fn decimal_negative(s: Seq<char>) -> bool {
    s.len() > 0 && s[0] == '-'
}

/// What was read from a decimal numeral: its millionths, the digits after
/// the sixth place dropped, and what is needed to tell on which side of a
/// bound the number as written lies.
#[derive(Clone, Copy, Debug, PartialEq, Eq, Structural)]
pub struct Numeral {
    /// The millionths, towards zero.
    pub micros: i64,
    /// Whether a dropped digit is not a zero.
    pub more: bool,
    /// Whether the numeral begins with a minus sign.
    pub negative: bool,
}

/// Whether a number lies between `lo` and `hi` millionths, the bounds
/// counted in, where the number is `kept` millionths and, if `more`, a
/// little further from zero: a number that is a bound and then some lies
/// outside.
pub open spec fn within_as_written(kept: int, more: bool, negative: bool, lo: int, hi: int)
    -> bool {
    &&& !(kept < lo || (kept == lo && more && negative))
    &&& !(kept > hi || (kept == hi && more && !negative))
}

impl Numeral {
    /// Whether the number as written lies between `lo` and `hi` millionths.
    pub open spec fn lies_within(self, lo: int, hi: int) -> bool {
        within_as_written(self.micros as int, self.more, self.negative, lo, hi)
    }

    /// Whether the number as written lies between `lo` and `hi` millionths,
    /// the bounds themselves counted in.
    pub fn within(&self, lo: i64, hi: i64) -> (r: bool)
        ensures
            r == self.lies_within(lo as int, hi as int),
    {
        let below = self.micros < lo || (self.micros == lo && self.more && self.negative);
        let above = self.micros > hi || (self.micros == hi && self.more && !self.negative);
        !below && !above
    }
}

/// Whether a character is this letter, small or capital.
pub open spec fn is_letter(c: char, small: char, capital: char) -> bool {
    c == small || c == capital
}

/// Whether a text, without its sign, is the name of a value that is no
/// finite number: `inf`, `infinity` or `nan`, in small or capital letters.
pub open spec fn is_special_name(body: Seq<char>) -> bool {
    ||| (body.len() == 3 && is_letter(body[0], 'i', 'I') && is_letter(body[1], 'n', 'N')
        && is_letter(body[2], 'f', 'F'))
    ||| (body.len() == 3 && is_letter(body[0], 'n', 'N') && is_letter(body[1], 'a', 'A')
        && is_letter(body[2], 'n', 'N'))
    ||| (body.len() == 8 && is_letter(body[0], 'i', 'I') && is_letter(body[1], 'n', 'N')
        && is_letter(body[2], 'f', 'F') && is_letter(body[3], 'i', 'I') && is_letter(
        body[4],
        'n',
        'N',
    ) && is_letter(body[5], 'i', 'I') && is_letter(body[6], 't', 'T') && is_letter(
        body[7],
        'y',
        'Y',
    ))
}

/// What the reading of a text as a decimal numeral comes to.
#[derive(Clone, Copy, Debug, PartialEq, Eq, Structural)]
pub enum Reading {
    /// The text is no numeral and no name of a value.
    NoNumeral,
    /// The text, after an optional sign, names a value that is no finite
    /// number.
    NotFinite,
    /// The text is a numeral of a number too large to be kept.
    TooLarge,
    /// The text is a numeral, read as this.
    Value(Numeral),
}

/// Whether a reading is that of the text.
pub open spec fn is_reading_of(s: Seq<char>, r: Reading) -> bool {
    match r {
        Reading::NoNumeral => !decimal_form(s) && !is_special_name(decimal_body(s))
            && decimal_micros(s) is None,
        Reading::NotFinite => is_special_name(decimal_body(s)) && !decimal_form(s)
            && decimal_micros(s) is None,
        Reading::TooLarge => decimal_form(s) && decimal_micros(s) is None,
        Reading::Value(n) => decimal_form(s) && reads_as(s, n),
    }
}

enum Unsigned {
    NoNumeral,
    TooLarge,
    Value(i64, bool),
}

/// Whether what was read is what the text writes.
pub open spec fn reads_as(s: Seq<char>, n: Numeral) -> bool {
    &&& decimal_micros(s) == Some(n.micros as int)
    &&& n.more == decimal_more(s)
    &&& n.negative == decimal_negative(s)
}

/// Whether a text is a decimal numeral of a number between `lo` and `hi`
/// millionths, the number taken as written and not as kept.
pub open spec fn numeral_within(s: Seq<char>, lo: int, hi: int) -> bool {
    match decimal_micros(s) {
        Some(v) => within_as_written(v, decimal_more(s), decimal_negative(s), lo, hi),
        None => false,
    }
}

fn digit_of(c: char) -> (r: Option<u64>)
    ensures
        match r {
            Some(d) => is_digit(c) && d == digit_value(c) && d <= 9,
            None => !is_digit(c),
        },
{
    if c == '0' {
        Some(0)
    } else if c == '1' {
        Some(1)
    } else if c == '2' {
        Some(2)
    } else if c == '3' {
        Some(3)
    } else if c == '4' {
        Some(4)
    } else if c == '5' {
        Some(5)
    } else if c == '6' {
        Some(6)
    } else if c == '7' {
        Some(7)
    } else if c == '8' {
        Some(8)
    } else if c == '9' {
        Some(9)
    } else {
        None
    }
}

spec fn capped(v: int) -> int {
    if v >= WHOLE_LIMIT {
        WHOLE_LIMIT as int
    } else {
        v
    }
}

/// Reads the unsigned numeral `s[from..]`: its millionths, and whether a
/// dropped digit is not a zero.
fn parse_unsigned(s: &[char], from: usize) -> (r: Unsigned)
    requires
        from <= s@.len(),
    ensures
        match r {
            Unsigned::Value(v, more) => unsigned_form(s@.skip(from as int)) && unsigned_micros(
                s@.skip(from as int),
            ) == Some(v as int) && 0 <= v < 1_000_000_000_000_000_000 && more == drops_before(
                fraction_of(s@.skip(from as int)),
                fraction_of(s@.skip(from as int)).len() as int,
            ),
            Unsigned::TooLarge => unsigned_form(s@.skip(from as int)) && unsigned_micros(
                s@.skip(from as int),
            ) is None,
            Unsigned::NoNumeral => !unsigned_form(s@.skip(from as int)) && unsigned_micros(
                s@.skip(from as int),
            ) is None,
        },
{
    let ghost body = s@.skip(from as int);
    let n = s.len();
    let mut i: usize = from;
    let mut whole: u64 = 0;
    assert(body.skip(0) =~= body);
    assert(body.take(0) =~= Seq::<char>::empty());
    loop
        invariant_except_break
            from <= i <= n,
            n == s@.len(),
            body == s@.skip(from as int),
            leading_digits(body) == (i - from) + leading_digits(body.skip(i - from)),
            whole == capped(digits_value(body.take(i - from))),
            digits_value(body.take(i - from)) >= 0,
        ensures
            from <= i <= n,
            leading_digits(body) == i - from,
            whole == capped(digits_value(body.take(i - from))),
        decreases n - i,
    {
        if i >= n {
            break;
        }
        match digit_of(s[i]) {
            None => {
                break;
            },
            Some(d) => {
                proof {
                    let k = i - from;
                    assert(body.skip(k)[0] == s@[i as int]);
                    assert(body.skip(k).drop_first() =~= body.skip(k + 1));
                    assert(body.take(k + 1).drop_last() =~= body.take(k));
                    assert(body.take(k + 1).last() == s@[i as int]);
                }
                whole = whole * 10 + d;
                if whole > WHOLE_LIMIT {
                    whole = WHOLE_LIMIT;
                }
                i += 1;
            },
        }
    }
    let ghost d = i - from;
    let ghost rest = body.skip(d);
    let large = whole >= WHOLE_LIMIT;
    if i >= n {
        if i > from {
            assert(fraction_of(body).len() == 0);
            if large {
                return Unsigned::TooLarge;
            }
            return Unsigned::Value((whole * 1_000_000) as i64, false);
        } else {
            return Unsigned::NoNumeral;
        }
    }
    assert(rest[0] == s@[i as int]);
    if s[i] != '.' {
        return Unsigned::NoNumeral;
    }
    let ghost f = rest.drop_first();
    assert(f == fraction_of(body));
    let start: usize = i + 1;
    assert(f =~= s@.skip(start as int));
    let mut j: usize = start;
    let mut frac: u64 = 0;
    let mut more: bool = false;
    assert(f.skip(0) =~= f);
    assert(f.take(0) =~= Seq::<char>::empty());
    loop
        invariant_except_break
            start <= j <= n,
            n == s@.len(),
            f == s@.skip(start as int),
            leading_digits(f) == (j - start) + leading_digits(f.skip(j - start)),
            j - start <= 6 ==> frac == digits_value(f.take(j - start)),
            j - start > 6 ==> frac == digits_value(f.take(6)),
            0 <= frac < pow10_small(j - start),
            more == drops_before(f, j - start),
        ensures
            start <= j <= n,
            f == s@.skip(start as int),
            n == s@.len(),
            j == n ==> leading_digits(f) == j - start,
            j < n ==> leading_digits(f) < f.len(),
            j - start <= 6 ==> frac == digits_value(f.take(j - start)),
            j - start > 6 ==> frac == digits_value(f.take(6)),
            0 <= frac < pow10_small(j - start),
            more == drops_before(f, j - start),
        decreases n - j,
    {
        if j >= n {
            break;
        }
        match digit_of(s[j]) {
            None => {
                proof {
                    let k = j - start;
                    assert(f.skip(k)[0] == s@[j as int]);
                }
                break;
            },
            Some(d) => {
                proof {
                    let k = j - start;
                    assert(f.skip(k)[0] == s@[j as int]);
                    assert(f.skip(k).drop_first() =~= f.skip(k + 1));
                    assert(f.take(k + 1).drop_last() =~= f.take(k));
                    assert(f.take(k + 1).last() == s@[j as int]);
                }
                if j - start < 6 {
                    frac = frac * 10 + d;
                } else if d != 0 {
                    more = true;
                }
                proof {
                    let c = j - start;
                    assert(f[c] == s@[j as int]);
                    assert((d != 0) == (f[c] != '0'));
                    if drops_before(f, c + 1) && !drops_before(f, c) {
                        let k = choose|k: int| 6 <= k < c + 1 && k < f.len() && f[k] != '0';
                        assert(k == c);
                    }
                    if drops_before(f, c) {
                        let k = choose|k: int| 6 <= k < c && k < f.len() && f[k] != '0';
                        assert(6 <= k < c + 1 && k < f.len() && f[k] != '0');
                    }
                    if c >= 6 && f[c] != '0' {
                        assert(6 <= c < c + 1 && c < f.len() && f[c] != '0');
                    }
                }
                j += 1;
            },
        }
    }
    if j < n {
        return Unsigned::NoNumeral;
    }
    assert(f.len() == n - start);
    if j == start && i == from {
        return Unsigned::NoNumeral;
    }
    if large {
        return Unsigned::TooLarge;
    }
    let digits: usize = j - start;
    if digits >= 6 {
        return Unsigned::Value((whole * 1_000_000 + frac) as i64, more);
    }
    assert(f.take(digits as int) =~= f);
    let mut k: usize = digits;
    let ghost mut filled: Seq<char> = f;
    assert(filled =~= f + Seq::new(0, |i: int| '0'));
    while k < 6
        invariant
            f.len() == digits <= k <= 6,
            filled == f + Seq::new((k - digits) as nat, |i: int| '0'),
            frac == digits_value(filled),
            0 <= frac < pow10_small(k as int),
        decreases 6 - k,
    {
        proof {
            let next = f + Seq::new((k + 1 - digits) as nat, |i: int| '0');
            assert(next.drop_last() =~= filled);
            assert(next.last() == '0');
            filled = next;
        }
        frac = frac * 10;
        k += 1;
    }
    assert(filled == six_places(f));
    Unsigned::Value((whole * 1_000_000 + frac) as i64, more)
}

spec fn pow10_small(k: int) -> int {
    if k <= 0 {
        1
    } else if k == 1 {
        10
    } else if k == 2 {
        100
    } else if k == 3 {
        1_000
    } else if k == 4 {
        10_000
    } else if k == 5 {
        100_000
    } else {
        1_000_000
    }
}

/// How many decimal digits `s` begins with.
fn count_leading_digits(s: &[char]) -> (d: usize)
    ensures
        d == leading_digits(s@),
        d <= s@.len(),
{
    let n = s.len();
    let mut i: usize = 0;
    assert(s@.skip(0) =~= s@);
    while i < n
        invariant
            i <= n,
            n == s@.len(),
            leading_digits(s@) == i + leading_digits(s@.skip(i as int)),
        decreases n - i,
    {
        proof {
            assert(s@.skip(i as int)[0] == s@[i as int]);
            assert(s@.skip(i as int).drop_first() =~= s@.skip(i + 1));
        }
        match digit_of(s[i]) {
            None => {
                return i;
            },
            Some(_) => {
                i += 1;
            },
        }
    }
    i
}

spec fn capped_to(v: int, reach: int) -> int {
    if v >= reach {
        reach
    } else {
        v
    }
}

/// Reads an exponent, brought to lie between `-reach` and `reach`.
fn read_exponent(x: &[char], reach: u128) -> (r: Option<i128>)
    requires
        reach < 0x1_0000_0000_0000_0000_0000,
    ensures
        match r {
            Some(e) => exponent_form(x@) && e == clamped(exponent_value(x@), reach as int),
            None => !exponent_form(x@),
        },
{
    let n = x.len();
    let negative = n > 0 && x[0] == '-';
    let from: usize = if n > 0 && (x[0] == '-' || x[0] == '+') {
        1
    } else {
        0
    };
    let ghost body = x@.skip(from as int);
    proof {
        if from == 1 {
            assert(x@.drop_first() =~= body);
        } else {
            assert(x@ =~= body);
        }
        assert(body == decimal_body(x@));
        assert(body.skip(0) =~= body);
        assert(body.take(0) =~= Seq::<char>::empty());
    }
    let mut i: usize = from;
    let mut acc: u128 = 0;
    while i < n
        invariant
            from <= i <= n,
            n == x@.len(),
            body == x@.skip(from as int),
            body == decimal_body(x@),
            leading_digits(body) == (i - from) + leading_digits(body.skip(i - from)),
            acc == capped_to(digits_value(body.take(i - from)), reach as int),
            digits_value(body.take(i - from)) >= 0,
            reach < 0x1_0000_0000_0000_0000_0000,
        decreases n - i,
    {
        match digit_of(x[i]) {
            None => {
                assert(body.skip(i - from)[0] == x@[i as int]);
                assert(leading_digits(body) < body.len());
                return None;
            },
            Some(d) => {
                proof {
                    let k = i - from;
                    assert(body.skip(k)[0] == x@[i as int]);
                    assert(body.skip(k).drop_first() =~= body.skip(k + 1));
                    assert(body.take(k + 1).drop_last() =~= body.take(k));
                    assert(body.take(k + 1).last() == x@[i as int]);
                }
                acc = acc * 10 + d as u128;
                if acc > reach {
                    acc = reach;
                }
                i += 1;
            },
        }
    }
    assert(body.take(i - from) =~= body);
    if i == from {
        return None;
    }
    if negative {
        Some(-(acc as i128))
    } else {
        Some(acc as i128)
    }
}

/// Appends the characters `src[a..b]`.
fn append_range(out: &mut Vec<char>, src: &[char], a: usize, b: usize)
    requires
        a <= b <= src@.len(),
    ensures
        final(out)@ == old(out)@ + src@.subrange(a as int, b as int),
{
    let mut i: usize = a;
    assert(out@ =~= old(out)@ + src@.subrange(a as int, a as int));
    while i < b
        invariant
            a <= i <= b <= src@.len(),
            out@ == old(out)@ + src@.subrange(a as int, i as int),
        decreases b - i,
    {
        out.push(src[i]);
        assert(out@ =~= old(out)@ + src@.subrange(a as int, i + 1));
        i += 1;
    }
}

/// Appends `count` zeros.
fn append_zeros(out: &mut Vec<char>, count: u128)
    ensures
        final(out)@ == old(out)@ + zeros(count as int),
{
    let mut i: u128 = 0;
    assert(out@ =~= old(out)@ + zeros(0));
    while i < count
        invariant
            i <= count,
            out@ == old(out)@ + zeros(i as int),
        decreases count - i,
    {
        out.push('0');
        assert(out@ =~= old(out)@ + zeros(i + 1));
        i += 1;
    }
}

/// Writes the digits `src[..d]`, the digits `src[f0..]` after the point, and
/// the point moved `e` places to the right.
fn shift_right(src: &[char], d: usize, f0: usize, e: u128) -> (out: Vec<char>)
    requires
        d <= f0 <= src@.len(),
    ensures
        out@ == src@.subrange(0, d as int) + src@.subrange(
            f0 as int,
            f0 + (if e <= src@.len() - f0 {
                e as int
            } else {
                src@.len() - f0
            }),
        ) + zeros(
            e - (if e <= src@.len() - f0 {
                e as int
            } else {
                src@.len() - f0
            }),
        ) + seq!['.'] + src@.subrange(
            f0 + (if e <= src@.len() - f0 {
                e as int
            } else {
                src@.len() - f0
            }),
            src@.len() as int,
        ),
{
    let n = src.len();
    let flen: usize = n - f0;
    let moved: usize = if e <= flen as u128 {
        e as usize
    } else {
        flen
    };
    let mut out: Vec<char> = Vec::new();
    assert(out@ =~= Seq::<char>::empty());
    append_range(&mut out, src, 0, d);
    assert(out@ =~= src@.subrange(0, d as int));
    append_range(&mut out, src, f0, f0 + moved);
    append_zeros(&mut out, e - moved as u128);
    out.push('.');
    let ghost before = out@;
    append_range(&mut out, src, f0 + moved, n);
    assert(before =~= src@.subrange(0, d as int) + src@.subrange(f0 as int, f0 + moved) + zeros(
        e - moved,
    ) + seq!['.']);
    out
}

/// Writes the digits `src[..d]`, the digits `src[f0..]` after the point, and
/// the point moved `back` places to the left.
fn shift_left(src: &[char], d: usize, f0: usize, back: u128) -> (out: Vec<char>)
    requires
        d <= f0 <= src@.len(),
    ensures
        out@ == src@.subrange(
            0,
            d - (if back <= d {
                back as int
            } else {
                d as int
            }),
        ) + seq!['.'] + zeros(
            back - (if back <= d {
                back as int
            } else {
                d as int
            }),
        ) + src@.subrange(
            d - (if back <= d {
                back as int
            } else {
                d as int
            }),
            d as int,
        ) + src@.subrange(f0 as int, src@.len() as int),
{
    let n = src.len();
    let moved: usize = if back <= d as u128 {
        back as usize
    } else {
        d
    };
    let mut out: Vec<char> = Vec::new();
    assert(out@ =~= Seq::<char>::empty());
    append_range(&mut out, src, 0, d - moved);
    assert(out@ =~= src@.subrange(0, d - moved));
    out.push('.');
    append_zeros(&mut out, back - moved as u128);
    append_range(&mut out, src, d - moved, d);
    let ghost before = out@;
    append_range(&mut out, src, f0, n);
    assert(before =~= src@.subrange(0, d - moved) + seq!['.'] + zeros(back - moved)
        + src@.subrange(d - moved, d as int));
    out
}

/// Writes a mantissa with its point moved by `e` places: the mantissa has
/// `d` digits before its point, and what follows the point is digits.
fn shift_text(mantissa: &[char], d: usize, e: i128) -> (plain: Vec<char>)
    requires
        d <= mantissa@.len(),
        -0x1_0000_0000_0000_0000_0000 < e < 0x1_0000_0000_0000_0000_0000,
    ensures
        plain@ == shifted(
            mantissa@.take(d as int),
            if d < mantissa@.len() {
                mantissa@.skip(d + 1)
            } else {
                Seq::<char>::empty()
            },
            e as int,
        ),
{
    let n = mantissa.len();
    let f0: usize = if d < n {
        d + 1
    } else {
        n
    };
    let ghost whole = mantissa@.take(d as int);
    let ghost frac = mantissa@.subrange(f0 as int, n as int);
    proof {
        if d < n {
            assert(frac =~= mantissa@.skip(d + 1));
        } else {
            assert(frac =~= Seq::<char>::empty());
        }
        assert(mantissa@.subrange(0, d as int) =~= whole);
        assert(frac.len() == n - f0);
        assert(whole.len() == d);
    }
    if e >= 0 {
        let out = shift_right(mantissa, d, f0, e as u128);
        proof {
            let moved: int = if e <= frac.len() {
                e as int
            } else {
                frac.len() as int
            };
            assert(mantissa@.subrange(f0 as int, f0 + moved) =~= frac.take(moved));
            assert(mantissa@.subrange(f0 + moved, n as int) =~= frac.skip(moved));
        }
        out
    } else {
        let out = shift_left(mantissa, d, f0, (-e) as u128);
        proof {
            let moved: int = if -e <= whole.len() {
                (-e) as int
            } else {
                whole.len() as int
            };
            assert(mantissa@.subrange(0, d - moved) =~= whole.take(whole.len() - moved));
            assert(mantissa@.subrange(d - moved, d as int) =~= whole.skip(whole.len() - moved));
        }
        out
    }
}

/// Whether what was read is what a plain numeral writes, or nothing where
/// there is no plain numeral.
spec fn reads_plain(plain: Option<Seq<char>>, r: Unsigned) -> bool {
    match plain {
        Some(p) => match r {
            Unsigned::Value(v, more) => unsigned_form(p) && unsigned_micros(p) == Some(v as int)
                && 0 <= v < 1_000_000_000_000_000_000 && more == drops_before(
                fraction_of(p),
                fraction_of(p).len() as int,
            ),
            Unsigned::TooLarge => unsigned_form(p) && unsigned_micros(p) is None,
            Unsigned::NoNumeral => !unsigned_form(p) && unsigned_micros(p) is None,
        },
        None => r is NoNumeral,
    }
}

/// Reads a mantissa and its exponent.
fn parse_with_exponent(mantissa: &[char], exponent: &[char]) -> (r: Unsigned)
    ensures
        reads_plain(scaled_plain(mantissa@, exponent@), r),
{
    assert(mantissa@.skip(0) =~= mantissa@);
    match parse_unsigned(mantissa, 0) {
        Unsigned::NoNumeral => Unsigned::NoNumeral,
        _ => {
            let d = count_leading_digits(mantissa);
            let fraction: usize = if d < mantissa.len() {
                mantissa.len() - d - 1
            } else {
                0
            };
            proof {
                let rest = mantissa@.skip(d as int);
                if d < mantissa@.len() {
                    assert(rest[0] == '.');
                    assert(rest.drop_first() =~= mantissa@.skip(d + 1));
                } else {
                    assert(rest.len() == 0);
                }
            }
            let reach: u128 = d as u128 + fraction as u128 + 40;
            match read_exponent(exponent, reach) {
                None => Unsigned::NoNumeral,
                Some(e) => {
                    let plain = shift_text(mantissa, d, e);
                    let ghost whole = mantissa@.take(d as int);
                    let ghost frac = fraction_of(mantissa@);
                    proof {
                        assert forall|i: int| 0 <= i < whole.len() implies is_digit(
                            #[trigger] whole[i],
                        ) by {
                            lemma_leading_are_digits(mantissa@, i);
                        }
                        assert forall|i: int| 0 <= i < frac.len() implies is_digit(
                            #[trigger] frac[i],
                        ) by {
                            lemma_leading_are_digits(frac, i);
                        }
                        assert(reach == reach_of(whole, frac));
                        lemma_exponent_beyond_reach(whole, frac, exponent_value(exponent@));
                        assert(plain@ == shifted(whole, frac, e as int));
                        assert(plain@.skip(0) =~= plain@);
                    }
                    parse_unsigned(plain.as_slice(), 0)
                },
            }
        },
    }
}

/// Reads the unsigned numeral `s[from..]`, with or without an exponent.
fn parse_scaled(s: &[char], from: usize) -> (r: Unsigned)
    requires
        from <= s@.len(),
    ensures
        reads_plain(plain_body(s@.skip(from as int)), r),
{
    let ghost body = s@.skip(from as int);
    let n = s.len();
    let mut k: usize = from;
    assert(body.skip(0) =~= body);
    while k < n && s[k] != 'e' && s[k] != 'E'
        invariant
            from <= k <= n,
            n == s@.len(),
            body == s@.skip(from as int),
            mantissa_len(body) == (k - from) + mantissa_len(body.skip(k - from)),
        decreases n - k,
    {
        proof {
            let c = k - from;
            assert(body.skip(c)[0] == s@[k as int]);
            assert(body.skip(c).drop_first() =~= body.skip(c + 1));
        }
        k += 1;
    }
    proof {
        if k < n {
            assert(body.skip(k - from)[0] == s@[k as int]);
        }
    }
    if k == n {
        return parse_unsigned(s, from);
    }
    let mantissa = slice_subrange(s, from, k);
    let exponent = slice_subrange(s, k + 1, n);
    assert(mantissa@ =~= body.take(k - from));
    assert(exponent@ =~= body.skip(k - from + 1));
    parse_with_exponent(mantissa, exponent)
}

fn letter(c: char, small: char, capital: char) -> (r: bool)
    ensures
        r == is_letter(c, small, capital),
{
    c == small || c == capital
}

/// Whether `s[from..]` is the name of a value that is no finite number.
fn names_special_value(s: &[char], from: usize) -> (r: bool)
    requires
        from <= s@.len(),
    ensures
        r == is_special_name(s@.skip(from as int)),
{
    let n = s.len() - from;
    let ghost body = s@.skip(from as int);
    assert(forall|k: int| 0 <= k < body.len() ==> body[k] == s@[from + k]);
    if n == 3 {
        (letter(s[from], 'i', 'I') && letter(s[from + 1], 'n', 'N') && letter(
            s[from + 2],
            'f',
            'F',
        )) || (letter(s[from], 'n', 'N') && letter(s[from + 1], 'a', 'A') && letter(
            s[from + 2],
            'n',
            'N',
        ))
    } else if n == 8 {
        letter(s[from], 'i', 'I') && letter(s[from + 1], 'n', 'N') && letter(
            s[from + 2],
            'f',
            'F',
        ) && letter(s[from + 3], 'i', 'I') && letter(s[from + 4], 'n', 'N') && letter(
            s[from + 5],
            'i',
            'I',
        ) && letter(s[from + 6], 't', 'T') && letter(s[from + 7], 'y', 'Y')
    } else {
        false
    }
}

/// Reads a text as a decimal numeral, and tells a text of another form from
/// a numeral of a number too large to be kept.
pub fn read_decimal(s: &[char]) -> (r: Reading)
    ensures
        is_reading_of(s@, r),
{
    let negative = s.len() > 0 && s[0] == '-';
    let from: usize = if s.len() > 0 && (s[0] == '-' || s[0] == '+') {
        1
    } else {
        0
    };
    proof {
        if from == 1 {
            assert(s@.drop_first() =~= s@.skip(1));
        } else {
            assert(s@.skip(0) =~= s@);
        }
        assert(decimal_body(s@) == s@.skip(from as int));
    }
    if names_special_value(s, from) {
        proof {
            lemma_special_names_are_no_numerals(s@);
        }
        return Reading::NotFinite;
    }
    match parse_scaled(s, from) {
        Unsigned::Value(v, more) => Reading::Value(
            Numeral {
                micros: if negative {
                    -v
                } else {
                    v
                },
                more,
                negative,
            },
        ),
        Unsigned::TooLarge => Reading::TooLarge,
        Unsigned::NoNumeral => Reading::NoNumeral,
    }
}

/// Reads a decimal numeral: its millionths, and on which side of them the
/// number as written lies.
pub fn read_numeral(s: &[char]) -> (r: Option<Numeral>)
    ensures
        match r {
            Some(n) => reads_as(s@, n),
            None => decimal_micros(s@) is None,
        },
{
    match read_decimal(s) {
        Reading::Value(n) => Some(n),
        _ => None,
    }
}

/// Reads a decimal numeral as millionths.
pub fn parse_decimal(s: &[char]) -> (r: Option<i64>)
    ensures
        match r {
            Some(v) => decimal_micros(s@) == Some(v as int),
            None => decimal_micros(s@) is None,
        },
{
    match read_numeral(s) {
        Some(n) => Some(n.micros),
        None => None,
    }
}

/// The whole number that a text writes in decimal digits after an optional
/// sign, where it lies in the range of 64 bits; `None` for any other text.
pub open spec fn integer_of(s: Seq<char>) -> Option<int> {
    let signed = s.len() > 0 && (s[0] == '-' || s[0] == '+');
    let body = if signed {
        s.drop_first()
    } else {
        s
    };
    let v = if s.len() > 0 && s[0] == '-' {
        -digits_value(body)
    } else {
        digits_value(body)
    };
    if body.len() > 0 && leading_digits(body) == body.len() && i64::MIN <= v <= i64::MAX {
        Some(v)
    } else {
        None
    }
}

spec fn capped_at(v: int) -> int {
    if v >= 10_000_000_000_000_000_000 {
        10_000_000_000_000_000_000
    } else {
        v
    }
}

/// Reads a whole number.
pub fn parse_integer(s: &[char]) -> (r: Option<i64>)
    ensures
        match r {
            Some(v) => integer_of(s@) == Some(v as int),
            None => integer_of(s@) is None,
        },
{
    let n = s.len();
    let negative = n > 0 && s[0] == '-';
    let from: usize = if n > 0 && (s[0] == '-' || s[0] == '+') {
        1
    } else {
        0
    };
    let ghost body = s@.skip(from as int);
    proof {
        if from == 1 {
            assert(s@.drop_first() =~= body);
        } else {
            assert(s@ =~= body);
        }
        assert(body.skip(0) =~= body);
        assert(body.take(0) =~= Seq::<char>::empty());
    }
    let mut i: usize = from;
    let mut acc: u128 = 0;
    while i < n
        invariant
            from <= i <= n,
            n == s@.len(),
            body == s@.skip(from as int),
            leading_digits(body) == (i - from) + leading_digits(body.skip(i - from)),
            acc == capped_at(digits_value(body.take(i - from))),
            digits_value(body.take(i - from)) >= 0,
            from == 1 ==> s@.drop_first() == body,
            from == 0 ==> s@ == body,
            from == 1 <==> s@.len() > 0 && (s@[0] == '-' || s@[0] == '+'),
            from <= 1,
        decreases n - i,
    {
        match digit_of(s[i]) {
            None => {
                assert(body.skip(i - from)[0] == s@[i as int]);
                assert(leading_digits(body) < body.len());
                return None;
            },
            Some(d) => {
                proof {
                    let k = i - from;
                    assert(body.skip(k)[0] == s@[i as int]);
                    assert(body.skip(k).drop_first() =~= body.skip(k + 1));
                    assert(body.take(k + 1).drop_last() =~= body.take(k));
                    assert(body.take(k + 1).last() == s@[i as int]);
                }
                acc = acc * 10 + d as u128;
                if acc > 10_000_000_000_000_000_000 {
                    acc = 10_000_000_000_000_000_000;
                }
                i += 1;
            },
        }
    }
    assert(body.take(i - from) =~= body);
    if i == from {
        return None;
    }
    if negative {
        if acc <= 9_223_372_036_854_775_808 {
            Some((-(acc as i128)) as i64)
        } else {
            None
        }
    } else {
        if acc <= 9_223_372_036_854_775_807 {
            Some(acc as i64)
        } else {
            None
        }
    }
}

/// A text that begins with `k` digits and goes on with none begins with
/// exactly `k` digits.
pub proof fn lemma_leading_digits(s: Seq<char>, k: int)
    requires
        0 <= k <= s.len(),
        forall|i: int| 0 <= i < k ==> is_digit(#[trigger] s[i]),
        k < s.len() ==> !is_digit(s[k]),
    ensures
        leading_digits(s) == k,
    decreases k,
{
    if k > 0 {
        let t = s.drop_first();
        assert forall|i: int| 0 <= i < k - 1 implies is_digit(#[trigger] t[i]) by {
            assert(t[i] == s[i + 1]);
        }
        if k - 1 < t.len() {
            assert(t[k - 1] == s[k]);
        }
        lemma_leading_digits(t, k - 1);
    }
}

/// The characters that a text begins with as digits are digits.
pub proof fn lemma_leading_are_digits(s: Seq<char>, i: int)
    requires
        0 <= i < leading_digits(s),
    ensures
        i < s.len(),
        is_digit(s[i]),
    decreases i,
{
    if i > 0 {
        lemma_leading_are_digits(s.drop_first(), i - 1);
    }
}

/// A text without an exponent mark is all mantissa.
pub proof fn lemma_no_mark_no_exponent(body: Seq<char>)
    requires
        forall|k: int| 0 <= k < body.len() ==> !is_exponent_mark(#[trigger] body[k]),
    ensures
        mantissa_len(body) == body.len(),
    decreases body.len(),
{
    if body.len() > 0 {
        let t = body.drop_first();
        assert forall|k: int| 0 <= k < t.len() implies !is_exponent_mark(#[trigger] t[k]) by {
            assert(t[k] == body[k + 1]);
        }
        lemma_no_mark_no_exponent(t);
    }
}

/// The mantissa ends at the first exponent mark, or at the end of the text.
pub proof fn lemma_mantissa_ends_at_mark(body: Seq<char>)
    ensures
        mantissa_len(body) <= body.len(),
        mantissa_len(body) < body.len() ==> is_exponent_mark(body[mantissa_len(body) as int]),
    decreases body.len(),
{
    if body.len() > 0 && !is_exponent_mark(body[0]) {
        lemma_mantissa_ends_at_mark(body.drop_first());
    }
}

/// A text of the form of an unsigned numeral holds digits and one point at
/// most.
proof fn lemma_form_holds_digits(body: Seq<char>, j: int)
    requires
        unsigned_form(body),
        0 <= j < body.len(),
    ensures
        is_digit(body[j]) || body[j] == '.',
{
    let d = leading_digits(body) as int;
    if j < d {
        lemma_leading_are_digits(body, j);
    } else {
        let rest = body.skip(d);
        if d < body.len() {
            assert(rest[0] == body[d]);
            let f = rest.drop_first();
            if j > d {
                assert(f[j - d - 1] == body[j]);
                lemma_leading_are_digits(f, j - d - 1);
            }
        } else {
            assert(rest.len() == 0);
        }
    }
}

/// A decimal numeral holds nothing but digits, points, signs and exponent
/// marks. A text with any other character is no numeral: not `inf`, not
/// `infinity`, not `NaN`, and none with a blank or a digit separator.
pub proof fn lemma_numerals_hold_digits_only(s: Seq<char>, k: int)
    requires
        decimal_form(s),
        0 <= k < s.len(),
    ensures
        is_digit(s[k]) || s[k] == '.' || s[k] == '-' || s[k] == '+' || is_exponent_mark(s[k]),
{
    let body = decimal_body(s);
    let off: int = if s.len() > 0 && (s[0] == '-' || s[0] == '+') {
        1
    } else {
        0
    };
    if k >= off {
        let j = k - off;
        assert(body[j] == s[k]);
        let m = mantissa_len(body) as int;
        lemma_mantissa_ends_at_mark(body);
        if m == body.len() {
            lemma_form_holds_digits(body, j);
        } else {
            let mantissa = body.take(m);
            let exponent = body.skip(m + 1);
            if j < m {
                assert(mantissa[j] == body[j]);
                lemma_form_holds_digits(mantissa, j);
            } else if j > m {
                let x = j - m - 1;
                assert(exponent[x] == body[j]);
                let digits = decimal_body(exponent);
                if exponent[0] == '-' || exponent[0] == '+' {
                    if x > 0 {
                        assert(digits[x - 1] == exponent[x]);
                        lemma_leading_are_digits(digits, x - 1);
                    }
                } else {
                    lemma_leading_are_digits(digits, x);
                }
            }
        }
    }
}

/// The name of a value that is no finite number is no numeral.
pub proof fn lemma_special_names_are_no_numerals(s: Seq<char>)
    requires
        is_special_name(decimal_body(s)),
    ensures
        !decimal_form(s),
        decimal_micros(s) is None,
{
    let body = decimal_body(s);
    let m = mantissa_len(body) as int;
    lemma_mantissa_ends_at_mark(body);
    assert(!is_exponent_mark(body[0]));
    assert(m >= 1);
    if decimal_form(s) || decimal_micros(s) is Some {
        if m == body.len() {
            if unsigned_micros(body) is Some {
                assert(unsigned_form(body));
            }
            lemma_form_holds_digits(body, 0);
        } else {
            let mantissa = body.take(m);
            assert(mantissa[0] == body[0]);
            lemma_form_holds_digits(mantissa, 0);
        }
    }
}

/// A run of digits writes no number below zero.
proof fn lemma_digits_value_not_negative(s: Seq<char>)
    requires
        forall|i: int| 0 <= i < s.len() ==> is_digit(#[trigger] s[i]),
    ensures
        digits_value(s) >= 0,
    decreases s.len(),
{
    if s.len() > 0 {
        let t = s.drop_last();
        assert forall|i: int| 0 <= i < t.len() implies is_digit(#[trigger] t[i]) by {
            assert(t[i] == s[i]);
        }
        lemma_digits_value_not_negative(t);
    }
}

spec fn ten_to(k: int) -> int {
    if k <= 0 {
        1
    } else if k == 1 {
        10
    } else if k == 2 {
        100
    } else if k == 3 {
        1_000
    } else if k == 4 {
        10_000
    } else if k == 5 {
        100_000
    } else if k == 6 {
        1_000_000
    } else if k == 7 {
        10_000_000
    } else if k == 8 {
        100_000_000
    } else if k == 9 {
        1_000_000_000
    } else if k == 10 {
        10_000_000_000
    } else if k == 11 {
        100_000_000_000
    } else {
        1_000_000_000_000
    }
}

/// Zeros behind a run of digits leave zero as it is, and make of any other
/// number one that has as many more places, as far as the limit of whole
/// numbers needs to be told.
proof fn lemma_zeros_behind(digits: Seq<char>, k: int)
    requires
        k >= 0,
        digits_value(digits) >= 0,
    ensures
        digits_value(digits) == 0 ==> digits_value(digits + zeros(k)) == 0,
        digits_value(digits) >= 1 ==> digits_value(digits + zeros(k)) >= ten_to(k),
    decreases k,
{
    if k == 0 {
        assert(digits + zeros(0) =~= digits);
    } else {
        lemma_zeros_behind(digits, k - 1);
        let all = digits + zeros(k);
        assert(all.drop_last() =~= digits + zeros(k - 1));
        assert(all.last() == '0');
    }
}

/// Of a numeral that ends in forty zeros or more and a point, nothing but
/// zero can be kept.
proof fn lemma_point_far_right(digits: Seq<char>, k: int)
    requires
        k >= 12,
        forall|i: int| 0 <= i < digits.len() ==> is_digit(#[trigger] digits[i]),
    ensures
        unsigned_form(digits + zeros(k) + seq!['.']),
        fraction_of(digits + zeros(k) + seq!['.']).len() == 0,
        unsigned_micros(digits + zeros(k) + seq!['.']) == (if digits_value(digits) == 0 {
            Some(0int)
        } else {
            None
        }),
{
    let text = digits + zeros(k) + seq!['.'];
    let d = digits.len() + k;
    assert forall|i: int| 0 <= i < d implies is_digit(#[trigger] text[i]) by {
        if i < digits.len() {
            assert(text[i] == digits[i]);
        } else {
            assert(text[i] == '0');
        }
    }
    assert(text[d] == '.');
    lemma_leading_digits(text, d);
    assert(text.take(d) =~= digits + zeros(k));
    let rest = text.skip(d);
    assert(rest =~= seq!['.']);
    let f = rest.drop_first();
    assert(f =~= Seq::<char>::empty());
    lemma_digits_value_not_negative(digits);
    lemma_zeros_behind(digits, k);
    let six = six_places(f);
    assert(six =~= zeros(6));
    lemma_zeros_behind(Seq::<char>::empty(), 6);
    assert(Seq::<char>::empty() + zeros(6) =~= zeros(6));
    assert(digits_value(six) == 0);
}

/// A numeral that begins with a point and six zeros or more keeps nothing,
/// and writes more than it keeps where one of its other digits is not a
/// zero.
proof fn lemma_point_far_left(digits: Seq<char>, k: int)
    requires
        k >= 6,
        forall|i: int| 0 <= i < digits.len() ==> is_digit(#[trigger] digits[i]),
    ensures
        unsigned_form(seq!['.'] + zeros(k) + digits),
        unsigned_micros(seq!['.'] + zeros(k) + digits) == Some(0int),
        drops_before(
            fraction_of(seq!['.'] + zeros(k) + digits),
            fraction_of(seq!['.'] + zeros(k) + digits).len() as int,
        ) == (exists|i: int| 0 <= i < digits.len() && digits[i] != '0'),
{
    let text = seq!['.'] + zeros(k) + digits;
    assert(text[0] == '.');
    lemma_leading_digits(text, 0);
    assert(text.take(0) =~= Seq::<char>::empty());
    let rest = text.skip(0);
    assert(rest =~= text);
    let f = rest.drop_first();
    assert(f =~= zeros(k) + digits);
    assert forall|i: int| 0 <= i < f.len() implies is_digit(#[trigger] f[i]) by {
        if i < k {
            assert(f[i] == '0');
        } else {
            assert(f[i] == digits[i - k]);
        }
    }
    lemma_leading_digits(f, f.len() as int);
    assert(f == fraction_of(text));
    let six = six_places(f);
    assert(six =~= zeros(6));
    lemma_zeros_behind(Seq::<char>::empty(), 6);
    assert(Seq::<char>::empty() + zeros(6) =~= zeros(6));
    assert(digits_value(six) == 0);
    if drops_before(f, f.len() as int) {
        let j = choose|j: int| 6 <= j < f.len() && j < f.len() && f[j] != '0';
        if j < k {
            assert(f[j] == '0');
        }
        assert(f[j] == digits[j - k]);
        assert(0 <= j - k < digits.len() && digits[j - k] != '0');
    }
    if exists|i: int| 0 <= i < digits.len() && digits[i] != '0' {
        let i = choose|i: int| 0 <= i < digits.len() && digits[i] != '0';
        assert(f[i + k] == digits[i]);
        assert(6 <= i + k < f.len() && i + k < f.len() && f[i + k] != '0');
    }
}

/// Forty places beyond the digits of a numeral.
pub open spec fn reach_of(whole: Seq<char>, frac: Seq<char>) -> int {
    (whole.len() + frac.len() + 40) as int
}

/// An exponent that moves the point further than forty places beyond the
/// digits of a numeral does no more than one that moves it just so far:
/// moved to the right, a number that is not zero is too large to be kept
/// either way, and moved to the left, nothing of it is kept either way.
pub proof fn lemma_exponent_beyond_reach(whole: Seq<char>, frac: Seq<char>, e: int)
    requires
        forall|i: int| 0 <= i < whole.len() ==> is_digit(#[trigger] whole[i]),
        forall|i: int| 0 <= i < frac.len() ==> is_digit(#[trigger] frac[i]),
    ensures
        unsigned_form(shifted(whole, frac, e)) == unsigned_form(
            shifted(whole, frac, clamped(e, reach_of(whole, frac))),
        ),
        unsigned_micros(shifted(whole, frac, e)) == unsigned_micros(
            shifted(whole, frac, clamped(e, reach_of(whole, frac))),
        ),
        drops_before(
            fraction_of(shifted(whole, frac, e)),
            fraction_of(shifted(whole, frac, e)).len() as int,
        ) == drops_before(
            fraction_of(shifted(whole, frac, clamped(e, reach_of(whole, frac)))),
            fraction_of(shifted(whole, frac, clamped(e, reach_of(whole, frac)))).len()
                as int,
        ),
{
    let reach = reach_of(whole, frac);
    let digits = whole + frac;
    assert forall|i: int| 0 <= i < digits.len() implies is_digit(#[trigger] digits[i]) by {
        if i < whole.len() {
            assert(digits[i] == whole[i]);
        } else {
            assert(digits[i] == frac[i - whole.len()]);
        }
    }
    if e > reach {
        let far = e - frac.len();
        let near = reach - frac.len();
        assert(shifted(whole, frac, e) =~= digits + zeros(far) + seq!['.']);
        assert(shifted(whole, frac, reach) =~= digits + zeros(near) + seq!['.']);
        lemma_point_far_right(digits, far);
        lemma_point_far_right(digits, near);
    } else if e < -reach {
        let far = -e - whole.len();
        let near = reach - whole.len();
        assert(shifted(whole, frac, e) =~= seq!['.'] + zeros(far) + digits);
        assert(shifted(whole, frac, -reach) =~= seq!['.'] + zeros(near) + digits);
        lemma_point_far_left(digits, far);
        lemma_point_far_left(digits, near);
    }
}
} // verus!
