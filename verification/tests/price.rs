use nem_price_bot::numeral::{parse_decimal, read_decimal, read_numeral, Numeral, Reading};
use nem_price_bot::price::{push_cents, push_dollars, push_int, push_tenths, rounded};

fn parse(s: &str) -> Option<i64> {
    let chars: Vec<char> = s.chars().collect();
    parse_decimal(&chars)
}

fn dollars(v: i64) -> String {
    let mut s = String::new();
    push_dollars(&mut s, v);
    s
}

fn cents(v: i64) -> String {
    let mut s = String::new();
    push_cents(&mut s, v);
    s
}

#[test]
fn decimal_numerals_are_read_as_millionths() {
    assert_eq!(parse("0"), Some(0));
    assert_eq!(parse("85.12345"), Some(85_123_450));
    assert_eq!(parse("-20"), Some(-20_000_000));
    assert_eq!(parse("+7.5"), Some(7_500_000));
    assert_eq!(parse(".5"), Some(500_000));
    assert_eq!(parse("5."), Some(5_000_000));
    assert_eq!(parse("1.0000019"), Some(1_000_001));
    assert_eq!(parse("000123.450000"), Some(123_450_000));
    assert_eq!(parse("999999999999.999999"), Some(999_999_999_999_999_999));
}

#[test]
fn other_texts_are_no_numerals() {
    assert_eq!(parse(""), None);
    assert_eq!(parse("."), None);
    assert_eq!(parse("-"), None);
    assert_eq!(parse("1e"), None);
    assert_eq!(parse("e3"), None);
    assert_eq!(parse("inf"), None);
    assert_eq!(parse("NaN"), None);
    assert_eq!(parse("1.2.3"), None);
    assert_eq!(parse(" 1"), None);
    assert_eq!(parse("--1"), None);
    assert_eq!(parse("12a"), None);
    assert_eq!(parse("1000000000000"), None);
}

#[test]
fn whole_dollars_round_half_to_even() {
    assert_eq!(dollars(250_000_000), "250");
    assert_eq!(dollars(500_000), "0");
    assert_eq!(dollars(1_500_000), "2");
    assert_eq!(dollars(2_500_000), "2");
    assert_eq!(dollars(2_500_001), "3");
    assert_eq!(dollars(-20_000_000), "-20");
    assert_eq!(dollars(-400_000), "-0");
    assert_eq!(dollars(i64::MIN), "-9223372036855");
}

#[test]
fn cents_round_half_to_even() {
    assert_eq!(cents(85_123_450), "85.12");
    assert_eq!(cents(85_125_000), "85.12");
    assert_eq!(cents(85_135_000), "85.14");
    assert_eq!(cents(0), "0.00");
    assert_eq!(cents(-12_500_000), "-12.50");
    assert_eq!(cents(5_000), "0.00");
    assert_eq!(cents(15_000), "0.02");
    assert_eq!(cents(99_995_000), "100.00");
}

#[test]
fn integers_and_tenths_are_written_in_digits() {
    let mut s = String::new();
    push_int(&mut s, -1203);
    s.push(' ');
    push_int(&mut s, 0);
    s.push(' ');
    push_tenths(&mut s, 125);
    s.push(' ');
    push_tenths(&mut s, 7);
    assert_eq!(s, "-1203 0 12.5 0.7");
    assert_eq!(rounded(15, 6), 2);
    assert_eq!(rounded(45, 6), 8);
    assert_eq!(rounded(7, 2), 4);
}

fn read(s: &str) -> Option<Numeral> {
    let chars: Vec<char> = s.chars().collect();
    read_numeral(&chars)
}

#[test]
fn a_numeral_is_read_with_what_it_writes_beyond_its_millionths() {
    assert_eq!(read("17500"), Some(Numeral { micros: 17_500_000_000, more: false, negative: false }));
    assert_eq!(
        read("17500.0000000"),
        Some(Numeral { micros: 17_500_000_000, more: false, negative: false })
    );
    assert_eq!(
        read("17500.0000001"),
        Some(Numeral { micros: 17_500_000_000, more: true, negative: false })
    );
    assert_eq!(
        read("-1000.00000000009"),
        Some(Numeral { micros: -1_000_000_000, more: true, negative: true })
    );
    assert_eq!(read("-0.0000001"), Some(Numeral { micros: 0, more: true, negative: true }));
    assert_eq!(read("1.2345"), Some(Numeral { micros: 1_234_500, more: false, negative: false }));
    assert_eq!(read("1e3"), Some(Numeral { micros: 1_000_000_000, more: false, negative: false }));
    assert_eq!(
        read("175e2"),
        Some(Numeral { micros: 17_500_000_000, more: false, negative: false })
    );
    assert_eq!(
        read("1750000001e-5"),
        Some(Numeral { micros: 17_500_000_010, more: false, negative: false })
    );
    assert_eq!(
        read("17500000001e-6"),
        Some(Numeral { micros: 17_500_000_001, more: false, negative: false })
    );
    assert_eq!(
        read("-175000000001E-7"),
        Some(Numeral { micros: -17_500_000_000, more: true, negative: true })
    );
}

#[test]
fn bounds_are_tested_on_the_number_as_written() {
    let lo = -1_000_000_000;
    let hi = 17_500_000_000;
    assert!(read("17500").unwrap().within(lo, hi));
    assert!(!read("17500.0000001").unwrap().within(lo, hi));
    assert!(read("17499.9999999").unwrap().within(lo, hi));
    assert!(read("-1000").unwrap().within(lo, hi));
    assert!(!read("-1000.0000001").unwrap().within(lo, hi));
    assert!(read("-999.9999999").unwrap().within(lo, hi));
    assert!(!read("17500.000001").unwrap().within(lo, hi));
    assert!(read("50.0000001").unwrap().within(50_000_000, hi));
    assert!(!read("49.9999999").unwrap().within(50_000_000, hi));
    assert!(read("-0.0000001").unwrap().within(-1, 0));
    assert!(!read("-0.0000001").unwrap().within(0, 1));
    assert!(!read("0.0000001").unwrap().within(-1, 0));
}

#[test]
fn a_numeral_too_large_is_told_from_a_text_of_another_form() {
    let reading = |s: &str| read_decimal(&s.chars().collect::<Vec<char>>());
    assert_eq!(reading("1000000000000"), Reading::TooLarge);
    assert_eq!(reading("-1000000000000.5"), Reading::TooLarge);
    assert_eq!(reading("999999999999.9999999").clone(), Reading::Value(Numeral {
        micros: 999_999_999_999_999_999,
        more: true,
        negative: false,
    }));
    assert_eq!(reading("1000000000000x"), Reading::NoNumeral);
    assert_eq!(reading("1e12"), Reading::TooLarge);
    assert_eq!(reading("1e999999999999999999999999999999"), Reading::TooLarge);
    assert_eq!(reading("1e"), Reading::NoNumeral);
    assert_eq!(reading("inf"), Reading::NotFinite);
    assert_eq!(reading(""), Reading::NoNumeral);
    assert_eq!(reading("."), Reading::NoNumeral);
    assert_eq!(reading("+"), Reading::NoNumeral);
}

/// What a text is to read as: `None` where it is no numeral, `Some(None)`
/// where its number is too large, and the millionths and whether more was
/// written otherwise.
const READINGS: [(&str, Option<Option<(i64, bool)>>); 44] = [
    ("1e3", Some(Some((1_000_000_000, false)))),
    ("1E3", Some(Some((1_000_000_000, false)))),
    ("1e+3", Some(Some((1_000_000_000, false)))),
    ("1e-3", Some(Some((1_000, false)))),
    ("1.e3", Some(Some((1_000_000_000, false)))),
    (".5e1", Some(Some((5_000_000, false)))),
    ("+1e3", Some(Some((1_000_000_000, false)))),
    ("-2.5E-1", Some(Some((-250_000, false)))),
    ("1.5e0", Some(Some((1_500_000, false)))),
    ("1.5e-0", Some(Some((1_500_000, false)))),
    ("12.345e1", Some(Some((123_450_000, false)))),
    ("12.345e3", Some(Some((12_345_000_000, false)))),
    ("12.345e5", Some(Some((1_234_500_000_000, false)))),
    ("12.345e-1", Some(Some((1_234_500, false)))),
    ("12.345e-2", Some(Some((123_450, false)))),
    ("12.345e-4", Some(Some((1_234, true)))),
    ("12.345e-8", Some(Some((0, true)))),
    ("0e999999999999999999999", Some(Some((0, false)))),
    ("0.000e-999999999999999999999", Some(Some((0, false)))),
    ("000.000e+0005", Some(Some((0, false)))),
    ("1e-6", Some(Some((1, false)))),
    ("1e-7", Some(Some((0, true)))),
    ("1e-400", Some(Some((0, true)))),
    ("1e-999999999999999999999", Some(Some((0, true)))),
    ("9e11", Some(Some((900_000_000_000_000_000, false)))),
    ("999999999999.9999994e0", Some(Some((999_999_999_999_999_999, true)))),
    ("1e12", Some(None)),
    ("0.5e13", Some(None)),
    ("1e400", Some(None)),
    ("123456789e-15", Some(Some((0, true)))),
    ("123456789e-9", Some(Some((123_456, true)))),
    ("1e", None),
    ("e5", None),
    ("1e+", None),
    ("1e-", None),
    (".e5", None),
    ("1e3.0", None),
    ("1e 3", None),
    (" 1e3", None),
    ("1e3 ", None),
    ("1.2.3e4", None),
    ("1e--3", None),
    ("1e3e3", None),
    ("1_0", None),
];

#[test]
fn numerals_with_exponents_read_as_what_they_write() {
    for (text, expected) in READINGS {
        let chars: Vec<char> = text.chars().collect();
        let got = match read_decimal(&chars) {
            Reading::NoNumeral => None,
            Reading::NotFinite => panic!("{:?} names no value", text),
            Reading::TooLarge => Some(None),
            Reading::Value(n) => Some(Some((n.micros, n.more))),
        };
        assert_eq!(got, expected, "{:?}", text);
        assert_eq!(got.is_some(), text.parse::<f64>().is_ok(), "{:?}", text);
    }
}

#[test]
fn names_of_values_that_are_no_finite_numbers_are_told_apart() {
    for text in [
        "inf", "-inf", "+inf", "infinity", "Infinity", "+INFINITY", "INF", "nan", "NaN", "-nan",
        "iNf", "-InFiNiTy",
    ] {
        let chars: Vec<char> = text.chars().collect();
        assert_eq!(read_decimal(&chars), Reading::NotFinite, "{:?}", text);
        assert_eq!(read_numeral(&chars), None, "{:?}", text);
        assert!(!text.parse::<f64>().unwrap().is_finite(), "{:?}", text);
    }
    for text in ["in", "infi", "infinit", "infinityy", "na", "nann", "i", "n", "-", "--inf", "inf "] {
        let chars: Vec<char> = text.chars().collect();
        assert_eq!(read_decimal(&chars), Reading::NoNumeral, "{:?}", text);
        assert!(text.parse::<f64>().is_err(), "{:?}", text);
    }
}

#[test]
fn texts_that_are_no_numbers_are_no_numerals() {
    for text in [
        "", ".", "+", "-", "+-1", "1+", "0x10", "1,5", "١٢", "1f", "--1", "1..2", "1.2.", "five",
        "1d3", "1E", "E", "e", ".e", "+.", "-.e1", "1 ", "\t1",
    ] {
        let chars: Vec<char> = text.chars().collect();
        assert_eq!(read_decimal(&chars), Reading::NoNumeral, "{:?}", text);
        assert!(text.parse::<f64>().is_err(), "{:?}", text);
    }
}
