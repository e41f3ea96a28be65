use chrono::TimeZone;
use nem_price_bot::bot::commands::split_words;
use nem_price_bot::data::parser::{parse_dispatch, parse_predispatch};
use nem_price_bot::db::Db;
use nem_price_bot::engine::scheduler::{wait_until_next_forecast_slot, wait_until_next_price_slot};
use nem_price_bot::clock::{format_datetime, market_time, MarketTime};
use nem_price_bot::numeral::{parse_decimal, read_numeral};
use nem_price_bot::price::{push_cents, push_dollars};
use nem_price_bot::text::{chars_of, contains_text, same_text, starts_with, text_less, text_of};

const TEXTS: [&str; 14] = [
    "",
    "a",
    "A",
    "ab",
    "abc",
    "abd",
    "b",
    "2026/02/27 14:00:00",
    "2026/02/27 14:05:00",
    "2026/02/28 00:00:00",
    "2026/02/27",
    "\u{e9}t\u{e9}",
    "\u{1f534}\u{1f525}",
    "z\u{a0}",
];

/// A small generator of numbers, the same on every run.
struct Numbers(u64);

impl Numbers {
    fn next(&mut self) -> u64 {
        self.0 = self.0.wrapping_mul(6364136223846793005).wrapping_add(1442695040888963407);
        self.0 >> 33
    }
}

#[test]
fn the_order_of_texts_is_that_of_their_bytes() {
    for a in TEXTS {
        for b in TEXTS {
            assert_eq!(text_less(a, b), a < b, "{:?} < {:?}", a, b);
            assert_eq!(same_text(a, b), a == b, "{:?} == {:?}", a, b);
            assert_eq!(starts_with(a, b), a.starts_with(b), "{:?} starts with {:?}", a, b);
            assert_eq!(contains_text(a, b), a.contains(b), "{:?} contains {:?}", a, b);
        }
    }
}

#[test]
fn characters_and_texts_turn_into_each_other() {
    for a in TEXTS {
        let chars = chars_of(a);
        assert_eq!(chars, a.chars().collect::<Vec<char>>());
        assert_eq!(text_of(&chars, 0, chars.len()), a);
        if chars.len() >= 2 {
            let inner: String = chars[1..chars.len() - 1].iter().collect();
            assert_eq!(text_of(&chars, 1, chars.len() - 1), inner);
        }
    }
}

#[test]
fn words_are_those_between_white_space() {
    for s in [
        "",
        " ",
        "high 200",
        "  low\t-20\n",
        "a\u{2003}b\u{3000}c",
        "\u{85}x\u{1680}y\u{202f}",
        "one",
        "x  y   z ",
    ] {
        let expected: Vec<String> = s.split_whitespace().map(|w| w.to_string()).collect();
        assert_eq!(split_words(s), expected, "{:?}", s);
    }
}

/// The reading of a price table with the text functions of std, each
/// subtype with the columns of its own header rows.
fn read_by_std(csv: &str, forecast: bool) -> Vec<(String, i64, String)> {
    let mut maps: Vec<(String, Vec<(String, usize)>)> = Vec::new();
    let mut out = Vec::new();
    let find = |cols: &Vec<(String, usize)>, name: &str| {
        cols.iter().rev().find(|(n, _)| n == name).map(|(_, i)| *i)
    };
    for line in csv.lines() {
        let fields: Vec<&str> = line.split(',').collect();
        if fields.len() < 3 {
            continue;
        }
        let tag = fields[0].trim();
        let table = fields[1].trim();
        let sub = fields[2].trim();
        let ours = if forecast {
            table == "PREDISPATCH" && (sub == "PRICE" || sub == "REGION_PRICES")
        } else {
            table == "DISPATCH" && sub == "PRICE"
        };
        if tag == "I" && ours {
            let named: Vec<(String, usize)> = fields
                .iter()
                .enumerate()
                .map(|(i, f)| (f.trim().trim_matches('"').to_string(), i))
                .collect();
            maps.retain(|(s, _)| s != sub);
            maps.push((sub.to_string(), named));
        }
        if tag == "D" && ours {
            let none = Vec::new();
            let cols = maps.iter().find(|(s, _)| s == sub).map(|(_, c)| c).unwrap_or(&none);
            let ri = find(cols, "REGIONID");
            let pi = find(cols, "RRP");
            let ti = if forecast {
                find(cols, "DATETIME").or(find(cols, "PERIODID"))
            } else {
                find(cols, "SETTLEMENTDATE")
            };
            if let (Some(ri), Some(pi), Some(ti)) = (ri, pi, ti) {
                if ri < fields.len() && pi < fields.len() && ti < fields.len() {
                    let price_text: Vec<char> =
                        fields[pi].trim().trim_matches('"').chars().collect();
                    if let Some(n) = read_numeral(&price_text) {
                        if n.within(-1_000_000_000, 17_500_000_000) {
                            out.push((
                                fields[ri].trim().trim_matches('"').to_string(),
                                n.micros,
                                fields[ti].trim().trim_matches('"').to_string(),
                            ));
                        }
                    }
                }
            }
        }
    }
    out
}

const FILES: [&str; 11] = [
    "",
    "\n\n",
    "I,DISPATCH,PRICE,1,SETTLEMENTDATE,REGIONID,RRP\r\nD,DISPATCH,PRICE,1,t,NSW1,5\r\n",
    "I,DISPATCH,PRICE,1,SETTLEMENTDATE,REGIONID,RRP\nD,DISPATCH,PRICE,1,t,NSW1,5",
    " I , DISPATCH , PRICE ,1, \"SETTLEMENTDATE\" ,\" REGIONID \", RRP \n D , DISPATCH , PRICE ,1,\"\"t\"\", \" NSW1 \" , \"5.25\" \n",
    "I,DISPATCH,PRICE,RRP,REGIONID,RRP,SETTLEMENTDATE\nD,DISPATCH,PRICE,1,NSW1,2,t\nD,DISPATCH,PRICE,1,NSW1\n",
    "\"I\",DISPATCH,PRICE,1,SETTLEMENTDATE,REGIONID,RRP\nD,DISPATCH,PRICE,1,t,NSW1,5\n",
    "I,PREDISPATCH,PRICE,1,PERIODID,REGIONID,RRP\nD,PREDISPATCH,PRICE,1,7,\u{a0}QLD1\u{a0},-1000\nI,PREDISPATCH,REGION_PRICES,DATETIME,REGIONID,RRP,PERIODID\nD,PREDISPATCH,REGION_PRICES,d,SA1,17500.0,9\nD,PREDISPATCH,REGIONSUM,d,SA1,1,9\n",
    "I,DISPATCH,PRICE,1,SETTLEMENTDATE,REGIONID,RRP\nI,DISPATCH,OTHER,RRP,REGIONID,SETTLEMENTDATE\nD,DISPATCH,PRICE,1,t,\u{e9}t\u{e9},1e2\nD,DISPATCH,PRICE,1,t,\u{e9}t\u{e9},12.5\n,,\nD\n",
    "I,PREDISPATCH,PRICE,REGIONID,RRP,DATETIME\nD,PREDISPATCH,REGION_PRICES,NSW1,100,t\nD,PREDISPATCH,PRICE,NSW1,100,t\n",
    "I,PREDISPATCH,REGION_PRICES,DATETIME,RRP,REGIONID\nI,PREDISPATCH,PRICE,REGIONID,RRP,DATETIME\nD,PREDISPATCH,REGION_PRICES,t1,1,A\nD,PREDISPATCH,PRICE,B,2,t2\nI,PREDISPATCH,REGION_PRICES,X,Y,Z\nD,PREDISPATCH,REGION_PRICES,t3,3,C\nD,PREDISPATCH,PRICE,D,17500.0000001,t4\n",
];

#[test]
fn files_are_read_as_the_text_functions_of_std_read_them() {
    for csv in FILES {
        let prices: Vec<(String, i64, String)> = parse_dispatch(csv)
            .into_iter()
            .map(|r| (r.region, r.price, r.interval_time))
            .collect();
        assert_eq!(prices, read_by_std(csv, false), "{:?}", csv);
        let forecasts: Vec<(String, i64, String)> = parse_predispatch(csv)
            .into_iter()
            .map(|r| (r.region, r.price, r.forecast_time))
            .collect();
        assert_eq!(forecasts, read_by_std(csv, true), "{:?}", csv);
    }
}

#[test]
fn the_wait_is_what_the_clock_arithmetic_gives() {
    for minute in 0..60u32 {
        for second in 0..60u32 {
            let now = MarketTime { year: 2026, month: 2, day: 27, hour: 14, minute, second };
            for (period_minutes, got) in [
                (5i64, wait_until_next_price_slot(&now)),
                (30i64, wait_until_next_forecast_slot(&now)),
            ] {
                let m = minute as i64;
                let current = m * 60 + second as i64;
                let target = (m - m % period_minutes) * 60 + 90;
                let wait = if target > current {
                    target - current
                } else {
                    target + period_minutes * 60 - current
                };
                assert_eq!(got as i64, wait.max(1), "{}:{}", minute, second);
            }
        }
    }
}

#[test]
fn prices_written_with_six_places_read_back() {
    let mut n = Numbers(7);
    for _ in 0..2000 {
        let v = (n.next() % 40_000_000_000) as i64 - 20_000_000_000;
        let text = format!(
            "{}{}.{:06}",
            if v < 0 { "-" } else { "" },
            v.unsigned_abs() / 1_000_000,
            v.unsigned_abs() % 1_000_000
        );
        let chars: Vec<char> = text.chars().collect();
        assert_eq!(parse_decimal(&chars), Some(v), "{}", text);
    }
}

#[test]
fn rounded_prices_agree_with_exact_halves() {
    for (v, dollars, cents) in [
        (500_000i64, "0", "0.50"),
        (1_500_000, "2", "1.50"),
        (-2_500_000, "-2", "-2.50"),
        (3_500_000, "4", "3.50"),
        (125_000, "0", "0.12"),
        (375_000, "0", "0.38"),
        (-625_000, "-1", "-0.62"),
        (999_999, "1", "1.00"),
        (17_500_000_000, "17500", "17500.00"),
    ] {
        let mut d = String::new();
        push_dollars(&mut d, v);
        assert_eq!(d, dollars, "{}", v);
        assert_eq!(d, format!("{:.0}", v as f64 / 1_000_000.0), "{}", v);
        let mut c = String::new();
        push_cents(&mut c, v);
        assert_eq!(c, cents, "{}", v);
        assert_eq!(c, format!("{:.2}", v as f64 / 1_000_000.0), "{}", v);
    }
}

#[test]
fn forecasts_agree_with_sorting_and_keeping_the_latest_publication() {
    let mut n = Numbers(11);
    for round in 0..40 {
        let mut db = Db::new();
        let mut rows: Vec<(String, String, String, i64)> = Vec::new();
        for _ in 0..(round % 17) {
            let region = ["NSW1", "VIC1"][(n.next() % 2) as usize].to_string();
            let time = format!("2026/02/27 {:02}:{:02}:00", 14 + n.next() % 3, 30 * (n.next() % 2));
            let published = format!("2026/02/27 13:{:02}:30", n.next() % 4);
            let price = (n.next() % 1000) as i64;
            db.insert_forecast(&region, &time, price, &published, 0);
            if !rows.iter().any(|r| r.0 == region && r.1 == time && r.2 == published) {
                rows.push((region, time, published, price));
            }
        }
        for (after, before) in [
            ("2026/02/27 14:00:00", "2026/02/27 16:00:00"),
            ("2026/02/27 14:30:00", "2026/02/27 15:30:00"),
            ("", "z"),
            ("2026/02/27 16:30:00", "2026/02/27 14:00:00"),
        ] {
            let mut wanted: Vec<&(String, String, String, i64)> = rows
                .iter()
                .filter(|r| r.0 == "NSW1" && r.1.as_str() > after && r.1.as_str() <= before)
                .collect();
            wanted.sort_by(|a, b| a.1.cmp(&b.1).then(b.2.cmp(&a.2)));
            let mut expected: Vec<(String, i64)> = Vec::new();
            for r in wanted {
                if expected.last().map(|e| e.0 != r.1).unwrap_or(true) {
                    expected.push((r.1.clone(), r.3));
                }
            }
            assert_eq!(db.get_forecasts("NSW1", after, before), expected);
        }
    }
}

#[test]
fn latest_and_previous_agree_with_sorting() {
    let mut n = Numbers(23);
    for round in 0..40 {
        let mut db = Db::new();
        let mut rows: Vec<(String, i64)> = Vec::new();
        for _ in 0..(round % 9) {
            let time = format!("2026/02/27 14:{:02}:00", 5 * (n.next() % 12));
            let price = (n.next() % 1000) as i64;
            db.insert_price("QLD1", price, &time, 0);
            db.insert_price("SA1", price + 1, &time, 0);
            if !rows.iter().any(|r| r.0 == time) {
                rows.push((time, price));
            }
        }
        rows.sort_by(|a, b| b.0.cmp(&a.0));
        assert_eq!(db.get_latest_price("QLD1"), rows.first().map(|r| (r.1, r.0.clone())));
        assert_eq!(db.get_previous_price("QLD1"), rows.get(1).map(|r| r.1));
    }
}

#[test]
fn market_time_agrees_with_the_time_zone_database() {
    let mut n = Numbers(5);
    for _ in 0..500 {
        let unix = (n.next() % 4_000_000_000) as i64;
        let t = market_time(unix).unwrap();
        let expected = chrono_tz::Australia::Brisbane
            .timestamp_opt(unix, 0)
            .unwrap()
            .format("%Y/%m/%d %H:%M:%S")
            .to_string();
        assert_eq!(format_datetime(&t), expected);
    }
}
