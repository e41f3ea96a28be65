//! Market time: the civil time of Brisbane, ten hours ahead of UTC the year
//! round, in which the publisher stamps its intervals.

use vstd::prelude::*;
use vstd::string::*;
use chrono::Datelike;
use chrono::Timelike;
use crate::price::digit_char;
use crate::text::push_char;

verus! {

/// A civil date and time of day.
#[derive(Clone, Copy, Debug, PartialEq, Eq, Structural)]
pub struct MarketTime {
    pub year: i32,
    pub month: u32,
    pub day: u32,
    pub hour: u32,
    pub minute: u32,
    pub second: u32,
}

impl MarketTime {
    /// The fields are those of a date and a time of day, in a year of four digits.
    pub open spec fn wf(self) -> bool {
        &&& 0 <= self.year <= 9999
        &&& 1 <= self.month <= 12
        &&& 1 <= self.day <= 31
        &&& self.hour <= 23
        &&& self.minute <= 59
        &&& self.second <= 59
    }
}

/// An instant: its Unix time in seconds, and the market time that it falls on.
#[derive(Clone, Copy, Debug, PartialEq, Eq, Structural)]
pub struct Clock {
    pub unix: i64,
    pub local: MarketTime,
}

impl Clock {
    /// The market time is a date and a time of day.
    pub open spec fn wf(self) -> bool {
        self.local.wf()
    }
}

/// The civil time in Brisbane at `unix_secs` seconds after the Unix epoch, as
/// the time zone database tells it; `None` where the calendar does not reach.
pub uninterp spec fn brisbane_time(unix_secs: int) -> Option<MarketTime>;

/// chrono's `DateTime::from_timestamp`, taken to `chrono_tz::Australia::Brisbane`
/// by `DateTime::with_timezone` and read field by field. The result is
/// `brisbane_time` of the argument, and its fields lie in the ranges that
/// chrono documents for `month`, `day`, `hour`, `minute` and `second`.
#[verifier::external_body]
fn civil_in_brisbane(unix_secs: i64) -> (r: Option<MarketTime>)
    ensures
        r == brisbane_time(unix_secs as int),
        r matches Some(t) ==> 1 <= t.month <= 12 && 1 <= t.day <= 31 && t.hour <= 23 && t.minute
            <= 59 && t.second <= 59,
{
    let utc = chrono::DateTime::from_timestamp(unix_secs, 0)?;
    let t = utc.with_timezone(&chrono_tz::Australia::Brisbane);
    Some(
        MarketTime {
            year: t.year(),
            month: t.month(),
            day: t.day(),
            hour: t.hour(),
            minute: t.minute(),
            second: t.second(),
        },
    )
}

/// The civil time in UTC at `unix_secs` seconds after the Unix epoch; `None`
/// where the calendar does not reach.
pub uninterp spec fn utc_time(unix_secs: int) -> Option<MarketTime>;

/// chrono's `DateTime::from_timestamp`, read field by field. The result is
/// `utc_time` of the argument, and its fields lie in the ranges that chrono
/// documents for `month`, `day`, `hour`, `minute` and `second`.
#[verifier::external_body]
fn civil_in_utc(unix_secs: i64) -> (r: Option<MarketTime>)
    ensures
        r == utc_time(unix_secs as int),
        r matches Some(t) ==> 1 <= t.month <= 12 && 1 <= t.day <= 31 && t.hour <= 23 && t.minute
            <= 59 && t.second <= 59,
{
    let t = chrono::DateTime::from_timestamp(unix_secs, 0)?;
    Some(
        MarketTime {
            year: t.year(),
            month: t.month(),
            day: t.day(),
            hour: t.hour(),
            minute: t.minute(),
            second: t.second(),
        },
    )
}

/// The Unix time of the instant that a text names as a civil time of
/// Brisbane, read by a format of chrono's `strftime` kind; `None` where the
/// text does not fit the format or names no single instant.
pub uninterp spec fn brisbane_instant(text: Seq<char>, format: Seq<char>) -> Option<int>;

/// chrono's `NaiveDateTime::parse_from_str`, taken as a local time of
/// `chrono_tz::Australia::Brisbane` by `and_local_timezone`, where that is
/// a single instant, and its `timestamp`. The result is `brisbane_instant`
/// of the arguments.
#[verifier::external_body]
fn instant_in_brisbane(text: &str, format: &str) -> (r: Option<i64>)
    ensures
        match r {
            Some(t) => brisbane_instant(text@, format@) == Some(t as int),
            None => brisbane_instant(text@, format@) is None,
        },
{
    let naive = chrono::NaiveDateTime::parse_from_str(text, format).ok()?;
    let local = naive.and_local_timezone(chrono_tz::Australia::Brisbane).single()?;
    Some(local.timestamp())
}

/// The instant that an interval time names: the publisher writes
/// `YYYY/MM/DD HH:MM:SS` in market time.
pub open spec fn interval_instant(interval_time: Seq<char>) -> Option<int> {
    brisbane_instant(interval_time, "%Y/%m/%d %H:%M:%S"@)
}

/// The age of an interval in whole minutes: none below zero, and -1 where
/// the interval's time names no instant.
pub open spec fn age_minutes(instant: Option<int>, now: int) -> int {
    match instant {
        Some(t) => if now >= t {
            (now - t) / 60
        } else {
            0
        },
        None => -1,
    }
}

/// What `interval_age_minutes` returns for an age in minutes: the age where
/// it can be held, and the greatest number that can be where it cannot.
pub open spec fn held_minutes(age: int) -> int {
    if age > i64::MAX {
        i64::MAX as int
    } else {
        age
    }
}

/// How many minutes ago an interval time was, at the Unix time `now`.
pub fn interval_age_minutes(interval_time: &str, now: i64) -> (r: i64)
    ensures
        r == held_minutes(age_minutes(interval_instant(interval_time@), now as int)),
{
    match instant_in_brisbane(interval_time, "%Y/%m/%d %H:%M:%S") {
        Some(t) => {
            if now >= t {
                let d: i128 = (now as i128 - t as i128) / 60;
                if d > i64::MAX as i128 {
                    i64::MAX
                } else {
                    d as i64
                }
            } else {
                0
            }
        },
        None => -1,
    }
}

/// The date in UTC as `YYYY-MM-DD`.
pub open spec fn iso_date_text(t: MarketTime) -> Seq<char> {
    four_digits(t.year as int) + seq!['-'] + two_digits(t.month as int) + seq!['-'] + two_digits(
        t.day as int,
    )
}

/// The date in UTC at a Unix time, for the years 0 to 9999.
pub fn utc_date(unix_secs: i64) -> (r: Option<String>)
    ensures
        match r {
            Some(d) => four_digit_year(utc_time(unix_secs as int)) matches Some(t) && d@
                == iso_date_text(t),
            None => four_digit_year(utc_time(unix_secs as int)) is None,
        },
{
    match civil_in_utc(unix_secs) {
        Some(t) => {
            if 0 <= t.year && t.year <= 9999 {
                let mut s = String::new();
                push_four_digits(&mut s, t.year as u32);
                push_char(&mut s, '-');
                push_two_digits(&mut s, t.month);
                push_char(&mut s, '-');
                push_two_digits(&mut s, t.day);
                assert(s@ =~= iso_date_text(t));
                Some(s)
            } else {
                None
            }
        },
        None => None,
    }
}

/// What `market_time` makes of the database's answer: the answer itself where
/// its year has four digits, and nothing otherwise.
pub open spec fn four_digit_year(t: Option<MarketTime>) -> Option<MarketTime> {
    match t {
        Some(m) => if 0 <= m.year <= 9999 {
            Some(m)
        } else {
            None
        },
        None => None,
    }
}

/// The market time at a Unix time, for the years 0 to 9999.
pub fn market_time(unix_secs: i64) -> (r: Option<MarketTime>)
    ensures
        r == four_digit_year(brisbane_time(unix_secs as int)),
        r matches Some(t) ==> t.wf(),
{
    match civil_in_brisbane(unix_secs) {
        Some(t) => {
            if 0 <= t.year && t.year <= 9999 {
                Some(t)
            } else {
                None
            }
        },
        None => None,
    }
}

impl Clock {
    /// The instant `unix_secs` with its market time.
    pub fn at(unix_secs: i64) -> (r: Option<Clock>)
        ensures
            match r {
                Some(c) => c.unix == unix_secs && Some(c.local) == four_digit_year(
                    brisbane_time(unix_secs as int),
                ) && c.wf(),
                None => four_digit_year(brisbane_time(unix_secs as int)) is None,
            },
    {
        match market_time(unix_secs) {
            Some(t) => Some(Clock { unix: unix_secs, local: t }),
            None => None,
        }
    }
}

/// Two digits, the first a zero below ten.
pub open spec fn two_digits(n: int) -> Seq<char> {
    seq![digit_char(n / 10), digit_char(n % 10)]
}

/// Four digits, with leading zeros.
pub open spec fn four_digits(n: int) -> Seq<char> {
    seq![
        digit_char(n / 1000),
        digit_char((n / 100) % 10),
        digit_char((n / 10) % 10),
        digit_char(n % 10),
    ]
}

/// The date as the publisher writes it: `YYYY/MM/DD`.
pub open spec fn date_text(t: MarketTime) -> Seq<char> {
    four_digits(t.year as int) + seq!['/'] + two_digits(t.month as int) + seq!['/'] + two_digits(
        t.day as int,
    )
}

/// The time of day at hour, minute and second given: `HH:MM:SS`.
pub open spec fn clock_text(hour: int, minute: int, second: int) -> Seq<char> {
    two_digits(hour) + seq![':'] + two_digits(minute) + seq![':'] + two_digits(second)
}

/// Date and time as the publisher writes them: `YYYY/MM/DD HH:MM:SS`.
pub open spec fn datetime_text(t: MarketTime) -> Seq<char> {
    date_text(t) + seq![' '] + clock_text(t.hour as int, t.minute as int, t.second as int)
}

/// The English abbreviation of a month.
pub open spec fn month_abbreviation(month: int) -> Seq<char> {
    if month == 1 {
        "Jan"@
    } else if month == 2 {
        "Feb"@
    } else if month == 3 {
        "Mar"@
    } else if month == 4 {
        "Apr"@
    } else if month == 5 {
        "May"@
    } else if month == 6 {
        "Jun"@
    } else if month == 7 {
        "Jul"@
    } else if month == 8 {
        "Aug"@
    } else if month == 9 {
        "Sep"@
    } else if month == 10 {
        "Oct"@
    } else if month == 11 {
        "Nov"@
    } else {
        "Dec"@
    }
}

/// The date as a summary shows it: `27 Feb 2026`.
pub open spec fn date_display_text(t: MarketTime) -> Seq<char> {
    two_digits(t.day as int) + seq![' '] + month_abbreviation(t.month as int) + seq![' ']
        + four_digits(t.year as int)
}

fn digit(d: u32) -> (c: char)
    requires
        d <= 9,
    ensures
        c == digit_char(d as int),
{
    if d == 0 {
        '0'
    } else if d == 1 {
        '1'
    } else if d == 2 {
        '2'
    } else if d == 3 {
        '3'
    } else if d == 4 {
        '4'
    } else if d == 5 {
        '5'
    } else if d == 6 {
        '6'
    } else if d == 7 {
        '7'
    } else if d == 8 {
        '8'
    } else {
        '9'
    }
}

fn push_two_digits(s: &mut String, n: u32)
    requires
        n <= 99,
    ensures
        final(s)@ == old(s)@ + two_digits(n as int),
{
    push_char(s, digit(n / 10));
    push_char(s, digit(n % 10));
    assert(s@ =~= old(s)@ + two_digits(n as int));
}

fn push_four_digits(s: &mut String, n: u32)
    requires
        n <= 9999,
    ensures
        final(s)@ == old(s)@ + four_digits(n as int),
{
    push_char(s, digit(n / 1000));
    push_char(s, digit((n / 100) % 10));
    push_char(s, digit((n / 10) % 10));
    push_char(s, digit(n % 10));
    assert(s@ =~= old(s)@ + four_digits(n as int));
}

fn push_date(s: &mut String, t: &MarketTime)
    requires
        t.wf(),
    ensures
        final(s)@ == old(s)@ + date_text(*t),
{
    push_four_digits(s, t.year as u32);
    push_char(s, '/');
    push_two_digits(s, t.month);
    push_char(s, '/');
    push_two_digits(s, t.day);
    assert(s@ =~= old(s)@ + date_text(*t));
}

fn push_clock(s: &mut String, hour: u32, minute: u32, second: u32)
    requires
        hour <= 99,
        minute <= 99,
        second <= 99,
    ensures
        final(s)@ == old(s)@ + clock_text(hour as int, minute as int, second as int),
{
    push_two_digits(s, hour);
    push_char(s, ':');
    push_two_digits(s, minute);
    push_char(s, ':');
    push_two_digits(s, second);
    assert(s@ =~= old(s)@ + clock_text(hour as int, minute as int, second as int));
}

/// `YYYY/MM/DD`, the prefix that every interval time of the day begins with.
pub fn format_date(t: &MarketTime) -> (s: String)
    requires
        t.wf(),
    ensures
        s@ == date_text(*t),
{
    let mut s = String::new();
    push_date(&mut s, t);
    assert(s@ =~= date_text(*t));
    s
}

/// `YYYY/MM/DD HH:MM:SS`.
pub fn format_datetime(t: &MarketTime) -> (s: String)
    requires
        t.wf(),
    ensures
        s@ == datetime_text(*t),
{
    let mut s = String::new();
    push_date(&mut s, t);
    push_char(&mut s, ' ');
    push_clock(&mut s, t.hour, t.minute, t.second);
    assert(s@ =~= datetime_text(*t));
    s
}

fn month_name(month: u32) -> (r: &'static str)
    ensures
        r@ == month_abbreviation(month as int),
{
    if month == 1 {
        "Jan"
    } else if month == 2 {
        "Feb"
    } else if month == 3 {
        "Mar"
    } else if month == 4 {
        "Apr"
    } else if month == 5 {
        "May"
    } else if month == 6 {
        "Jun"
    } else if month == 7 {
        "Jul"
    } else if month == 8 {
        "Aug"
    } else if month == 9 {
        "Sep"
    } else if month == 10 {
        "Oct"
    } else if month == 11 {
        "Nov"
    } else {
        "Dec"
    }
}

/// `27 Feb 2026`.
pub fn format_date_display(t: &MarketTime) -> (s: String)
    requires
        t.wf(),
    ensures
        s@ == date_display_text(*t),
{
    let mut s = String::new();
    push_two_digits(&mut s, t.day);
    push_char(&mut s, ' ');
    s.append(month_name(t.month));
    push_char(&mut s, ' ');
    push_four_digits(&mut s, t.year as u32);
    assert(s@ =~= date_display_text(*t));
    s
}

} // verus!
