//! The commands of the chat, from the store to the reply.
//!
//! Receiving a command and sending the reply are the caller's.

use vstd::prelude::*;
use vstd::string::*;
use crate::bot::messages::{
    about_message,
    about_text,
    forecast_response_text,
    format_forecast_response,
    format_price_response,
    help_message,
    help_text,
    price_response_text,
    region_display,
    region_display_text,
    welcome_message,
    welcome_text,
};
use crate::clock::{
    age_minutes,
    brisbane_time,
    date_text,
    datetime_text,
    format_date,
    format_datetime,
    four_digit_year,
    held_minutes,
    interval_age_minutes,
    interval_instant,
    iso_date_text,
    market_time,
    utc_date,
    utc_time,
    Clock,
    MarketTime,
};
use crate::data::parser::{is_space, is_space_char};
use crate::db::model::DbView;
use crate::db::repository::Db;
use crate::db::rows::UserView;
use crate::numeral::{
    Numeral,
    Reading,
    decimal_body,
    decimal_form,
    decimal_micros,
    decimal_more,
    decimal_negative,
    is_special_name,
    read_decimal,
};
use crate::price::{dollars_text, int_text, nat_text, push_dollars, push_int, push_nat};
use crate::text::{chars_of, same_text, text_of};

verus! {

/// The lowest high threshold that a user may set: 50 dollars.
pub const HIGH_ALERT_MIN: i64 = 50_000_000;

/// The highest high threshold that a user may set: 15000 dollars.
pub const HIGH_ALERT_MAX: i64 = 15_000_000_000;

/// The lowest low threshold that a user may set: -1000 dollars.
pub const LOW_ALERT_MIN: i64 = -1_000_000_000;

/// The highest low threshold that a user may set: 50 dollars.
pub const LOW_ALERT_MAX: i64 = 50_000_000;

/// How far ahead the forecast of `/forecast` reaches, in seconds: six hours.
pub const FORECAST_REACH_SECS: i64 = 21_600;

/// A command of the chat.
#[derive(Debug)]
pub enum Command {
    Start,
    Price,
    Forecast,
    Alert(String),
    Status,
    Region,
    Help,
    About,
}

/// What goes back to the chat.
#[derive(Debug)]
pub struct Reply {
    pub text: String,
    /// Whether the five regions are offered below the text.
    pub region_keyboard: bool,
}

/// A reply as a value.
pub ghost struct ReplyView {
    pub text: Seq<char>,
    pub region_keyboard: bool,
}

impl View for Reply {
    type V = ReplyView;

    open spec fn view(&self) -> ReplyView {
        ReplyView { text: self.text@, region_keyboard: self.region_keyboard }
    }
}

/// Why a command got no reply.
#[derive(Clone, Copy, Debug, PartialEq, Eq, Structural)]
pub enum CommandError {
    /// The threshold given is no decimal numeral.
    InvalidNumber,
}

/// A reply of text alone.
pub open spec fn plain(text: Seq<char>) -> ReplyView {
    ReplyView { text: text, region_keyboard: false }
}

/// The words of a text so far, and the word that is still growing.
pub open spec fn words_so_far(s: Seq<char>) -> (Seq<Seq<char>>, Seq<char>)
    decreases s.len(),
{
    if s.len() == 0 {
        (Seq::empty(), Seq::empty())
    } else {
        let (done, word) = words_so_far(s.drop_last());
        if is_space(s.last()) {
            if word.len() > 0 {
                (done.push(word), Seq::empty())
            } else {
                (done, word)
            }
        } else {
            (done, word.push(s.last()))
        }
    }
}

/// The words of a text: its pieces between white space, none of them empty.
pub open spec fn words(s: Seq<char>) -> Seq<Seq<char>> {
    let (done, word) = words_so_far(s);
    if word.len() > 0 {
        done.push(word)
    } else {
        done
    }
}

/// The words of a list, as values.
pub open spec fn word_views(list: Seq<String>) -> Seq<Seq<char>> {
    Seq::new(list.len(), |i: int| list[i]@)
}

/// The words of a text.
pub fn split_words(s: &str) -> (r: Vec<String>)
    ensures
        word_views(r@) == words(s@),
{
    let text = chars_of(s);
    let chars = text.as_slice();
    let mut done: Vec<String> = Vec::new();
    let mut start: usize = 0;
    let mut i: usize = 0;
    assert(chars@.take(0) =~= Seq::<char>::empty());
    assert(word_views(done@) =~= Seq::<Seq<char>>::empty());
    assert(chars@.subrange(0, 0) =~= Seq::<char>::empty());
    while i < chars.len()
        invariant
            start <= i <= chars@.len(),
            chars@ == s@,
            words_so_far(chars@.take(i as int)) == (
                word_views(done@),
                chars@.subrange(start as int, i as int),
            ),
        decreases chars@.len() - i,
    {
        proof {
            let t = chars@.take(i + 1);
            assert(t.drop_last() =~= chars@.take(i as int));
            assert(t.last() == chars@[i as int]);
        }
        if is_space_char(chars[i]) {
            if i > start {
                let ghost held = word_views(done@);
                let w = text_of(chars, start, i);
                done.push(w);
                assert(word_views(done@) =~= held.push(chars@.subrange(start as int, i as int)));
            }
            start = i + 1;
            assert(chars@.subrange(start as int, start as int) =~= Seq::<char>::empty());
        } else {
            assert(chars@.subrange(start as int, i + 1) =~= chars@.subrange(
                start as int,
                i as int,
            ).push(chars@[i as int]));
        }
        i += 1;
    }
    assert(chars@.take(i as int) =~= chars@);
    if i > start {
        let ghost held = word_views(done@);
        let w = text_of(chars, start, i);
        done.push(w);
        assert(word_views(done@) =~= held.push(chars@.subrange(start as int, i as int)));
    }
    done
}

/// What `/alert` is asked to do.
#[derive(Clone, Copy, Debug, PartialEq, Eq, Structural)]
pub enum AlertRequest {
    /// `high` and a numeral, as it was read.
    High(Numeral),
    /// `low` and a numeral, as it was read.
    Low(Numeral),
    /// `off`.
    Off,
    /// `on`.
    On,
    /// `high` and a numeral of a number too large to be kept, or the name of
    /// a value that is no finite number.
    HighBeyond,
    /// `low` and a numeral of a number too large to be kept, or the name of
    /// a value that is no finite number.
    LowBeyond,
    /// Anything else: show the settings and the usage.
    Show,
    /// `high` or `low` and a word that is no numeral.
    Invalid,
}

/// What is read from a numeral whose millionths are `kept`.
pub open spec fn numeral_read(s: Seq<char>, kept: int) -> Numeral {
    Numeral { micros: kept as i64, more: decimal_more(s), negative: decimal_negative(s) }
}

/// The request that the words after `/alert` make. The threshold is a
/// decimal numeral, with or without an exponent. A number too large to be
/// kept and the name of a value that is no finite number lie beyond every
/// bound; any other word is no number.
pub open spec fn alert_request_of(parts: Seq<Seq<char>>) -> AlertRequest {
    if parts.len() == 2 && parts[0] == "high"@ {
        match decimal_micros(parts[1]) {
            Some(v) => AlertRequest::High(numeral_read(parts[1], v)),
            None => if decimal_form(parts[1]) || is_special_name(decimal_body(parts[1])) {
                AlertRequest::HighBeyond
            } else {
                AlertRequest::Invalid
            },
        }
    } else if parts.len() == 2 && parts[0] == "low"@ {
        match decimal_micros(parts[1]) {
            Some(v) => AlertRequest::Low(numeral_read(parts[1], v)),
            None => if decimal_form(parts[1]) || is_special_name(decimal_body(parts[1])) {
                AlertRequest::LowBeyond
            } else {
                AlertRequest::Invalid
            },
        }
    } else if parts.len() == 1 && parts[0] == "off"@ {
        AlertRequest::Off
    } else if parts.len() == 1 && parts[0] == "on"@ {
        AlertRequest::On
    } else {
        AlertRequest::Show
    }
}

/// Reads the words after `/alert`.
pub fn parse_alert_request(args: &str) -> (r: AlertRequest)
    ensures
        r == alert_request_of(words(args@)),
{
    let parts = split_words(args);
    assert(forall|i: int| 0 <= i < parts@.len() ==> word_views(parts@)[i] == parts@[i]@);
    if parts.len() == 2 && same_text(parts[0].as_str(), "high") {
        let value = chars_of(parts[1].as_str());
        match read_decimal(value.as_slice()) {
            Reading::Value(n) => AlertRequest::High(n),
            Reading::TooLarge => AlertRequest::HighBeyond,
            Reading::NotFinite => AlertRequest::HighBeyond,
            Reading::NoNumeral => AlertRequest::Invalid,
        }
    } else if parts.len() == 2 && same_text(parts[0].as_str(), "low") {
        let value = chars_of(parts[1].as_str());
        match read_decimal(value.as_slice()) {
            Reading::Value(n) => AlertRequest::Low(n),
            Reading::TooLarge => AlertRequest::LowBeyond,
            Reading::NotFinite => AlertRequest::LowBeyond,
            Reading::NoNumeral => AlertRequest::Invalid,
        }
    } else if parts.len() == 1 && same_text(parts[0].as_str(), "off") {
        AlertRequest::Off
    } else if parts.len() == 1 && same_text(parts[0].as_str(), "on") {
        AlertRequest::On
    } else {
        AlertRequest::Show
    }
}

/// Whether a request for a high threshold is granted: the number as
/// written lies between the bounds, and what is kept of it lies above the
/// user's low threshold.
pub open spec fn high_granted(u: UserView, n: Numeral) -> bool {
    n.lies_within(HIGH_ALERT_MIN as int, HIGH_ALERT_MAX as int) && n.micros > u.low_alert
}

/// Whether a request for a low threshold is granted: the number as written
/// lies between the bounds, and what is kept of it lies below the user's
/// high threshold.
pub open spec fn low_granted(u: UserView, n: Numeral) -> bool {
    n.lies_within(LOW_ALERT_MIN as int, LOW_ALERT_MAX as int) && n.micros < u.high_alert
}

/// The store after `/alert` from a chat: a granted threshold is set, `off`
/// and `on` pause and resume, and nothing else changes anything.
pub open spec fn alert_store(db: DbView, chat_id: int, request: AlertRequest, now: int) -> DbView {
    match db.get_user(chat_id) {
        None => db,
        Some(u) => match request {
            AlertRequest::High(n) => if high_granted(u, n) {
                db.update_high_alert(chat_id, n.micros as int, now)
            } else {
                db
            },
            AlertRequest::Low(n) => if low_granted(u, n) {
                db.update_low_alert(chat_id, n.micros as int, now)
            } else {
                db
            },
            AlertRequest::Off => db.set_active(chat_id, false, now),
            AlertRequest::On => db.set_active(chat_id, true, now),
            AlertRequest::HighBeyond => db,
            AlertRequest::LowBeyond => db,
            AlertRequest::Show => db,
            AlertRequest::Invalid => db,
        },
    }
}

/// `Active` or `Paused`.
pub open spec fn status_word(active: bool) -> Seq<char> {
    if active {
        "Active"@
    } else {
        "Paused"@
    }
}

/// The thresholds and the status of a user, as `/alert` shows them.
pub open spec fn settings_text(high: int, low: int, active: bool) -> Seq<char> {
    "\u{2022} High alert: $"@ + dollars_text(high) + "/MWh\n\u{2022} Low alert: $"@ + dollars_text(
        low,
    ) + "/MWh\n\u{2022} Status: "@ + status_word(active)
}

/// The confirmation of a new high threshold.
pub open spec fn high_updated_text(u: UserView, v: int) -> Seq<char> {
    "\u{2705} High price alert updated.\n\nYou'll be notified when "@ + region_display_text(
        u.region,
    ) + " spot price exceeds $"@ + dollars_text(v) + "/MWh.\nPrevious threshold: $"@
        + dollars_text(u.high_alert) + "/MWh\n\nCurrent settings:\n"@ + settings_text(
        v,
        u.low_alert,
        u.is_active,
    )
}

/// The confirmation of a new low threshold.
pub open spec fn low_updated_text(u: UserView, v: int) -> Seq<char> {
    "\u{2705} Low price alert updated.\n\nYou'll be notified when "@ + region_display_text(
        u.region,
    ) + " spot price drops below $"@ + dollars_text(v) + "/MWh.\nPrevious threshold: $"@
        + dollars_text(u.low_alert) + "/MWh\n\nCurrent settings:\n"@ + settings_text(
        u.high_alert,
        v,
        u.is_active,
    )
}

/// The settings of a user and the forms of `/alert`.
pub open spec fn usage_text(u: UserView) -> Seq<char> {
    "Your current settings:\n\u{2022} High alert: $"@ + dollars_text(u.high_alert)
        + "/MWh\n\u{2022} Low alert: $"@ + dollars_text(u.low_alert) + "/MWh\n\u{2022} Status: "@
        + (if u.is_active {
        "Active \u{2705}"@
    } else {
        "Paused \u{23f8}\u{fe0f}"@
    })
        + "\n\n\
         Usage:\n\
         /alert high <value> \u{2014} e.g. /alert high 200\n\
         /alert low <value> \u{2014} e.g. /alert low -20\n\
         /alert off \u{2014} Pause notifications\n\
         /alert on \u{2014} Resume notifications"@
}

/// What a chat without a region is told.
pub open spec fn no_region_text() -> Seq<char> {
    "Please use /start to set your region first."@
}

/// What `/alert` answers.
pub open spec fn alert_reply(db: DbView, chat_id: int, request: AlertRequest) -> Result<
    Seq<char>,
    CommandError,
> {
    match db.get_user(chat_id) {
        None => Ok(no_region_text()),
        Some(u) => match request {
            AlertRequest::Invalid => Err(CommandError::InvalidNumber),
            AlertRequest::High(n) => Ok(
                if !n.lies_within(HIGH_ALERT_MIN as int, HIGH_ALERT_MAX as int) {
                    "High alert must be between $50 and $15,000."@
                } else if n.micros <= u.low_alert {
                    "High alert ($"@ + dollars_text(n.micros as int)
                        + ") must be greater than your current low alert ($"@ + dollars_text(
                        u.low_alert,
                    ) + ").\nAdjust low alert first: /alert low <value>"@
                } else {
                    high_updated_text(u, n.micros as int)
                },
            ),
            AlertRequest::Low(n) => Ok(
                if !n.lies_within(LOW_ALERT_MIN as int, LOW_ALERT_MAX as int) {
                    "Low alert must be between -$1,000 and $50."@
                } else if n.micros >= u.high_alert {
                    "Low alert ($"@ + dollars_text(n.micros as int)
                        + ") must be less than your current high alert ($"@ + dollars_text(
                        u.high_alert,
                    ) + ").\nAdjust high alert first: /alert high <value>"@
                } else {
                    low_updated_text(u, n.micros as int)
                },
            ),
            AlertRequest::HighBeyond => Ok("High alert must be between $50 and $15,000."@),
            AlertRequest::LowBeyond => Ok("Low alert must be between -$1,000 and $50."@),
            AlertRequest::Off => Ok("\u{23f8}\u{fe0f} Alerts paused. Use /alert on to resume."@),
            AlertRequest::On => Ok("\u{25b6}\u{fe0f} Alerts resumed."@),
            AlertRequest::Show => Ok(usage_text(u)),
        },
    }
}

fn push_settings(s: &mut String, high: i64, low: i64, active: bool)
    ensures
        final(s)@ == old(s)@ + settings_text(high as int, low as int, active),
{
    let mut t = String::from_str("\u{2022} High alert: $");
    push_dollars(&mut t, high);
    t.append("/MWh\n\u{2022} Low alert: $");
    push_dollars(&mut t, low);
    t.append("/MWh\n\u{2022} Status: ");
    t.append(
        if active {
            "Active"
        } else {
            "Paused"
        },
    );
    s.append(t.as_str());
}

/// Serves `/alert` with a request that was read: thresholds are checked
/// against their bounds and against each other before they are set.
pub fn apply_alert_request(db: &mut Db, chat_id: i64, request: AlertRequest, now: i64) -> (r:
    Result<String, CommandError>)
    requires
        old(db).wf(),
    ensures
        final(db).wf(),
        final(db)@ == alert_store(old(db)@, chat_id as int, request, now as int),
        match r {
            Ok(text) => alert_reply(old(db)@, chat_id as int, request) == Ok::<
                Seq<char>,
                CommandError,
            >(text@),
            Err(e) => alert_reply(old(db)@, chat_id as int, request) == Err::<
                Seq<char>,
                CommandError,
            >(e),
        },
{
    let user = match db.get_user(chat_id) {
        Some(u) => u,
        None => {
            return Ok(String::from_str("Please use /start to set your region first."));
        },
    };
    match request {
        AlertRequest::Invalid => Err(CommandError::InvalidNumber),
        AlertRequest::High(n) => {
            let v = n.micros;
            if !n.within(HIGH_ALERT_MIN, HIGH_ALERT_MAX) {
                Ok(String::from_str("High alert must be between $50 and $15,000."))
            } else if v <= user.low_alert {
                let mut s = String::from_str("High alert ($");
                push_dollars(&mut s, v);
                s.append(") must be greater than your current low alert ($");
                push_dollars(&mut s, user.low_alert);
                s.append(").\nAdjust low alert first: /alert low <value>");
                Ok(s)
            } else {
                db.update_high_alert(chat_id, v, now);
                let mut s = String::from_str(
                    "\u{2705} High price alert updated.\n\nYou'll be notified when ",
                );
                s.append(region_display(user.region.as_str()));
                s.append(" spot price exceeds $");
                push_dollars(&mut s, v);
                s.append("/MWh.\nPrevious threshold: $");
                push_dollars(&mut s, user.high_alert);
                s.append("/MWh\n\nCurrent settings:\n");
                push_settings(&mut s, v, user.low_alert, user.is_active);
                Ok(s)
            }
        },
        AlertRequest::Low(n) => {
            let v = n.micros;
            if !n.within(LOW_ALERT_MIN, LOW_ALERT_MAX) {
                Ok(String::from_str("Low alert must be between -$1,000 and $50."))
            } else if v >= user.high_alert {
                let mut s = String::from_str("Low alert ($");
                push_dollars(&mut s, v);
                s.append(") must be less than your current high alert ($");
                push_dollars(&mut s, user.high_alert);
                s.append(").\nAdjust high alert first: /alert high <value>");
                Ok(s)
            } else {
                db.update_low_alert(chat_id, v, now);
                let mut s = String::from_str(
                    "\u{2705} Low price alert updated.\n\nYou'll be notified when ",
                );
                s.append(region_display(user.region.as_str()));
                s.append(" spot price drops below $");
                push_dollars(&mut s, v);
                s.append("/MWh.\nPrevious threshold: $");
                push_dollars(&mut s, user.low_alert);
                s.append("/MWh\n\nCurrent settings:\n");
                push_settings(&mut s, user.high_alert, v, user.is_active);
                Ok(s)
            }
        },
        AlertRequest::HighBeyond => Ok(
            String::from_str("High alert must be between $50 and $15,000."),
        ),
        AlertRequest::LowBeyond => Ok(
            String::from_str("Low alert must be between -$1,000 and $50."),
        ),
        AlertRequest::Off => {
            db.set_active(chat_id, false, now);
            Ok(String::from_str("\u{23f8}\u{fe0f} Alerts paused. Use /alert on to resume."))
        },
        AlertRequest::On => {
            db.set_active(chat_id, true, now);
            Ok(String::from_str("\u{25b6}\u{fe0f} Alerts resumed."))
        },
        AlertRequest::Show => {
            let mut s = String::from_str("Your current settings:\n\u{2022} High alert: $");
            push_dollars(&mut s, user.high_alert);
            s.append("/MWh\n\u{2022} Low alert: $");
            push_dollars(&mut s, user.low_alert);
            s.append("/MWh\n\u{2022} Status: ");
            s.append(
                if user.is_active {
                    "Active \u{2705}"
                } else {
                    "Paused \u{23f8}\u{fe0f}"
                },
            );
            s.append(
                "\n\n\
                 Usage:\n\
                 /alert high <value> \u{2014} e.g. /alert high 200\n\
                 /alert low <value> \u{2014} e.g. /alert low -20\n\
                 /alert off \u{2014} Pause notifications\n\
                 /alert on \u{2014} Resume notifications",
            );
            Ok(s)
        },
    }
}

/// Serves `/alert` with the words that came after it.
pub fn cmd_alert(db: &mut Db, chat_id: i64, args: &str, now: i64) -> (r: Result<
    String,
    CommandError,
>)
    requires
        old(db).wf(),
    ensures
        final(db).wf(),
        final(db)@ == alert_store(
            old(db)@,
            chat_id as int,
            alert_request_of(words(args@)),
            now as int,
        ),
        match r {
            Ok(text) => alert_reply(old(db)@, chat_id as int, alert_request_of(words(args@)))
                == Ok::<Seq<char>, CommandError>(text@),
            Err(e) => alert_reply(old(db)@, chat_id as int, alert_request_of(words(args@)))
                == Err::<Seq<char>, CommandError>(e),
        },
{
    apply_alert_request(db, chat_id, parse_alert_request(args), now)
}

/// What `/price` answers.
pub open spec fn price_reply(db: DbView, chat_id: int, now: Clock) -> Seq<char> {
    match db.get_user(chat_id) {
        None => no_region_text(),
        Some(u) => match db.latest_price(u.region) {
            None => "No price data available yet. Please try again shortly."@,
            Some((price, time)) => price_response_text(
                u.region,
                price,
                time,
                db.daily_range(u.region, date_text(now.local)),
                held_minutes(age_minutes(interval_instant(time), now.unix as int)),
            ),
        },
    }
}

/// Serves `/price`: the latest price of the user's region, its age, and the
/// range of the market day of `now`.
pub fn cmd_price(db: &Db, chat_id: i64, now: &Clock) -> (r: String)
    requires
        db.wf(),
        now.wf(),
    ensures
        r@ == price_reply(db@, chat_id as int, *now),
{
    let user = match db.get_user(chat_id) {
        Some(u) => u,
        None => {
            return String::from_str("Please use /start to set your region first.");
        },
    };
    let region = user.region.as_str();
    match db.get_latest_price(region) {
        None => String::from_str("No price data available yet. Please try again shortly."),
        Some((price, time)) => {
            let today = format_date(&now.local);
            let range = db.get_daily_range(region, today.as_str());
            let age = interval_age_minutes(time.as_str(), now.unix);
            format_price_response(region, price, time.as_str(), range, age)
        },
    }
}

/// What `/forecast` answers, given the market time at which its reach ends.
pub open spec fn forecast_reply(db: DbView, chat_id: int, now: Clock, until: Option<MarketTime>)
    -> Seq<char> {
    match db.get_user(chat_id) {
        None => no_region_text(),
        Some(u) => forecast_response_text(
            u.region,
            match until {
                Some(t) => db.forecasts(u.region, datetime_text(now.local), datetime_text(t)),
                None => Seq::empty(),
            },
        ),
    }
}

/// Serves `/forecast`: the forecasts of the user's region for the six hours
/// from `now`. Where the calendar does not reach that far, none.
pub fn cmd_forecast(db: &Db, chat_id: i64, now: &Clock) -> (r: String)
    requires
        db.wf(),
        now.wf(),
    ensures
        r@ == forecast_reply(
            db@,
            chat_id as int,
            *now,
            if now.unix + FORECAST_REACH_SECS <= i64::MAX {
                four_digit_year(brisbane_time(now.unix + FORECAST_REACH_SECS))
            } else {
                None
            },
        ),
{
    let user = match db.get_user(chat_id) {
        Some(u) => u,
        None => {
            return String::from_str("Please use /start to set your region first.");
        },
    };
    let region = user.region.as_str();
    let until = match now.unix.checked_add(FORECAST_REACH_SECS) {
        Some(t) => market_time(t),
        None => None,
    };
    match until {
        Some(t) => {
            let after = format_datetime(&now.local);
            let before = format_datetime(&t);
            let forecasts = db.get_forecasts(region, after.as_str(), before.as_str());
            format_forecast_response(region, forecasts.as_slice())
        },
        None => {
            let none: Vec<(String, i64)> = Vec::new();
            assert(crate::db::rows::entry_views(none@) =~= Seq::<(Seq<char>, int)>::empty());
            format_forecast_response(region, none.as_slice())
        },
    }
}

/// The day since which a user is a member: the date in UTC where the
/// calendar reaches, the Unix time otherwise.
pub open spec fn member_since_text(created_at: int) -> Seq<char> {
    match four_digit_year(utc_time(created_at)) {
        Some(t) => iso_date_text(t),
        None => int_text(created_at),
    }
}

/// What `/status` answers.
pub open spec fn status_reply(db: DbView, chat_id: int, now: int) -> Seq<char> {
    match db.get_user(chat_id) {
        None => no_region_text(),
        Some(u) => "\u{1f4cb} Your Settings\n\nRegion: "@ + region_display_text(u.region)
            + "\nHigh price alert: $"@ + dollars_text(u.high_alert) + "/MWh\nLow price alert: $"@
            + dollars_text(u.low_alert) + "/MWh\nAlerts: "@ + (if u.is_active {
            "Active \u{2705}"@
        } else {
            "Paused \u{23f8}\u{fe0f}"@
        }) + "\nMember since: "@ + member_since_text(u.created_at)
            + "\nAlerts received this week: "@ + nat_text(db.count_alerts_this_week(chat_id, now)),
    }
}

/// Serves `/status`: the user's settings and the alerts of the week.
pub fn cmd_status(db: &Db, chat_id: i64, now: i64) -> (r: String)
    requires
        db.wf(),
    ensures
        r@ == status_reply(db@, chat_id as int, now as int),
{
    let user = match db.get_user(chat_id) {
        Some(u) => u,
        None => {
            return String::from_str("Please use /start to set your region first.");
        },
    };
    let weekly = db.count_alerts_this_week(chat_id, now);
    let mut s = String::from_str("\u{1f4cb} Your Settings\n\nRegion: ");
    s.append(region_display(user.region.as_str()));
    s.append("\nHigh price alert: $");
    push_dollars(&mut s, user.high_alert);
    s.append("/MWh\nLow price alert: $");
    push_dollars(&mut s, user.low_alert);
    s.append("/MWh\nAlerts: ");
    s.append(
        if user.is_active {
            "Active \u{2705}"
        } else {
            "Paused \u{23f8}\u{fe0f}"
        },
    );
    s.append("\nMember since: ");
    match utc_date(user.created_at) {
        Some(d) => {
            s.append(d.as_str());
        },
        None => {
            let mut n = String::new();
            push_int(&mut n, user.created_at);
            assert(n@ =~= int_text(user.created_at as int));
            s.append(n.as_str());
        },
    }
    s.append("\nAlerts received this week: ");
    push_nat(&mut s, weekly as u64);
    s
}

/// What a command does to the store.
pub open spec fn command_store(db: DbView, chat_id: int, cmd: Command, now: int) -> DbView {
    match cmd {
        Command::Alert(args) => alert_store(db, chat_id, alert_request_of(words(args@)), now),
        _ => db,
    }
}

/// What a command answers, given the market time six hours after `now`.
pub open spec fn command_reply(
    db: DbView,
    chat_id: int,
    cmd: Command,
    now: Clock,
    until: Option<MarketTime>,
) -> Result<ReplyView, CommandError> {
    match cmd {
        Command::Start => Ok(ReplyView { text: welcome_text(), region_keyboard: true }),
        Command::Region => Ok(
            ReplyView { text: "Select your new region:"@, region_keyboard: true },
        ),
        Command::Help => Ok(plain(help_text())),
        Command::About => Ok(plain(about_text())),
        Command::Price => Ok(plain(price_reply(db, chat_id, now))),
        Command::Forecast => Ok(plain(forecast_reply(db, chat_id, now, until))),
        Command::Status => Ok(plain(status_reply(db, chat_id, now.unix as int))),
        Command::Alert(args) => match alert_reply(db, chat_id, alert_request_of(words(args@))) {
            Ok(text) => Ok(plain(text)),
            Err(e) => Err(e),
        },
    }
}

/// Serves a command from a chat: what to reply, and what the store holds
/// afterwards. Only `/alert` changes the store.
pub fn handle(db: &mut Db, chat_id: i64, cmd: &Command, now: &Clock) -> (r: Result<
    Reply,
    CommandError,
>)
    requires
        old(db).wf(),
        now.wf(),
    ensures
        final(db).wf(),
        final(db)@ == command_store(old(db)@, chat_id as int, *cmd, now.unix as int),
        match r {
            Ok(reply) => command_reply(
                old(db)@,
                chat_id as int,
                *cmd,
                *now,
                if now.unix + FORECAST_REACH_SECS <= i64::MAX {
                    four_digit_year(brisbane_time(now.unix + FORECAST_REACH_SECS))
                } else {
                    None
                },
            ) == Ok::<ReplyView, CommandError>(reply@),
            Err(e) => command_reply(
                old(db)@,
                chat_id as int,
                *cmd,
                *now,
                if now.unix + FORECAST_REACH_SECS <= i64::MAX {
                    four_digit_year(brisbane_time(now.unix + FORECAST_REACH_SECS))
                } else {
                    None
                },
            ) == Err::<ReplyView, CommandError>(e),
        },
{
    match cmd {
        Command::Start => Ok(
            Reply { text: String::from_str(welcome_message()), region_keyboard: true },
        ),
        Command::Region => Ok(
            Reply { text: String::from_str("Select your new region:"), region_keyboard: true },
        ),
        Command::Help => Ok(
            Reply { text: String::from_str(help_message()), region_keyboard: false },
        ),
        Command::About => Ok(
            Reply { text: String::from_str(about_message()), region_keyboard: false },
        ),
        Command::Price => Ok(Reply { text: cmd_price(db, chat_id, now), region_keyboard: false }),
        Command::Forecast => Ok(
            Reply { text: cmd_forecast(db, chat_id, now), region_keyboard: false },
        ),
        Command::Status => Ok(
            Reply { text: cmd_status(db, chat_id, now.unix), region_keyboard: false },
        ),
        Command::Alert(args) => match cmd_alert(db, chat_id, args.as_str(), now.unix) {
            Ok(text) => Ok(Reply { text, region_keyboard: false }),
            Err(e) => Err(e),
        },
    }
}

/// Every user's low threshold lies below the high threshold.
pub open spec fn thresholds_apart(db: DbView) -> bool {
    forall|i: int|
        0 <= i < db.users.len() ==> (#[trigger] db.users[i]).low_alert < db.users[i].high_alert
}

/// `/alert` keeps every user's low threshold below the high threshold,
/// whatever it is asked.
pub proof fn lemma_alert_keeps_thresholds_apart(
    db: DbView,
    chat_id: int,
    request: AlertRequest,
    now: int,
)
    requires
        db.wf(),
        thresholds_apart(db),
    ensures
        thresholds_apart(alert_store(db, chat_id, request, now)),
{
    let after = alert_store(db, chat_id, request, now);
    if db.has_user(chat_id) {
        let k = db.user_index(chat_id);
        assert(after.users.len() == db.users.len());
        assert forall|i: int| 0 <= i < after.users.len() implies (#[trigger] after.users[i]).low_alert
            < after.users[i].high_alert by {
            assert(db.users[i].low_alert < db.users[i].high_alert);
            assert(db.users[k].low_alert < db.users[k].high_alert);
        }
    }
}

/// The choice of a region keeps every user's low threshold below the high
/// threshold: a new user starts with the defaults, a known one keeps what
/// was set.
pub proof fn lemma_region_choice_keeps_thresholds_apart(
    db: DbView,
    chat_id: int,
    region: Seq<char>,
    now: int,
)
    requires
        db.wf(),
        thresholds_apart(db),
    ensures
        thresholds_apart(db.upsert_user(chat_id, region, now)),
{
    let after = db.upsert_user(chat_id, region, now);
    assert forall|i: int| 0 <= i < after.users.len() implies (#[trigger] after.users[i]).low_alert
        < after.users[i].high_alert by {
        if db.has_user(chat_id) {
            let k = db.user_index(chat_id);
            assert(db.users[i].low_alert < db.users[i].high_alert);
            assert(db.users[k].low_alert < db.users[k].high_alert);
        } else {
            if i < db.users.len() {
                assert(db.users[i].low_alert < db.users[i].high_alert);
            }
        }
    }
}

impl Clone for Reply {
    fn clone(&self) -> (r: Self)
        ensures
            r@ == self@,
    {
        Reply { text: self.text.clone(), region_keyboard: self.region_keyboard }
    }
}

impl Clone for Command {
    fn clone(&self) -> (r: Self)
        ensures
            r == *self,
    {
        match self {
            Command::Start => Command::Start,
            Command::Price => Command::Price,
            Command::Forecast => Command::Forecast,
            Command::Alert(args) => Command::Alert(args.clone()),
            Command::Status => Command::Status,
            Command::Region => Command::Region,
            Command::Help => Command::Help,
            Command::About => Command::About,
        }
    }
}

/// Every user's thresholds lie within their bounds: the high threshold
/// between 50 and 15000 dollars, the low between -1000 and 50.
pub open spec fn thresholds_in_bounds(db: DbView) -> bool {
    forall|i: int|
        0 <= i < db.users.len() ==> HIGH_ALERT_MIN <= (#[trigger] db.users[i]).high_alert
            <= HIGH_ALERT_MAX && LOW_ALERT_MIN <= db.users[i].low_alert <= LOW_ALERT_MAX
}

/// `/alert` keeps every user's thresholds within their bounds, whatever it
/// is asked.
pub proof fn lemma_alert_keeps_thresholds_in_bounds(
    db: DbView,
    chat_id: int,
    request: AlertRequest,
    now: int,
)
    requires
        db.wf(),
        thresholds_in_bounds(db),
    ensures
        thresholds_in_bounds(alert_store(db, chat_id, request, now)),
{
    let after = alert_store(db, chat_id, request, now);
    if db.has_user(chat_id) {
        let k = db.user_index(chat_id);
        assert(after.users.len() == db.users.len());
        assert forall|i: int| 0 <= i < after.users.len() implies HIGH_ALERT_MIN <= (
        #[trigger] after.users[i]).high_alert <= HIGH_ALERT_MAX && LOW_ALERT_MIN
            <= after.users[i].low_alert <= LOW_ALERT_MAX by {
            assert(HIGH_ALERT_MIN <= db.users[i].high_alert <= HIGH_ALERT_MAX);
            assert(HIGH_ALERT_MIN <= db.users[k].high_alert <= HIGH_ALERT_MAX);
        }
    }
}

/// The choice of a region keeps every user's thresholds within their
/// bounds: the defaults of a new user lie within them.
pub proof fn lemma_region_choice_keeps_thresholds_in_bounds(
    db: DbView,
    chat_id: int,
    region: Seq<char>,
    now: int,
)
    requires
        db.wf(),
        thresholds_in_bounds(db),
    ensures
        thresholds_in_bounds(db.upsert_user(chat_id, region, now)),
{
    let after = db.upsert_user(chat_id, region, now);
    assert forall|i: int| 0 <= i < after.users.len() implies HIGH_ALERT_MIN <= (
    #[trigger] after.users[i]).high_alert <= HIGH_ALERT_MAX && LOW_ALERT_MIN
        <= after.users[i].low_alert <= LOW_ALERT_MAX by {
        if db.has_user(chat_id) {
            let k = db.user_index(chat_id);
            assert(HIGH_ALERT_MIN <= db.users[i].high_alert <= HIGH_ALERT_MAX);
            assert(HIGH_ALERT_MIN <= db.users[k].high_alert <= HIGH_ALERT_MAX);
        } else {
            if i < db.users.len() {
                assert(HIGH_ALERT_MIN <= db.users[i].high_alert <= HIGH_ALERT_MAX);
            }
        }
    }
}

} // verus!
