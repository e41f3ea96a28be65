//! When to fetch, what a fetch came to, and what to do with what it brought.
//!
//! The loops that sleep, fetch and send are the caller's. Each decision that
//! they take between two such steps is a function here.

use vstd::prelude::*;
use vstd::string::*;
use crate::bot::messages::{daily_summary_text, format_daily_summary};
use crate::clock::{
    brisbane_time,
    clock_text,
    date_display_text,
    date_text,
    datetime_text,
    format_date,
    format_date_display,
    format_datetime,
    four_digit_year,
    Clock,
    MarketTime,
};
use crate::data::parser::{
    forecast_record_views,
    price_record_views,
    ForecastRecord,
    ForecastRecordView,
    PriceRecord,
    PriceRecordView,
};
use crate::data::weather::{WeatherForecast, WeatherForecastView};
use crate::db::model::DbView;
use crate::db::repository::Db;
use crate::db::rows::{user_views, UserView};
use crate::engine::analyzer::{
    analysis,
    analyze,
    analyze_forecasts,
    forecast_round,
    pending_views,
    PendingAlert,
    PendingAlertView,
};
use crate::text::same_text;

verus! {

/// Prices are published for intervals of five minutes.
pub const PRICE_PERIOD_SECS: u32 = 300;

/// Forecasts are published every half hour.
pub const FORECAST_PERIOD_SECS: u32 = 1800;

/// The publisher needs about this long after an interval has ended.
pub const PUBLISH_LAG_SECS: u32 = 90;

/// A slot is tried this many times while the data is stale.
pub const SLOT_ATTEMPTS: u32 = 5;

/// The wait between two tries of a slot.
pub const STALE_WAIT_SECS: u64 = 15;

/// The hour of the market day at which the daily summary goes out.
pub const SUMMARY_HOUR: u32 = 21;

/// The five regions of the market, in the order in which they are served.
pub fn market_regions() -> (r: Vec<&'static str>)
    ensures
        r@.len() == 5,
        r@[0]@ == "NSW1"@,
        r@[1]@ == "VIC1"@,
        r@[2]@ == "QLD1"@,
        r@[3]@ == "SA1"@,
        r@[4]@ == "TAS1"@,
{
    let mut r: Vec<&'static str> = Vec::new();
    r.push("NSW1");
    r.push("VIC1");
    r.push("QLD1");
    r.push("SA1");
    r.push("TAS1");
    r
}

/// The seconds from `minute:second` of an hour to the next instant that lies
/// `PUBLISH_LAG_SECS` past a multiple of `period` seconds.
fn wait_until_next_slot(minute: u32, second: u32, period: u32) -> (wait: u64)
    requires
        minute <= 59,
        second <= 59,
        period == PRICE_PERIOD_SECS || period == FORECAST_PERIOD_SECS,
    ensures
        1 <= wait <= period,
        (minute * 60 + second + wait) % (period as int) == PUBLISH_LAG_SECS,
{
    let current: u32 = minute * 60 + second;
    let target: u32 = (current / period) * period + PUBLISH_LAG_SECS;
    let wait: u32 = if target > current {
        target - current
    } else {
        target + period - current
    };
    wait as u64
}

/// The seconds to wait until the next price fetch is due: the next instant
/// that lies a minute and a half past a boundary of five minutes. At such an
/// instant the wait is the whole five minutes.
pub fn wait_until_next_price_slot(now: &MarketTime) -> (wait: u64)
    requires
        now.wf(),
    ensures
        1 <= wait <= 300,
        (now.minute * 60 + now.second + wait) % 300 == 90,
{
    wait_until_next_slot(now.minute, now.second, PRICE_PERIOD_SECS)
}

/// The seconds to wait until the next forecast fetch is due: the next
/// instant that lies a minute and a half past a boundary of half an hour.
pub fn wait_until_next_forecast_slot(now: &MarketTime) -> (wait: u64)
    requires
        now.wf(),
    ensures
        1 <= wait <= 1800,
        (now.minute * 60 + now.second + wait) % 1800 == 90,
{
    wait_until_next_slot(now.minute, now.second, FORECAST_PERIOD_SECS)
}

/// The interval time that the prices of the current slot carry: the latest
/// boundary of five minutes at or before `now`.
pub open spec fn settlement_text(now: MarketTime) -> Seq<char> {
    date_text(now) + seq![' '] + clock_text(
        now.hour as int,
        now.minute - now.minute % 5,
        0,
    )
}

/// The interval time that the publisher gives the interval that has just
/// ended: at 14:01:30 it is `14:00:00` of the day.
pub fn expected_settlement_time(now: &MarketTime) -> (r: String)
    requires
        now.wf(),
    ensures
        r@ == settlement_text(*now),
{
    let base = MarketTime {
        year: now.year,
        month: now.month,
        day: now.day,
        hour: now.hour,
        minute: now.minute - now.minute % 5,
        second: 0,
    };
    let r = format_datetime(&base);
    assert(date_text(base) == date_text(*now));
    r
}

/// What a fetch for a slot came to.
#[derive(Clone, Copy, Debug, PartialEq, Eq, Structural)]
pub enum FetchResult {
    /// The prices of the expected interval came and were taken in.
    Success,
    /// Prices came, none of them of the expected interval.
    Stale,
    /// Nothing came.
    Error,
}

/// Whether one of the records carries this interval time.
pub open spec fn has_interval(prices: Seq<PriceRecordView>, expected: Seq<char>) -> bool {
    exists|i: int| 0 <= i < prices.len() && prices[i].interval_time == expected
}

/// What a fetch came to, by what it brought: an error where it brought
/// nothing, stale where no record is of the expected interval.
pub open spec fn fetch_outcome(fetched: Option<Seq<PriceRecordView>>, expected: Seq<char>)
    -> FetchResult {
    match fetched {
        None => FetchResult::Error,
        Some(prices) => if has_interval(prices, expected) {
            FetchResult::Success
        } else {
            FetchResult::Stale
        },
    }
}

/// Whether one of the records carries this interval time.
pub fn carries_interval(prices: &[PriceRecord], expected_time: &str) -> (r: bool)
    ensures
        r == has_interval(price_record_views(prices@), expected_time@),
{
    let mut i: usize = 0;
    while i < prices.len()
        invariant
            i <= prices@.len(),
            forall|k: int|
                0 <= k < i ==> price_record_views(prices@)[k].interval_time != expected_time@,
        decreases prices@.len() - i,
    {
        if same_text(prices[i].interval_time.as_str(), expected_time) {
            assert(price_record_views(prices@)[i as int].interval_time == expected_time@);
            return true;
        }
        i += 1;
    }
    false
}

/// What a fetch brought, as values.
pub open spec fn fetched_views(fetched: Option<Vec<PriceRecord>>) -> Option<Seq<PriceRecordView>> {
    match fetched {
        Some(p) => Some(price_record_views(p@)),
        None => None,
    }
}

/// Judges what a fetch for the slot of `expected_time` brought.
pub fn judge_fetch(fetched: &Option<Vec<PriceRecord>>, expected_time: &str) -> (r: FetchResult)
    ensures
        r == fetch_outcome(fetched_views(*fetched), expected_time@),
{
    match fetched {
        None => FetchResult::Error,
        Some(prices) => {
            if carries_interval(prices.as_slice(), expected_time) {
                FetchResult::Success
            } else {
                FetchResult::Stale
            }
        },
    }
}

/// What the price loop does after a try of a slot.
#[derive(Clone, Copy, Debug, PartialEq, Eq, Structural)]
pub enum SlotStep {
    /// The slot is served.
    Done,
    /// Wait this many seconds, then fetch again.
    Retry { wait_secs: u64 },
    /// The slot is given up, with a warning; the next slot is tried anew.
    Abandon,
}

/// What follows the try number `attempt` (the first is 0) of a slot:
/// success ends the slot, an error gives it up at once, and stale data is
/// fetched again after a quarter of a minute until five tries are used up.
pub fn price_slot_step(attempt: u32, result: FetchResult) -> (r: SlotStep)
    ensures
        r == match result {
            FetchResult::Success => SlotStep::Done,
            FetchResult::Error => SlotStep::Abandon,
            FetchResult::Stale => if attempt + 1 < SLOT_ATTEMPTS {
                SlotStep::Retry { wait_secs: STALE_WAIT_SECS }
            } else {
                SlotStep::Abandon
            },
        },
{
    match result {
        FetchResult::Success => SlotStep::Done,
        FetchResult::Error => SlotStep::Abandon,
        FetchResult::Stale => {
            if attempt < SLOT_ATTEMPTS - 1 {
                SlotStep::Retry { wait_secs: STALE_WAIT_SECS }
            } else {
                SlotStep::Abandon
            }
        },
    }
}

/// The store after the prices were written to it, one by one in their order.
pub open spec fn with_prices(db: DbView, prices: Seq<PriceRecordView>, now: int) -> DbView
    decreases prices.len(),
{
    if prices.len() == 0 {
        db
    } else {
        with_prices(db, prices.drop_last(), now).insert_price(
            prices.last().region,
            prices.last().price,
            prices.last().interval_time,
            now,
        )
    }
}

/// Takes new prices in: writes all of them to the store, then works out the
/// alerts that they call for against the store that holds them. The alerts
/// are for the caller to send.
pub fn process_prices(db: &mut Db, prices: &[PriceRecord], now: &Clock) -> (alerts: Vec<
    PendingAlert,
>)
    requires
        old(db).wf(),
        now.wf(),
    ensures
        final(db).wf(),
        final(db)@ == with_prices(old(db)@, price_record_views(prices@), now.unix as int),
        pending_views(alerts@) == analysis(
            final(db)@,
            price_record_views(prices@),
            date_text(now.local),
            now.unix as int,
        ),
        prices@.len() == 0 ==> final(db)@ == old(db)@ && alerts@.len() == 0,
{
    let ghost recs = price_record_views(prices@);
    let mut i: usize = 0;
    assert(recs.take(0) =~= Seq::<PriceRecordView>::empty());
    while i < prices.len()
        invariant
            i <= prices@.len(),
            recs == price_record_views(prices@),
            db.wf(),
            db@ == with_prices(old(db)@, recs.take(i as int), now.unix as int),
        decreases prices@.len() - i,
    {
        proof {
            let t = recs.take(i + 1);
            assert(t.drop_last() =~= recs.take(i as int));
            assert(t.last() == prices@[i as int]@);
        }
        let p = &prices[i];
        db.insert_price(p.region.as_str(), p.price, p.interval_time.as_str(), now.unix);
        i += 1;
    }
    assert(recs.take(i as int) =~= recs);
    analyze(db, prices, now)
}

/// The store after a fetch for a slot: with the prices written to it where
/// the fetch succeeded, and as it was where the data is stale or nothing
/// came.
pub open spec fn after_fetch(
    db: DbView,
    fetched: Option<Seq<PriceRecordView>>,
    expected: Seq<char>,
    now: int,
) -> DbView {
    match fetched {
        Some(prices) => if has_interval(prices, expected) {
            with_prices(db, prices, now)
        } else {
            db
        },
        None => db,
    }
}

/// The alerts that a fetch for a slot calls for: those of its prices where
/// it succeeded, and none where the data is stale or nothing came.
pub open spec fn fetch_alerts(
    db: DbView,
    fetched: Option<Seq<PriceRecordView>>,
    expected: Seq<char>,
    now: Clock,
) -> Seq<PendingAlertView> {
    match fetched {
        Some(prices) => if has_interval(prices, expected) {
            analysis(
                with_prices(db, prices, now.unix as int),
                prices,
                date_text(now.local),
                now.unix as int,
            )
        } else {
            Seq::empty()
        },
        None => Seq::empty(),
    }
}

/// Serves a fetch for the slot of `expected_time`: judges what it brought,
/// and takes the prices in only where one of them is of the expected
/// interval. Stale data and a failed fetch leave the store as it was and
/// call for no alert.
pub fn price_fetch_checked(
    db: &mut Db,
    fetched: &Option<Vec<PriceRecord>>,
    expected_time: &str,
    now: &Clock,
) -> (r: (FetchResult, Vec<PendingAlert>))
    requires
        old(db).wf(),
        now.wf(),
    ensures
        final(db).wf(),
        r.0 == fetch_outcome(fetched_views(*fetched), expected_time@),
        final(db)@ == after_fetch(
            old(db)@,
            fetched_views(*fetched),
            expected_time@,
            now.unix as int,
        ),
        pending_views(r.1@) == fetch_alerts(
            old(db)@,
            fetched_views(*fetched),
            expected_time@,
            *now,
        ),
        r.0 != FetchResult::Success ==> final(db)@ == old(db)@ && r.1@.len() == 0,
{
    match fetched {
        None => {
            let none: Vec<PendingAlert> = Vec::new();
            assert(pending_views(none@) =~= Seq::<PendingAlertView>::empty());
            (FetchResult::Error, none)
        },
        Some(prices) => {
            if carries_interval(prices.as_slice(), expected_time) {
                let alerts = process_prices(db, prices.as_slice(), now);
                (FetchResult::Success, alerts)
            } else {
                let none: Vec<PendingAlert> = Vec::new();
                assert(pending_views(none@) =~= Seq::<PendingAlertView>::empty());
                (FetchResult::Stale, none)
            }
        },
    }
}

/// The price that stands for a region in a batch: that of the first record
/// of the region, and zero where the batch has none.
pub open spec fn region_price(prices: Seq<PriceRecordView>, region: Seq<char>) -> int
    decreases prices.len(),
{
    if prices.len() == 0 {
        0
    } else if prices[0].region == region {
        prices[0].price
    } else {
        region_price(prices.drop_first(), region)
    }
}

/// The price that stands for a region in a batch.
pub fn current_price(prices: &[PriceRecord], region: &str) -> (r: i64)
    ensures
        r == region_price(price_record_views(prices@), region@),
{
    let ghost recs = price_record_views(prices@);
    let mut i: usize = 0;
    assert(recs.skip(0) =~= recs);
    while i < prices.len()
        invariant
            i <= prices@.len(),
            recs == price_record_views(prices@),
            region_price(recs, region@) == region_price(recs.skip(i as int), region@),
        decreases prices@.len() - i,
    {
        proof {
            let t = recs.skip(i as int);
            assert(t[0] == prices@[i as int]@);
            assert(t.drop_first() =~= recs.skip(i + 1));
        }
        if same_text(prices[i].region.as_str(), region) {
            return prices[i].price;
        }
        i += 1;
    }
    0
}

/// The forecast warnings for one region after a batch of prices was taken
/// in, with the batch's price of the region as the current price.
pub fn region_forecast_alerts(db: &Db, prices: &[PriceRecord], region: &str, now: &Clock) -> (alerts:
    Vec<PendingAlert>)
    requires
        now.wf(),
    ensures
        pending_views(alerts@) == forecast_round(
            db@,
            region@,
            region_price(price_record_views(prices@), region@),
            *now,
            if now.unix + 3600 <= i64::MAX {
                four_digit_year(brisbane_time(now.unix + 3600))
            } else {
                None
            },
        ),
{
    analyze_forecasts(db, region, current_price(prices, region), now)
}

/// The store after the forecasts of one publication were written to it, one
/// by one in their order.
pub open spec fn with_forecasts(
    db: DbView,
    forecasts: Seq<ForecastRecordView>,
    published_at: Seq<char>,
    now: int,
) -> DbView
    decreases forecasts.len(),
{
    if forecasts.len() == 0 {
        db
    } else {
        with_forecasts(db, forecasts.drop_last(), published_at, now).insert_forecast(
            forecasts.last().region,
            forecasts.last().forecast_time,
            forecasts.last().price,
            published_at,
            now,
        )
    }
}

/// Takes fetched forecasts in: writes each to the store as published at the
/// market time of `now`.
pub fn forecast_fetch(db: &mut Db, forecasts: &[ForecastRecord], now: &Clock)
    requires
        old(db).wf(),
        now.wf(),
    ensures
        final(db).wf(),
        final(db)@ == with_forecasts(
            old(db)@,
            forecast_record_views(forecasts@),
            datetime_text(now.local),
            now.unix as int,
        ),
{
    let published_at = format_datetime(&now.local);
    let ghost recs = forecast_record_views(forecasts@);
    let mut i: usize = 0;
    assert(recs.take(0) =~= Seq::<ForecastRecordView>::empty());
    while i < forecasts.len()
        invariant
            i <= forecasts@.len(),
            recs == forecast_record_views(forecasts@),
            published_at@ == datetime_text(now.local),
            db.wf(),
            db@ == with_forecasts(old(db)@, recs.take(i as int), published_at@, now.unix as int),
        decreases forecasts@.len() - i,
    {
        proof {
            let t = recs.take(i + 1);
            assert(t.drop_last() =~= recs.take(i as int));
            assert(t.last() == forecasts@[i as int]@);
        }
        let f = &forecasts[i];
        db.insert_forecast(
            f.region.as_str(),
            f.forecast_time.as_str(),
            f.price,
            published_at.as_str(),
            now.unix,
        );
        i += 1;
    }
    assert(recs.take(i as int) =~= recs);
}

/// Whether the daily summary of the market day went out.
#[derive(Clone, Copy, Debug, PartialEq, Eq, Structural)]
pub struct SummaryTrigger {
    pub sent_today: bool,
}

impl SummaryTrigger {
    /// The state after a tick at this hour of the market day: the summary
    /// counts as sent from its hour on, until the hour after midnight.
    pub open spec fn after(self, hour: int) -> SummaryTrigger {
        SummaryTrigger {
            sent_today: if hour == 0 {
                false
            } else if hour == SUMMARY_HOUR {
                true
            } else {
                self.sent_today
            },
        }
    }

    /// A trigger that has sent nothing yet.
    pub fn new() -> (t: SummaryTrigger)
        ensures
            !t.sent_today,
    {
        SummaryTrigger { sent_today: false }
    }

    /// One tick of the minute: says whether the daily summary is to go out
    /// now. It is at the first tick of the summary hour, and at no other tick
    /// of the day.
    pub fn tick(&mut self, hour: u32) -> (run: bool)
        ensures
            run == (hour == SUMMARY_HOUR && !old(self).sent_today),
            *final(self) == old(self).after(hour as int),
    {
        let run = hour == SUMMARY_HOUR && !self.sent_today;
        if run {
            self.sent_today = true;
        }
        if hour == 0 {
            self.sent_today = false;
        }
        run
    }
}

/// The messages of a list, as values.
pub open spec fn message_views(messages: Seq<(i64, String)>) -> Seq<(int, Seq<char>)> {
    Seq::new(messages.len(), |i: int| (messages[i].0 as int, messages[i].1@))
}

/// The outlook as a value, where there is one.
pub open spec fn weather_view(weather: Option<&WeatherForecast>) -> Option<WeatherForecastView> {
    match weather {
        Some(w) => Some(w@),
        None => None,
    }
}

/// The daily summary for one user of a region.
pub open spec fn user_summary(
    db: DbView,
    u: UserView,
    region: Seq<char>,
    weather: Option<WeatherForecastView>,
    now: Clock,
) -> (int, Seq<char>) {
    (
        u.chat_id,
        daily_summary_text(
            region,
            date_display_text(now.local),
            db.daily_stats(region, date_text(now.local)),
            db.daily_peak_time(region, date_text(now.local)),
            weather,
            db.count_alerts_last_24h(u.chat_id, now.unix as int),
        ),
    )
}

/// The daily summaries for `users`, in their order.
pub open spec fn summaries_for(
    db: DbView,
    users: Seq<UserView>,
    region: Seq<char>,
    weather: Option<WeatherForecastView>,
    now: Clock,
) -> Seq<(int, Seq<char>)>
    decreases users.len(),
{
    if users.len() == 0 {
        Seq::empty()
    } else {
        summaries_for(db, users.drop_last(), region, weather, now).push(
            user_summary(db, users.last(), region, weather, now),
        )
    }
}

/// The daily summaries of a region: one message for each of its active
/// users, with the chat it goes to. The day is the market day of `now`.
pub fn daily_summary_messages(
    db: &Db,
    region: &str,
    weather: Option<&WeatherForecast>,
    now: &Clock,
) -> (messages: Vec<(i64, String)>)
    requires
        now.wf(),
    ensures
        message_views(messages@) == summaries_for(
            db@,
            db@.active_users_by_region(region@),
            region@,
            weather_view(weather),
            *now,
        ),
{
    let date_prefix = format_date(&now.local);
    let date_display = format_date_display(&now.local);
    let stats = db.get_daily_stats(region, date_prefix.as_str());
    let peak_time = db.get_daily_peak_time(region, date_prefix.as_str());
    let users = db.get_active_users_by_region(region);
    let ghost all = user_views(users@);
    let mut out: Vec<(i64, String)> = Vec::new();
    let mut i: usize = 0;
    assert(all.take(0) =~= Seq::<UserView>::empty());
    assert(message_views(out@) =~= Seq::<(int, Seq<char>)>::empty());
    while i < users.len()
        invariant
            i <= users@.len(),
            now.wf(),
            all == user_views(users@),
            date_prefix@ == date_text(now.local),
            date_display@ == date_display_text(now.local),
            stats == db@.daily_stats(region@, date_prefix@),
            match peak_time {
                Some(t) => db@.daily_peak_time(region@, date_prefix@) == Some(t@),
                None => db@.daily_peak_time(region@, date_prefix@) is None,
            },
            message_views(out@) == summaries_for(
                db@,
                all.take(i as int),
                region@,
                weather_view(weather),
                *now,
            ),
        decreases users@.len() - i,
    {
        proof {
            let t = all.take(i + 1);
            assert(t.drop_last() =~= all.take(i as int));
            assert(t.last() == users@[i as int]@);
        }
        let u = &users[i];
        let alerts_today = db.count_alerts_last_24h(u.chat_id, now.unix);
        let text = format_daily_summary(
            region,
            date_display.as_str(),
            match &stats {
                Some(st) => Some(st),
                None => None,
            },
            match &peak_time {
                Some(t) => Some(t.as_str()),
                None => None,
            },
            weather,
            alerts_today,
        );
        let ghost held = message_views(out@);
        out.push((u.chat_id, text));
        assert(message_views(out@) =~= held.push(
            user_summary(db@, u@, region@, weather_view(weather), *now),
        ));
        i += 1;
    }
    assert(all.take(i as int) =~= all);
    out
}

/// Once the summary went out, no tick sends it again before a tick of the
/// hour after midnight.
pub proof fn lemma_summary_once_a_day(t: SummaryTrigger, hour: int)
    requires
        t.sent_today,
        hour != 0,
    ensures
        t.after(hour).sent_today,
        !(hour == SUMMARY_HOUR && !t.sent_today),
{
}

/// After a tick at the summary hour the summary counts as sent, whether
/// that tick sent it or an earlier one.
pub proof fn lemma_summary_hour_marks_sent(t: SummaryTrigger)
    ensures
        t.after(SUMMARY_HOUR as int).sent_today,
        !t.after(0).sent_today,
{
}

/// Writing a batch of prices keeps what the store held, in its place.
proof fn lemma_with_prices_keeps_rows(db: DbView, prices: Seq<PriceRecordView>, now: int)
    ensures
        with_prices(db, prices, now).prices.len() >= db.prices.len(),
        forall|i: int|
            0 <= i < db.prices.len() ==> with_prices(db, prices, now).prices[i] == db.prices[i],
        with_prices(db, prices, now).users == db.users,
        with_prices(db, prices, now).forecasts == db.forecasts,
        with_prices(db, prices, now).alerts == db.alerts,
    decreases prices.len(),
{
    if prices.len() > 0 {
        lemma_with_prices_keeps_rows(db, prices.drop_last(), now);
    }
}

/// After a batch of prices was taken in, the store holds a price for the
/// region and interval of every record of the batch, and a batch changes
/// nothing but the price history.
pub proof fn lemma_with_prices_holds_the_batch(
    db: DbView,
    prices: Seq<PriceRecordView>,
    now: int,
)
    ensures
        forall|k: int|
            0 <= k < prices.len() ==> with_prices(db, prices, now).has_price(
                (#[trigger] prices[k]).region,
                prices[k].interval_time,
            ),
        with_prices(db, prices, now).users == db.users,
        with_prices(db, prices, now).forecasts == db.forecasts,
        with_prices(db, prices, now).alerts == db.alerts,
    decreases prices.len(),
{
    lemma_with_prices_keeps_rows(db, prices, now);
    if prices.len() > 0 {
        let rest = prices.drop_last();
        let last = prices.last();
        let mid = with_prices(db, rest, now);
        let all = with_prices(db, prices, now);
        lemma_with_prices_holds_the_batch(db, rest, now);
        assert forall|k: int| 0 <= k < prices.len() implies all.has_price(
            (#[trigger] prices[k]).region,
            prices[k].interval_time,
        ) by {
            if k < prices.len() - 1 {
                assert(prices[k] == rest[k]);
                let i = choose|i: int|
                    0 <= i < mid.prices.len() && mid.prices[i].region == rest[k].region
                        && mid.prices[i].interval_time == rest[k].interval_time;
                assert(all.prices[i] == mid.prices[i]);
            } else {
                if !mid.has_price(last.region, last.interval_time) {
                    let n = mid.prices.len() as int;
                    assert(all.prices[n].region == last.region);
                }
            }
        }
    }
}

} // verus!
