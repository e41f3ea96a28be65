//! The rows of the four tables, and what each holds as a value.

use vstd::prelude::*;
use vstd::string::*;

verus! {

/// The high threshold of a new user: 150 dollars.
pub const DEFAULT_HIGH_ALERT: i64 = 150_000_000;

/// The low threshold of a new user: 0 dollars.
pub const DEFAULT_LOW_ALERT: i64 = 0;

/// Price rows and alert rows are kept for 90 days.
pub const HISTORY_RETENTION_SECS: i64 = 7_776_000;

/// Forecast rows are kept for 7 days.
pub const FORECAST_RETENTION_SECS: i64 = 604_800;

/// A subscriber.
#[derive(Debug)]
pub struct User {
    pub chat_id: i64,
    pub region: String,
    pub high_alert: i64,
    pub low_alert: i64,
    pub is_active: bool,
    pub created_at: i64,
    pub updated_at: i64,
}

/// A user as a value.
pub ghost struct UserView {
    pub chat_id: int,
    pub region: Seq<char>,
    pub high_alert: int,
    pub low_alert: int,
    pub is_active: bool,
    pub created_at: int,
    pub updated_at: int,
}

impl View for User {
    type V = UserView;

    open spec fn view(&self) -> UserView {
        UserView {
            chat_id: self.chat_id as int,
            region: self.region@,
            high_alert: self.high_alert as int,
            low_alert: self.low_alert as int,
            is_active: self.is_active,
            created_at: self.created_at as int,
            updated_at: self.updated_at as int,
        }
    }
}

impl Clone for User {
    fn clone(&self) -> (r: Self)
        ensures
            r@ == self@,
    {
        User {
            chat_id: self.chat_id,
            region: self.region.clone(),
            high_alert: self.high_alert,
            low_alert: self.low_alert,
            is_active: self.is_active,
            created_at: self.created_at,
            updated_at: self.updated_at,
        }
    }
}

/// One settled price of one region.
#[derive(Debug)]
pub struct PriceRow {
    pub region: String,
    pub interval_time: String,
    pub price: i64,
    pub fetched_at: i64,
}

/// A price row as a value.
pub ghost struct PriceView {
    pub region: Seq<char>,
    pub interval_time: Seq<char>,
    pub price: int,
    pub fetched_at: int,
}

impl View for PriceRow {
    type V = PriceView;

    open spec fn view(&self) -> PriceView {
        PriceView {
            region: self.region@,
            interval_time: self.interval_time@,
            price: self.price as int,
            fetched_at: self.fetched_at as int,
        }
    }
}

/// One forecast price of one region, as one publication gave it.
#[derive(Debug)]
pub struct ForecastRow {
    pub region: String,
    pub forecast_time: String,
    pub published_at: String,
    pub price: i64,
    pub fetched_at: i64,
}

/// A forecast row as a value.
pub ghost struct ForecastView {
    pub region: Seq<char>,
    pub forecast_time: Seq<char>,
    pub published_at: Seq<char>,
    pub price: int,
    pub fetched_at: int,
}

impl View for ForecastRow {
    type V = ForecastView;

    open spec fn view(&self) -> ForecastView {
        ForecastView {
            region: self.region@,
            forecast_time: self.forecast_time@,
            published_at: self.published_at@,
            price: self.price as int,
            fetched_at: self.fetched_at as int,
        }
    }
}

/// One alert that was delivered.
#[derive(Debug)]
pub struct AlertRow {
    pub chat_id: i64,
    pub alert_type: String,
    pub price: i64,
    pub region: String,
    pub sent_at: i64,
}

/// An alert row as a value.
pub ghost struct AlertView {
    pub chat_id: int,
    pub alert_type: Seq<char>,
    pub price: int,
    pub region: Seq<char>,
    pub sent_at: int,
}

impl View for AlertRow {
    type V = AlertView;

    open spec fn view(&self) -> AlertView {
        AlertView {
            chat_id: self.chat_id as int,
            alert_type: self.alert_type@,
            price: self.price as int,
            region: self.region@,
            sent_at: self.sent_at as int,
        }
    }
}

impl Clone for PriceRow {
    fn clone(&self) -> (r: Self)
        ensures
            r@ == self@,
    {
        PriceRow {
            region: self.region.clone(),
            interval_time: self.interval_time.clone(),
            price: self.price,
            fetched_at: self.fetched_at,
        }
    }
}

impl Clone for ForecastRow {
    fn clone(&self) -> (r: Self)
        ensures
            r@ == self@,
    {
        ForecastRow {
            region: self.region.clone(),
            forecast_time: self.forecast_time.clone(),
            published_at: self.published_at.clone(),
            price: self.price,
            fetched_at: self.fetched_at,
        }
    }
}

impl Clone for AlertRow {
    fn clone(&self) -> (r: Self)
        ensures
            r@ == self@,
    {
        AlertRow {
            chat_id: self.chat_id,
            alert_type: self.alert_type.clone(),
            price: self.price,
            region: self.region.clone(),
            sent_at: self.sent_at,
        }
    }
}

/// What a day's prices of one region come to.
#[derive(Clone, Copy, Debug, PartialEq, Eq, Structural)]
pub struct DailyStats {
    pub min_price: i64,
    pub max_price: i64,
    /// The sum of the prices over their number, rounded down.
    pub avg_price: i64,
    /// How many intervals of five minutes had a price below zero.
    pub negative_intervals: usize,
}

/// The users of a list, as values.
pub open spec fn user_views(rows: Seq<User>) -> Seq<UserView> {
    Seq::new(rows.len(), |i: int| rows[i]@)
}

/// The price rows of a list, as values.
pub open spec fn price_views(rows: Seq<PriceRow>) -> Seq<PriceView> {
    Seq::new(rows.len(), |i: int| rows[i]@)
}

/// The forecast rows of a list, as values.
pub open spec fn forecast_views(rows: Seq<ForecastRow>) -> Seq<ForecastView> {
    Seq::new(rows.len(), |i: int| rows[i]@)
}

/// The alert rows of a list, as values.
pub open spec fn alert_views(rows: Seq<AlertRow>) -> Seq<AlertView> {
    Seq::new(rows.len(), |i: int| rows[i]@)
}

/// The forecasts that `get_forecasts` hands out, as values.
pub open spec fn entry_views(entries: Seq<(String, i64)>) -> Seq<(Seq<char>, int)> {
    Seq::new(entries.len(), |i: int| (entries[i].0@, entries[i].1 as int))
}
} // verus!
