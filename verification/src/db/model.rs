//! The store as a value, and what its operations do to it and read from it.
//!
//! A `DbView` holds the rows of the four tables in the order in which they
//! were written. Times are Unix seconds, prices are millionths of a dollar.

use vstd::prelude::*;
use crate::db::rows::{
    AlertView,
    DailyStats,
    ForecastView,
    PriceView,
    UserView,
    DEFAULT_HIGH_ALERT,
    DEFAULT_LOW_ALERT,
    FORECAST_RETENTION_SECS,
    HISTORY_RETENTION_SECS,
};
use crate::text::{has_prefix, lemma_text_lt_irreflexive, lemma_text_lt_transitive, text_lt};

verus! {

/// The store as a value: its rows, in the order in which they were written.
pub ghost struct DbView {
    pub users: Seq<UserView>,
    pub prices: Seq<PriceView>,
    pub forecasts: Seq<ForecastView>,
    pub alerts: Seq<AlertView>,
}

impl DbView {
    /// No chat has two users, no region two prices for one interval, and no
    /// region two forecasts for one time from one publication.
    pub open spec fn wf(self) -> bool {
        &&& forall|i: int, j: int|
            0 <= i < j < self.users.len() ==> self.users[i].chat_id != self.users[j].chat_id
        &&& forall|i: int, j: int|
            0 <= i < j < self.prices.len() ==> !(self.prices[i].region == self.prices[j].region
                && self.prices[i].interval_time == self.prices[j].interval_time)
        &&& forall|i: int, j: int|
            0 <= i < j < self.forecasts.len() ==> !(self.forecasts[i].region
                == self.forecasts[j].region && self.forecasts[i].forecast_time
                == self.forecasts[j].forecast_time && self.forecasts[i].published_at
                == self.forecasts[j].published_at)
    }

    /// Whether a user with this chat is stored.
    pub open spec fn has_user(self, chat_id: int) -> bool {
        exists|i: int| 0 <= i < self.users.len() && self.users[i].chat_id == chat_id
    }

    /// Where the user with this chat is stored.
    pub open spec fn user_index(self, chat_id: int) -> int {
        choose|i: int| 0 <= i < self.users.len() && self.users[i].chat_id == chat_id
    }

    /// The user with this chat, if one is stored.
    pub open spec fn get_user(self, chat_id: int) -> Option<UserView> {
        if self.has_user(chat_id) {
            Some(self.users[self.user_index(chat_id)])
        } else {
            None
        }
    }

    /// The store with the user of this chat replaced by `u`.
    pub open spec fn with_user(self, chat_id: int, u: UserView) -> DbView {
        DbView { users: self.users.update(self.user_index(chat_id), u), ..self }
    }

    /// A new user gets the default thresholds and is active; a known one
    /// changes region and keeps everything else.
    pub open spec fn upsert_user(self, chat_id: int, region: Seq<char>, now: int) -> DbView {
        match self.get_user(chat_id) {
            Some(u) => self.with_user(chat_id, UserView { region: region, updated_at: now, ..u }),
            None => DbView {
                users: self.users.push(
                    UserView {
                        chat_id: chat_id,
                        region: region,
                        high_alert: DEFAULT_HIGH_ALERT as int,
                        low_alert: DEFAULT_LOW_ALERT as int,
                        is_active: true,
                        created_at: now,
                        updated_at: now,
                    },
                ),
                ..self
            },
        }
    }

    /// The store with the high threshold of a stored user set; an unknown chat
    /// changes nothing.
    pub open spec fn update_high_alert(self, chat_id: int, value: int, now: int) -> DbView {
        match self.get_user(chat_id) {
            Some(u) => self.with_user(
                chat_id,
                UserView { high_alert: value, updated_at: now, ..u },
            ),
            None => self,
        }
    }

    /// The store with the low threshold of a stored user set; an unknown chat
    /// changes nothing.
    pub open spec fn update_low_alert(self, chat_id: int, value: int, now: int) -> DbView {
        match self.get_user(chat_id) {
            Some(u) => self.with_user(
                chat_id,
                UserView { low_alert: value, updated_at: now, ..u },
            ),
            None => self,
        }
    }

    /// The store with the alerts of a stored user paused or resumed; an unknown
    /// chat changes nothing.
    pub open spec fn set_active(self, chat_id: int, active: bool, now: int) -> DbView {
        match self.get_user(chat_id) {
            Some(u) => self.with_user(
                chat_id,
                UserView { is_active: active, updated_at: now, ..u },
            ),
            None => self,
        }
    }

    /// Whether a price of this region for this interval is stored.
    pub open spec fn has_price(self, region: Seq<char>, interval_time: Seq<char>) -> bool {
        exists|i: int|
            0 <= i < self.prices.len() && self.prices[i].region == region
                && self.prices[i].interval_time == interval_time
    }

    /// A price for an interval that the region already has a price for is
    /// dropped; any other is written behind the rows that are there.
    pub open spec fn insert_price(
        self,
        region: Seq<char>,
        price: int,
        interval_time: Seq<char>,
        now: int,
    ) -> DbView {
        if self.has_price(region, interval_time) {
            self
        } else {
            DbView {
                prices: self.prices.push(
                    PriceView {
                        region: region,
                        interval_time: interval_time,
                        price: price,
                        fetched_at: now,
                    },
                ),
                ..self
            }
        }
    }

    /// The price of the region's latest interval, with that interval's time.
    pub open spec fn latest_price(self, region: Seq<char>) -> Option<(int, Seq<char>)> {
        match newest_two(self.prices, region).0 {
            Some(i) => Some((self.prices[i].price, self.prices[i].interval_time)),
            None => None,
        }
    }

    /// The price of the region's latest interval but one.
    pub open spec fn previous_price(self, region: Seq<char>) -> Option<int> {
        match newest_two(self.prices, region).1 {
            Some(i) => Some(self.prices[i].price),
            None => None,
        }
    }

    /// The lowest and the highest price among the region's intervals whose
    /// time begins with `date_prefix`.
    pub open spec fn daily_range(self, region: Seq<char>, date_prefix: Seq<char>) -> Option<
        (int, int),
    > {
        price_range(self.prices, region, date_prefix)
    }

    /// Whether this publication's forecast of the region for this time is stored.
    pub open spec fn has_forecast(
        self,
        region: Seq<char>,
        forecast_time: Seq<char>,
        published_at: Seq<char>,
    ) -> bool {
        exists|i: int|
            0 <= i < self.forecasts.len() && self.forecasts[i].region == region
                && self.forecasts[i].forecast_time == forecast_time
                && self.forecasts[i].published_at == published_at
    }

    /// A forecast that is stored already, by region, time and publication, is
    /// dropped; any other is written behind the rows that are there.
    pub open spec fn insert_forecast(
        self,
        region: Seq<char>,
        forecast_time: Seq<char>,
        price: int,
        published_at: Seq<char>,
        now: int,
    ) -> DbView {
        if self.has_forecast(region, forecast_time, published_at) {
            self
        } else {
            DbView {
                forecasts: self.forecasts.push(
                    ForecastView {
                        region: region,
                        forecast_time: forecast_time,
                        published_at: published_at,
                        price: price,
                        fetched_at: now,
                    },
                ),
                ..self
            }
        }
    }

    /// The region's forecasts for the times after `after` and up to `before`,
    /// by time, each time once with the price that was published last.
    pub open spec fn forecasts(self, region: Seq<char>, after: Seq<char>, before: Seq<char>)
        -> Seq<(Seq<char>, int)> {
        forecasts_after(self.forecasts, region, after, before)
    }

    /// The active users of a region, in the order in which they were stored.
    pub open spec fn active_users_by_region(self, region: Seq<char>) -> Seq<UserView> {
        active_users(self.users, region)
    }

    /// The log with one more alert at its end.
    pub open spec fn log_alert(
        self,
        chat_id: int,
        alert_type: Seq<char>,
        price: int,
        region: Seq<char>,
        now: int,
    ) -> DbView {
        DbView {
            alerts: self.alerts.push(
                AlertView {
                    chat_id: chat_id,
                    alert_type: alert_type,
                    price: price,
                    region: region,
                    sent_at: now,
                },
            ),
            ..self
        }
    }

    /// Whether the chat got an alert of this type less than `minutes` minutes
    /// before `now`.
    pub open spec fn was_alert_sent_recently(
        self,
        chat_id: int,
        alert_type: Seq<char>,
        minutes: int,
        now: int,
    ) -> bool {
        exists|i: int|
            0 <= i < self.alerts.len() && self.alerts[i].chat_id == chat_id
                && self.alerts[i].alert_type == alert_type && self.alerts[i].sent_at > now
                - minutes * 60
    }

    /// How many alerts the chat got in the hour before `now`.
    pub open spec fn count_alerts_this_hour(self, chat_id: int, now: int) -> nat {
        alerts_since(self.alerts, chat_id, now - 3600)
    }

    /// How many alerts the chat got in the seven days before `now`.
    pub open spec fn count_alerts_this_week(self, chat_id: int, now: int) -> nat {
        alerts_since(self.alerts, chat_id, now - 604_800)
    }

    /// How many alerts the chat got in the 24 hours before `now`.
    pub open spec fn count_alerts_last_24h(self, chat_id: int, now: int) -> nat {
        alerts_since(self.alerts, chat_id, now - 86_400)
    }

    /// Lowest, highest and mean price of a region's day and the number of its
    /// intervals below zero; `None` where the day has no price.
    pub open spec fn daily_stats(self, region: Seq<char>, date_prefix: Seq<char>) -> Option<
        DailyStats,
    > {
        match price_range(self.prices, region, date_prefix) {
            Some((lo, hi)) => Some(
                DailyStats {
                    min_price: lo as i64,
                    max_price: hi as i64,
                    avg_price: (price_sum(self.prices, region, date_prefix) / (day_count(
                        self.prices,
                        region,
                        date_prefix,
                    ) as int)) as i64,
                    negative_intervals: negative_count(self.prices, region, date_prefix) as usize,
                },
            ),
            None => None,
        }
    }

    /// The interval time of the day's highest price, the earliest stored
    /// where several intervals share it.
    pub open spec fn daily_peak_time(self, region: Seq<char>, date_prefix: Seq<char>) -> Option<
        Seq<char>,
    > {
        match peak_place(self.prices, region, date_prefix) {
            Some(i) => Some(self.prices[i].interval_time),
            None => None,
        }
    }

    /// The store without the price rows and alert rows older than 90 days and
    /// the forecast rows older than 7 days.
    pub open spec fn cleanup_old_records(self, now: int) -> DbView {
        DbView {
            users: self.users,
            prices: recent_prices(self.prices, now - HISTORY_RETENTION_SECS),
            forecasts: recent_forecasts(self.forecasts, now - FORECAST_RETENTION_SECS),
            alerts: recent_alerts(self.alerts, now - HISTORY_RETENTION_SECS),
        }
    }
}

/// Whether a forecast row is of this region and for a time after `after` and
/// not after `before`.
pub open spec fn in_window(
    row: ForecastView,
    region: Seq<char>,
    after: Seq<char>,
    before: Seq<char>,
) -> bool {
    row.region == region && text_lt(after, row.forecast_time) && !text_lt(
        before,
        row.forecast_time,
    )
}

/// The place of the window's row with the earliest time and, among those of
/// that time, the latest publication.
pub open spec fn next_forecast(
    rows: Seq<ForecastView>,
    region: Seq<char>,
    after: Seq<char>,
    before: Seq<char>,
) -> Option<int>
    decreases rows.len(),
{
    if rows.len() == 0 {
        None
    } else {
        let n = rows.len() - 1;
        let rest = next_forecast(rows.drop_last(), region, after, before);
        if !in_window(rows[n], region, after, before) {
            rest
        } else {
            match rest {
                None => Some(n),
                Some(b) => if text_lt(rows[n].forecast_time, rows[b].forecast_time) || (
                rows[n].forecast_time == rows[b].forecast_time && text_lt(
                    rows[b].published_at,
                    rows[n].published_at,
                )) {
                    Some(n)
                } else {
                    Some(b)
                },
            }
        }
    }
}

/// How many rows fall in a window.
pub open spec fn window_count(
    rows: Seq<ForecastView>,
    region: Seq<char>,
    after: Seq<char>,
    before: Seq<char>,
) -> nat
    decreases rows.len(),
{
    if rows.len() == 0 {
        0
    } else {
        let rest = window_count(rows.drop_last(), region, after, before);
        if in_window(rows.last(), region, after, before) {
            rest + 1
        } else {
            rest
        }
    }
}

/// The row that comes next lies in the window.
pub proof fn lemma_next_forecast_in_window(
    rows: Seq<ForecastView>,
    region: Seq<char>,
    after: Seq<char>,
    before: Seq<char>,
)
    ensures
        next_forecast(rows, region, after, before) matches Some(b) ==> 0 <= b < rows.len()
            && in_window(rows[b], region, after, before),
    decreases rows.len(),
{
    if rows.len() > 0 {
        lemma_next_forecast_in_window(rows.drop_last(), region, after, before);
    }
}

/// A window that begins later holds no more rows.
proof fn lemma_later_window_no_larger(
    rows: Seq<ForecastView>,
    region: Seq<char>,
    after: Seq<char>,
    later: Seq<char>,
    before: Seq<char>,
)
    requires
        text_lt(after, later),
    ensures
        window_count(rows, region, later, before) <= window_count(rows, region, after, before),
    decreases rows.len(),
{
    if rows.len() > 0 {
        lemma_later_window_no_larger(rows.drop_last(), region, after, later, before);
        if text_lt(later, rows.last().forecast_time) {
            lemma_text_lt_transitive(after, later, rows.last().forecast_time);
        }
    }
}

/// A window that begins at the time of one of its rows holds fewer rows
/// than the window did.
pub proof fn lemma_window_shrinks(
    rows: Seq<ForecastView>,
    region: Seq<char>,
    after: Seq<char>,
    before: Seq<char>,
    k: int,
)
    requires
        0 <= k < rows.len(),
        in_window(rows[k], region, after, before),
    ensures
        window_count(rows, region, rows[k].forecast_time, before) < window_count(
            rows,
            region,
            after,
            before,
        ),
    decreases rows.len(),
{
    let later = rows[k].forecast_time;
    let rest = rows.drop_last();
    if k == rows.len() - 1 {
        lemma_later_window_no_larger(rest, region, after, later, before);
        lemma_text_lt_irreflexive(later);
    } else {
        assert(rest[k] == rows[k]);
        lemma_window_shrinks(rest, region, after, before, k);
        if text_lt(later, rows.last().forecast_time) {
            lemma_text_lt_transitive(after, later, rows.last().forecast_time);
        }
    }
}

/// The forecasts of a window: the earliest time with the price that was
/// published last for it, then the forecasts of the rest of the window
/// after that time.
pub open spec fn forecasts_after(
    rows: Seq<ForecastView>,
    region: Seq<char>,
    after: Seq<char>,
    before: Seq<char>,
) -> Seq<(Seq<char>, int)>
    decreases window_count(rows, region, after, before),
    via forecasts_after_decreases
{
    match next_forecast(rows, region, after, before) {
        None => Seq::empty(),
        Some(i) => seq![(rows[i].forecast_time, rows[i].price)] + forecasts_after(
            rows,
            region,
            rows[i].forecast_time,
            before,
        ),
    }
}

#[via_fn]
proof fn forecasts_after_decreases(
    rows: Seq<ForecastView>,
    region: Seq<char>,
    after: Seq<char>,
    before: Seq<char>,
) {
    lemma_next_forecast_in_window(rows, region, after, before);
    match next_forecast(rows, region, after, before) {
        Some(i) => {
            lemma_window_shrinks(rows, region, after, before, i);
        },
        None => {},
    }
}

/// The active users of a region among `users`, in order.
pub open spec fn active_users(users: Seq<UserView>, region: Seq<char>) -> Seq<UserView>
    decreases users.len(),
{
    if users.len() == 0 {
        Seq::empty()
    } else {
        let rest = active_users(users.drop_last(), region);
        if users.last().region == region && users.last().is_active {
            rest.push(users.last())
        } else {
            rest
        }
    }
}

/// How many alerts of the log went to the chat after `cutoff`.
pub open spec fn alerts_since(alerts: Seq<AlertView>, chat_id: int, cutoff: int) -> nat
    decreases alerts.len(),
{
    if alerts.len() == 0 {
        0
    } else {
        let rest = alerts_since(alerts.drop_last(), chat_id, cutoff);
        if alerts.last().chat_id == chat_id && alerts.last().sent_at > cutoff {
            rest + 1
        } else {
            rest
        }
    }
}

/// The sum of the prices of a region's day.
pub open spec fn price_sum(prices: Seq<PriceView>, region: Seq<char>, date_prefix: Seq<char>)
    -> int
    decreases prices.len(),
{
    if prices.len() == 0 {
        0
    } else {
        let rest = price_sum(prices.drop_last(), region, date_prefix);
        if of_day(prices.last(), region, date_prefix) {
            rest + prices.last().price
        } else {
            rest
        }
    }
}

/// The number of prices of a region's day.
pub open spec fn day_count(prices: Seq<PriceView>, region: Seq<char>, date_prefix: Seq<char>)
    -> nat
    decreases prices.len(),
{
    if prices.len() == 0 {
        0
    } else {
        let rest = day_count(prices.drop_last(), region, date_prefix);
        if of_day(prices.last(), region, date_prefix) {
            rest + 1
        } else {
            rest
        }
    }
}

/// The number of prices below zero of a region's day.
pub open spec fn negative_count(
    prices: Seq<PriceView>,
    region: Seq<char>,
    date_prefix: Seq<char>,
) -> nat
    decreases prices.len(),
{
    if prices.len() == 0 {
        0
    } else {
        let rest = negative_count(prices.drop_last(), region, date_prefix);
        if of_day(prices.last(), region, date_prefix) && prices.last().price < 0 {
            rest + 1
        } else {
            rest
        }
    }
}

/// The place of the first row with the highest price of a region's day.
pub open spec fn peak_place(prices: Seq<PriceView>, region: Seq<char>, date_prefix: Seq<char>)
    -> Option<int>
    decreases prices.len(),
{
    if prices.len() == 0 {
        None
    } else {
        let n = prices.len() - 1;
        let rest = peak_place(prices.drop_last(), region, date_prefix);
        if !of_day(prices[n], region, date_prefix) {
            rest
        } else {
            match rest {
                None => Some(n),
                Some(b) => if prices[n].price > prices[b].price {
                    Some(n)
                } else {
                    Some(b)
                },
            }
        }
    }
}

/// The price rows fetched at `cutoff` or later, in order.
pub open spec fn recent_prices(prices: Seq<PriceView>, cutoff: int) -> Seq<PriceView>
    decreases prices.len(),
{
    if prices.len() == 0 {
        Seq::empty()
    } else {
        let rest = recent_prices(prices.drop_last(), cutoff);
        if prices.last().fetched_at >= cutoff {
            rest.push(prices.last())
        } else {
            rest
        }
    }
}

/// The forecast rows fetched at `cutoff` or later, in order.
pub open spec fn recent_forecasts(rows: Seq<ForecastView>, cutoff: int) -> Seq<ForecastView>
    decreases rows.len(),
{
    if rows.len() == 0 {
        Seq::empty()
    } else {
        let rest = recent_forecasts(rows.drop_last(), cutoff);
        if rows.last().fetched_at >= cutoff {
            rest.push(rows.last())
        } else {
            rest
        }
    }
}

/// The alert rows sent at `cutoff` or later, in order.
pub open spec fn recent_alerts(alerts: Seq<AlertView>, cutoff: int) -> Seq<AlertView>
    decreases alerts.len(),
{
    if alerts.len() == 0 {
        Seq::empty()
    } else {
        let rest = recent_alerts(alerts.drop_last(), cutoff);
        if alerts.last().sent_at >= cutoff {
            rest.push(alerts.last())
        } else {
            rest
        }
    }
}

/// Whether a price row is of this region and of a day given by the prefix of
/// its interval time.
pub open spec fn of_day(row: PriceView, region: Seq<char>, date_prefix: Seq<char>) -> bool {
    row.region == region && has_prefix(row.interval_time, date_prefix)
}

/// The places of the region's row with the greatest interval time and of the
/// one with the greatest but that one, going through the rows in order.
pub open spec fn newest_two(prices: Seq<PriceView>, region: Seq<char>) -> (
    Option<int>,
    Option<int>,
)
    decreases prices.len(),
{
    if prices.len() == 0 {
        (None, None)
    } else {
        let n = prices.len() - 1;
        let rest = newest_two(prices.drop_last(), region);
        if prices[n].region != region {
            rest
        } else {
            match rest.0 {
                None => (Some(n), None),
                Some(b) => if text_lt(prices[b].interval_time, prices[n].interval_time) {
                    (Some(n), Some(b))
                } else {
                    match rest.1 {
                        None => (Some(b), Some(n)),
                        Some(s) => if text_lt(
                            prices[s].interval_time,
                            prices[n].interval_time,
                        ) {
                            (Some(b), Some(n))
                        } else {
                            rest
                        },
                    }
                },
            }
        }
    }
}

/// The least and the greatest price among the rows of a region and a day.
pub open spec fn price_range(prices: Seq<PriceView>, region: Seq<char>, date_prefix: Seq<char>)
    -> Option<(int, int)>
    decreases prices.len(),
{
    if prices.len() == 0 {
        None
    } else {
        let row = prices.last();
        let rest = price_range(prices.drop_last(), region, date_prefix);
        if !of_day(row, region, date_prefix) {
            rest
        } else {
            match rest {
                None => Some((row.price, row.price)),
                Some((lo, hi)) => Some(
                    (
                        if row.price < lo {
                            row.price
                        } else {
                            lo
                        },
                        if row.price > hi {
                            row.price
                        } else {
                            hi
                        },
                    ),
                ),
            }
        }
    }
}
} // verus!
