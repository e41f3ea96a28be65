//! The store and its operations.
//!
//! Every operation is stated over the view of the store. The time of an
//! operation is handed in by the caller, in Unix seconds.

use vstd::prelude::*;
use vstd::string::*;
use crate::db::model::{
    active_users,
    alerts_since,
    day_count,
    forecasts_after,
    lemma_next_forecast_in_window,
    lemma_window_shrinks,
    negative_count,
    newest_two,
    next_forecast,
    peak_place,
    price_range,
    price_sum,
    recent_alerts,
    recent_forecasts,
    recent_prices,
    window_count,
    DbView,
};
use crate::db::rows::{
    alert_views,
    entry_views,
    forecast_views,
    price_views,
    user_views,
    AlertRow,
    AlertView,
    DailyStats,
    ForecastRow,
    ForecastView,
    PriceRow,
    PriceView,
    User,
    UserView,
    DEFAULT_HIGH_ALERT,
    DEFAULT_LOW_ALERT,
    FORECAST_RETENTION_SECS,
    HISTORY_RETENTION_SECS,
};
use crate::text::{same_text, starts_with, text_less};

verus! {

/// The store.
pub struct Db {
    users: Vec<User>,
    prices: Vec<PriceRow>,
    forecasts: Vec<ForecastRow>,
    alerts: Vec<AlertRow>,
}

impl View for Db {
    type V = DbView;

    closed spec fn view(&self) -> DbView {
        DbView {
            users: user_views(self.users@),
            prices: price_views(self.prices@),
            forecasts: forecast_views(self.forecasts@),
            alerts: alert_views(self.alerts@),
        }
    }
}

/// A place among the rows as a number, where there is one.
pub open spec fn place(i: Option<usize>) -> Option<int> {
    match i {
        Some(k) => Some(k as int),
        None => None,
    }
}

impl Db {
    /// The invariant of the store: that of its view.
    pub open spec fn wf(&self) -> bool {
        self@.wf()
    }

    /// An empty store.
    pub fn new() -> (db: Db)
        ensures
            db.wf(),
            db@.users.len() == 0,
            db@.prices.len() == 0,
            db@.forecasts.len() == 0,
            db@.alerts.len() == 0,
    {
        Db { users: Vec::new(), prices: Vec::new(), forecasts: Vec::new(), alerts: Vec::new() }
    }

    /// The place of the user with this chat among the users.
    fn find_user(&self, chat_id: i64) -> (r: Option<usize>)
        requires
            self.wf(),
        ensures
            match r {
                Some(i) => self@.has_user(chat_id as int) && i == self@.user_index(chat_id as int)
                    && i < self.users@.len(),
                None => !self@.has_user(chat_id as int),
            },
    {
        let mut i: usize = 0;
        while i < self.users.len()
            invariant
                self.wf(),
                i <= self.users@.len(),
                forall|k: int| 0 <= k < i ==> self@.users[k].chat_id != chat_id,
            decreases self.users@.len() - i,
        {
            if self.users[i].chat_id == chat_id {
                assert(self@.users[i as int].chat_id == chat_id);
                assert(self@.user_index(chat_id as int) == i);
                return Some(i);
            }
            i += 1;
        }
        None
    }

    /// Stores a user who chose a region: a new chat with the default
    /// thresholds, a known chat with its region changed and nothing else.
    pub fn upsert_user(&mut self, chat_id: i64, region: &str, now: i64)
        requires
            old(self).wf(),
        ensures
            final(self).wf(),
            final(self)@ == old(self)@.upsert_user(chat_id as int, region@, now as int),
    {
        match self.find_user(chat_id) {
            Some(i) => {
                let u = User {
                    chat_id: self.users[i].chat_id,
                    region: region.to_owned(),
                    high_alert: self.users[i].high_alert,
                    low_alert: self.users[i].low_alert,
                    is_active: self.users[i].is_active,
                    created_at: self.users[i].created_at,
                    updated_at: now,
                };
                self.users[i] = u;
                assert(self@.users =~= old(self)@.upsert_user(
                    chat_id as int,
                    region@,
                    now as int,
                ).users);
            },
            None => {
                self.users.push(
                    User {
                        chat_id,
                        region: region.to_owned(),
                        high_alert: DEFAULT_HIGH_ALERT,
                        low_alert: DEFAULT_LOW_ALERT,
                        is_active: true,
                        created_at: now,
                        updated_at: now,
                    },
                );
                assert(self@.users =~= old(self)@.upsert_user(
                    chat_id as int,
                    region@,
                    now as int,
                ).users);
            },
        }
    }

    /// The user with this chat, if one is stored.
    pub fn get_user(&self, chat_id: i64) -> (r: Option<User>)
        requires
            self.wf(),
        ensures
            match r {
                Some(u) => self@.get_user(chat_id as int) == Some(u@),
                None => self@.get_user(chat_id as int) is None,
            },
    {
        match self.find_user(chat_id) {
            Some(i) => Some(self.users[i].clone()),
            None => None,
        }
    }
    /// Puts `u` in the place of the stored user `i`.
    fn replace_user(&mut self, i: usize, u: User)
        requires
            old(self).wf(),
            i < old(self)@.users.len(),
            u@.chat_id == old(self)@.users[i as int].chat_id,
        ensures
            final(self).wf(),
            final(self)@ == (DbView { users: old(self)@.users.update(i as int, u@), ..old(self)@ }),
    {
        self.users[i] = u;
        assert(self@.users =~= old(self)@.users.update(i as int, u@));
    }

    /// Sets the high threshold of a stored user; an unknown chat changes nothing.
    pub fn update_high_alert(&mut self, chat_id: i64, value: i64, now: i64)
        requires
            old(self).wf(),
        ensures
            final(self).wf(),
            final(self)@ == old(self)@.update_high_alert(chat_id as int, value as int, now as int),
    {
        match self.find_user(chat_id) {
            Some(i) => {
                let mut u = self.users[i].clone();
                u.high_alert = value;
                u.updated_at = now;
                self.replace_user(i, u);
            },
            None => {},
        }
    }

    /// Sets the low threshold of a stored user; an unknown chat changes nothing.
    pub fn update_low_alert(&mut self, chat_id: i64, value: i64, now: i64)
        requires
            old(self).wf(),
        ensures
            final(self).wf(),
            final(self)@ == old(self)@.update_low_alert(chat_id as int, value as int, now as int),
    {
        match self.find_user(chat_id) {
            Some(i) => {
                let mut u = self.users[i].clone();
                u.low_alert = value;
                u.updated_at = now;
                self.replace_user(i, u);
            },
            None => {},
        }
    }

    /// Pauses or resumes the alerts of a stored user; an unknown chat changes nothing.
    pub fn set_active(&mut self, chat_id: i64, active: bool, now: i64)
        requires
            old(self).wf(),
        ensures
            final(self).wf(),
            final(self)@ == old(self)@.set_active(chat_id as int, active, now as int),
    {
        match self.find_user(chat_id) {
            Some(i) => {
                let mut u = self.users[i].clone();
                u.is_active = active;
                u.updated_at = now;
                self.replace_user(i, u);
            },
            None => {},
        }
    }

    /// Stores the price of a region for an interval, unless the region has
    /// one for that interval already.
    pub fn insert_price(&mut self, region: &str, price: i64, interval_time: &str, now: i64)
        requires
            old(self).wf(),
        ensures
            final(self).wf(),
            final(self)@ == old(self)@.insert_price(
                region@,
                price as int,
                interval_time@,
                now as int,
            ),
    {
        let mut i: usize = 0;
        while i < self.prices.len()
            invariant
                self.wf(),
                i <= self.prices@.len(),
                *self == *old(self),
                forall|k: int|
                    0 <= k < i ==> !(self@.prices[k].region == region@
                        && self@.prices[k].interval_time == interval_time@),
            decreases self.prices@.len() - i,
        {
            if same_text(self.prices[i].region.as_str(), region) && same_text(
                self.prices[i].interval_time.as_str(),
                interval_time,
            ) {
                assert(self@.prices[i as int].region == region@);
                return ;
            }
            i += 1;
        }
        self.prices.push(
            PriceRow {
                region: region.to_owned(),
                interval_time: interval_time.to_owned(),
                price,
                fetched_at: now,
            },
        );
        assert(self@.prices =~= old(self)@.insert_price(
            region@,
            price as int,
            interval_time@,
            now as int,
        ).prices);
    }

    /// The places of the region's two newest price rows.
    fn newest_two_places(&self, region: &str) -> (r: (Option<usize>, Option<usize>))
        ensures
            (place(r.0), place(r.1)) == newest_two(self@.prices, region@),
            r.0 matches Some(i) ==> i < self.prices@.len(),
            r.1 matches Some(i) ==> i < self.prices@.len(),
    {
        let mut best: Option<usize> = None;
        let mut second: Option<usize> = None;
        let mut i: usize = 0;
        assert(self@.prices.take(0) =~= Seq::<PriceView>::empty());
        while i < self.prices.len()
            invariant
                i <= self.prices@.len(),
                (place(best), place(second)) == newest_two(self@.prices.take(i as int), region@),
                best matches Some(k) ==> k < i,
                second matches Some(k) ==> k < i,
            decreases self.prices@.len() - i,
        {
            proof {
                let t = self@.prices.take(i + 1);
                assert(t.drop_last() =~= self@.prices.take(i as int));
                assert(t[i as int] == self@.prices[i as int]);
                assert(forall|k: int| 0 <= k < i ==> t[k] == self@.prices[k]);
                assert(forall|k: int|
                    0 <= k <= i ==> #[trigger] self@.prices[k] == self.prices@[k]@);
                assert(t.len() == i + 1);
            }
            if same_text(self.prices[i].region.as_str(), region) {
                match best {
                    None => {
                        best = Some(i);
                        second = None;
                    },
                    Some(b) => {
                        if text_less(
                            self.prices[b].interval_time.as_str(),
                            self.prices[i].interval_time.as_str(),
                        ) {
                            second = best;
                            best = Some(i);
                        } else {
                            match second {
                                None => {
                                    second = Some(i);
                                },
                                Some(s) => {
                                    if text_less(
                                        self.prices[s].interval_time.as_str(),
                                        self.prices[i].interval_time.as_str(),
                                    ) {
                                        second = Some(i);
                                    }
                                },
                            }
                        }
                    },
                }
            }
            i += 1;
        }
        assert(self@.prices.take(i as int) =~= self@.prices);
        (best, second)
    }

    /// The price of the region's latest interval, with the time of that
    /// interval; `None` where the region has no price.
    pub fn get_latest_price(&self, region: &str) -> (r: Option<(i64, String)>)
        ensures
            match r {
                Some((p, t)) => self@.latest_price(region@) == Some((p as int, t@)),
                None => self@.latest_price(region@) is None,
            },
    {
        match self.newest_two_places(region).0 {
            Some(i) => Some((self.prices[i].price, self.prices[i].interval_time.clone())),
            None => None,
        }
    }

    /// The price of the region's latest interval but one; `None` where the
    /// region has fewer than two prices.
    pub fn get_previous_price(&self, region: &str) -> (r: Option<i64>)
        ensures
            match r {
                Some(p) => self@.previous_price(region@) == Some(p as int),
                None => self@.previous_price(region@) is None,
            },
    {
        match self.newest_two_places(region).1 {
            Some(i) => Some(self.prices[i].price),
            None => None,
        }
    }

    /// The lowest and the highest price of the region on the day whose
    /// interval times begin with `date_prefix`; `None` where it has none.
    pub fn get_daily_range(&self, region: &str, date_prefix: &str) -> (r: Option<(i64, i64)>)
        ensures
            match r {
                Some((lo, hi)) => self@.daily_range(region@, date_prefix@) == Some(
                    (lo as int, hi as int),
                ),
                None => self@.daily_range(region@, date_prefix@) is None,
            },
    {
        let mut range: Option<(i64, i64)> = None;
        let mut i: usize = 0;
        assert(self@.prices.take(0) =~= Seq::<PriceView>::empty());
        while i < self.prices.len()
            invariant
                i <= self.prices@.len(),
                match range {
                    Some((lo, hi)) => price_range(
                        self@.prices.take(i as int),
                        region@,
                        date_prefix@,
                    ) == Some((lo as int, hi as int)),
                    None => price_range(self@.prices.take(i as int), region@, date_prefix@)
                        is None,
                },
            decreases self.prices@.len() - i,
        {
            proof {
                assert(self@.prices.take(i + 1).drop_last() =~= self@.prices.take(i as int));
            }
            let row = &self.prices[i];
            if same_text(row.region.as_str(), region) && starts_with(
                row.interval_time.as_str(),
                date_prefix,
            ) {
                range = match range {
                    None => Some((row.price, row.price)),
                    Some((lo, hi)) => Some(
                        (
                            if row.price < lo {
                                row.price
                            } else {
                                lo
                            },
                            if row.price > hi {
                                row.price
                            } else {
                                hi
                            },
                        ),
                    ),
                };
            }
            i += 1;
        }
        assert(self@.prices.take(i as int) =~= self@.prices);
        range
    }
    /// Stores a forecast, unless the same publication's forecast of the
    /// region for that time is stored already.
    pub fn insert_forecast(
        &mut self,
        region: &str,
        forecast_time: &str,
        price: i64,
        published_at: &str,
        now: i64,
    )
        requires
            old(self).wf(),
        ensures
            final(self).wf(),
            final(self)@ == old(self)@.insert_forecast(
                region@,
                forecast_time@,
                price as int,
                published_at@,
                now as int,
            ),
    {
        let mut i: usize = 0;
        while i < self.forecasts.len()
            invariant
                self.wf(),
                i <= self.forecasts@.len(),
                *self == *old(self),
                forall|k: int|
                    0 <= k < i ==> !(self@.forecasts[k].region == region@
                        && self@.forecasts[k].forecast_time == forecast_time@
                        && self@.forecasts[k].published_at == published_at@),
            decreases self.forecasts@.len() - i,
        {
            let row = &self.forecasts[i];
            if same_text(row.region.as_str(), region) && same_text(
                row.forecast_time.as_str(),
                forecast_time,
            ) && same_text(row.published_at.as_str(), published_at) {
                assert(self@.forecasts[i as int].region == region@);
                return ;
            }
            i += 1;
        }
        self.forecasts.push(
            ForecastRow {
                region: region.to_owned(),
                forecast_time: forecast_time.to_owned(),
                published_at: published_at.to_owned(),
                price,
                fetched_at: now,
            },
        );
        assert(self@.forecasts =~= old(self)@.insert_forecast(
            region@,
            forecast_time@,
            price as int,
            published_at@,
            now as int,
        ).forecasts);
    }

    /// The place of the forecast row that comes next after `after`.
    fn next_forecast_place(&self, region: &str, after: &str, before: &str) -> (r: Option<usize>)
        ensures
            place(r) == next_forecast(self@.forecasts, region@, after@, before@),
            r matches Some(i) ==> i < self.forecasts@.len(),
    {
        let mut best: Option<usize> = None;
        let mut i: usize = 0;
        assert(self@.forecasts.take(0) =~= Seq::<ForecastView>::empty());
        while i < self.forecasts.len()
            invariant
                i <= self.forecasts@.len(),
                place(best) == next_forecast(
                    self@.forecasts.take(i as int),
                    region@,
                    after@,
                    before@,
                ),
                best matches Some(k) ==> k < i,
            decreases self.forecasts@.len() - i,
        {
            proof {
                let t = self@.forecasts.take(i + 1);
                assert(t.drop_last() =~= self@.forecasts.take(i as int));
                assert(forall|k: int|
                    0 <= k <= i ==> #[trigger] self@.forecasts[k] == self.forecasts@[k]@);
                assert(forall|k: int| 0 <= k <= i ==> t[k] == self@.forecasts[k]);
            }
            let row = &self.forecasts[i];
            if same_text(row.region.as_str(), region) && text_less(
                after,
                row.forecast_time.as_str(),
            ) && !text_less(before, row.forecast_time.as_str()) {
                match best {
                    None => {
                        best = Some(i);
                    },
                    Some(b) => {
                        let held = &self.forecasts[b];
                        if text_less(row.forecast_time.as_str(), held.forecast_time.as_str())
                            || (same_text(
                            row.forecast_time.as_str(),
                            held.forecast_time.as_str(),
                        ) && text_less(held.published_at.as_str(), row.published_at.as_str())) {
                            best = Some(i);
                        }
                    },
                }
            }
            i += 1;
        }
        assert(self@.forecasts.take(i as int) =~= self@.forecasts);
        best
    }

    /// The region's forecasts for the times after `after` and up to `before`:
    /// in the order of their times, one for each time, with the price of the
    /// publication that came last.
    pub fn get_forecasts(&self, region: &str, after: &str, before: &str) -> (r: Vec<
        (String, i64),
    >)
        ensures
            entry_views(r@) == self@.forecasts(region@, after@, before@),
    {
        let mut out: Vec<(String, i64)> = Vec::new();
        let mut cur: String = after.to_owned();
        assert(entry_views(out@) =~= Seq::<(Seq<char>, int)>::empty());
        loop
            invariant_except_break
                entry_views(out@) + forecasts_after(self@.forecasts, region@, cur@, before@)
                    =~= self@.forecasts(region@, after@, before@),
            ensures
                entry_views(out@) =~= self@.forecasts(region@, after@, before@),
            decreases window_count(self@.forecasts, region@, cur@, before@),
        {
            match self.next_forecast_place(region, cur.as_str(), before) {
                None => {
                    break ;
                },
                Some(i) => {
                    let row = &self.forecasts[i];
                    let ghost before_push = entry_views(out@);
                    proof {
                        assert(self@.forecasts[i as int] == self.forecasts@[i as int]@);
                        lemma_next_forecast_in_window(self@.forecasts, region@, cur@, before@);
                        lemma_window_shrinks(self@.forecasts, region@, cur@, before@, i as int);
                    }
                    out.push((row.forecast_time.clone(), row.price));
                    cur = row.forecast_time.clone();
                    assert(entry_views(out@) =~= before_push + seq![
                        (row.forecast_time@, row.price as int),
                    ]);
                },
            }
        }
        out
    }

    /// The active users of a region, in the order in which they were stored.
    pub fn get_active_users_by_region(&self, region: &str) -> (r: Vec<User>)
        ensures
            user_views(r@) == self@.active_users_by_region(region@),
    {
        let mut out: Vec<User> = Vec::new();
        let mut i: usize = 0;
        assert(self@.users.take(0) =~= Seq::<UserView>::empty());
        assert(user_views(out@) =~= Seq::<UserView>::empty());
        while i < self.users.len()
            invariant
                i <= self.users@.len(),
                user_views(out@) == active_users(self@.users.take(i as int), region@),
            decreases self.users@.len() - i,
        {
            proof {
                let t = self@.users.take(i + 1);
                assert(t.drop_last() =~= self@.users.take(i as int));
                assert(t.last() == self.users@[i as int]@);
            }
            let u = &self.users[i];
            if same_text(u.region.as_str(), region) && u.is_active {
                let ghost held = user_views(out@);
                out.push(u.clone());
                assert(user_views(out@) =~= held.push(u@));
            }
            i += 1;
        }
        assert(self@.users.take(i as int) =~= self@.users);
        out
    }

    /// Writes down that an alert went out.
    pub fn log_alert(&mut self, chat_id: i64, alert_type: &str, price: i64, region: &str, now: i64)
        requires
            old(self).wf(),
        ensures
            final(self).wf(),
            final(self)@ == old(self)@.log_alert(
                chat_id as int,
                alert_type@,
                price as int,
                region@,
                now as int,
            ),
    {
        self.alerts.push(
            AlertRow {
                chat_id,
                alert_type: alert_type.to_owned(),
                price,
                region: region.to_owned(),
                sent_at: now,
            },
        );
        assert(self@.alerts =~= old(self)@.log_alert(
            chat_id as int,
            alert_type@,
            price as int,
            region@,
            now as int,
        ).alerts);
    }

    /// Whether the chat got an alert of this type less than `minutes`
    /// minutes before `now`.
    pub fn was_alert_sent_recently(&self, chat_id: i64, alert_type: &str, minutes: i64, now: i64)
        -> (r: bool)
        ensures
            r == self@.was_alert_sent_recently(
                chat_id as int,
                alert_type@,
                minutes as int,
                now as int,
            ),
    {
        let cutoff: i128 = now as i128 - (minutes as i128) * 60;
        let mut i: usize = 0;
        while i < self.alerts.len()
            invariant
                i <= self.alerts@.len(),
                cutoff == now - minutes * 60,
                forall|k: int|
                    0 <= k < i ==> !(self@.alerts[k].chat_id == chat_id
                        && self@.alerts[k].alert_type == alert_type@ && self@.alerts[k].sent_at
                        > cutoff),
            decreases self.alerts@.len() - i,
        {
            let row = &self.alerts[i];
            if row.chat_id == chat_id && row.sent_at as i128 > cutoff && same_text(
                row.alert_type.as_str(),
                alert_type,
            ) {
                assert(self@.alerts[i as int].chat_id == chat_id);
                return true;
            }
            i += 1;
        }
        false
    }

    /// How many alerts the chat got after `cutoff`.
    fn count_alerts_since(&self, chat_id: i64, cutoff: i128) -> (r: usize)
        ensures
            r == alerts_since(self@.alerts, chat_id as int, cutoff as int),
    {
        let mut count: usize = 0;
        let mut i: usize = 0;
        assert(self@.alerts.take(0) =~= Seq::<AlertView>::empty());
        while i < self.alerts.len()
            invariant
                i <= self.alerts@.len(),
                count <= i,
                count == alerts_since(self@.alerts.take(i as int), chat_id as int, cutoff as int),
            decreases self.alerts@.len() - i,
        {
            proof {
                let t = self@.alerts.take(i + 1);
                assert(t.drop_last() =~= self@.alerts.take(i as int));
                assert(t.last() == self.alerts@[i as int]@);
            }
            let row = &self.alerts[i];
            if row.chat_id == chat_id && row.sent_at as i128 > cutoff {
                count += 1;
            }
            i += 1;
        }
        assert(self@.alerts.take(i as int) =~= self@.alerts);
        count
    }

    /// How many alerts the chat got in the hour before `now`.
    pub fn count_alerts_this_hour(&self, chat_id: i64, now: i64) -> (r: usize)
        ensures
            r == self@.count_alerts_this_hour(chat_id as int, now as int),
    {
        self.count_alerts_since(chat_id, now as i128 - 3600)
    }

    /// How many alerts the chat got in the seven days before `now`.
    pub fn count_alerts_this_week(&self, chat_id: i64, now: i64) -> (r: usize)
        ensures
            r == self@.count_alerts_this_week(chat_id as int, now as int),
    {
        self.count_alerts_since(chat_id, now as i128 - 604_800)
    }

    /// How many alerts the chat got in the 24 hours before `now`.
    pub fn count_alerts_last_24h(&self, chat_id: i64, now: i64) -> (r: usize)
        ensures
            r == self@.count_alerts_last_24h(chat_id as int, now as int),
    {
        self.count_alerts_since(chat_id, now as i128 - 86_400)
    }

    /// The interval time of the highest price of a region's day, the
    /// earliest stored where several intervals share it.
    pub fn get_daily_peak_time(&self, region: &str, date_prefix: &str) -> (r: Option<String>)
        ensures
            match r {
                Some(t) => self@.daily_peak_time(region@, date_prefix@) == Some(t@),
                None => self@.daily_peak_time(region@, date_prefix@) is None,
            },
    {
        let mut best: Option<usize> = None;
        let mut i: usize = 0;
        assert(self@.prices.take(0) =~= Seq::<PriceView>::empty());
        while i < self.prices.len()
            invariant
                i <= self.prices@.len(),
                place(best) == peak_place(self@.prices.take(i as int), region@, date_prefix@),
                best matches Some(k) ==> k < i,
            decreases self.prices@.len() - i,
        {
            proof {
                let t = self@.prices.take(i + 1);
                assert(t.drop_last() =~= self@.prices.take(i as int));
                assert(forall|k: int|
                    0 <= k <= i ==> #[trigger] self@.prices[k] == self.prices@[k]@);
                assert(forall|k: int| 0 <= k <= i ==> t[k] == self@.prices[k]);
            }
            let row = &self.prices[i];
            if same_text(row.region.as_str(), region) && starts_with(
                row.interval_time.as_str(),
                date_prefix,
            ) {
                match best {
                    None => {
                        best = Some(i);
                    },
                    Some(b) => {
                        if row.price > self.prices[b].price {
                            best = Some(i);
                        }
                    },
                }
            }
            i += 1;
        }
        assert(self@.prices.take(i as int) =~= self@.prices);
        match best {
            Some(b) => {
                assert(self@.prices[b as int] == self.prices@[b as int]@);
                Some(self.prices[b].interval_time.clone())
            },
            None => None,
        }
    }

    /// How many price rows are stored.
    pub fn price_rows(&self) -> (n: usize)
        ensures
            n == self@.prices.len(),
    {
        self.prices.len()
    }

    /// How many forecast rows are stored.
    pub fn forecast_rows(&self) -> (n: usize)
        ensures
            n == self@.forecasts.len(),
    {
        self.forecasts.len()
    }

    /// How many alerts are logged.
    pub fn alert_rows(&self) -> (n: usize)
        ensures
            n == self@.alerts.len(),
    {
        self.alerts.len()
    }
    /// Lowest, highest and mean price of a region's day and the number of
    /// its intervals with a price below zero; `None` exactly where the day
    /// has no price.
    pub fn get_daily_stats(&self, region: &str, date_prefix: &str) -> (r: Option<DailyStats>)
        ensures
            r == self@.daily_stats(region@, date_prefix@),
    {
        let mut range: Option<(i64, i64)> = None;
        let mut sum: i128 = 0;
        let mut count: usize = 0;
        let mut negative: usize = 0;
        let mut i: usize = 0;
        assert(self@.prices.take(0) =~= Seq::<PriceView>::empty());
        while i < self.prices.len()
            invariant
                i <= self.prices@.len(),
                count <= i,
                negative <= count,
                count == day_count(self@.prices.take(i as int), region@, date_prefix@),
                negative == negative_count(self@.prices.take(i as int), region@, date_prefix@),
                sum == price_sum(self@.prices.take(i as int), region@, date_prefix@),
                match range {
                    Some((lo, hi)) => price_range(
                        self@.prices.take(i as int),
                        region@,
                        date_prefix@,
                    ) == Some((lo as int, hi as int)) && count > 0 && lo * count <= sum <= hi
                        * count && lo <= hi,
                    None => price_range(self@.prices.take(i as int), region@, date_prefix@)
                        is None && count == 0 && sum == 0,
                },
                -(i * 0x8000_0000_0000_0000) <= sum <= i * 0x8000_0000_0000_0000,
            decreases self.prices@.len() - i,
        {
            proof {
                let t = self@.prices.take(i + 1);
                assert(t.drop_last() =~= self@.prices.take(i as int));
                assert(t.last() == self.prices@[i as int]@);
            }
            let row = &self.prices[i];
            if same_text(row.region.as_str(), region) && starts_with(
                row.interval_time.as_str(),
                date_prefix,
            ) {
                let p = row.price;
                match range {
                    None => {
                        range = Some((p, p));
                    },
                    Some((lo, hi)) => {
                        let lo2 = if p < lo {
                            p
                        } else {
                            lo
                        };
                        let hi2 = if p > hi {
                            p
                        } else {
                            hi
                        };
                        assert(lo2 * (count + 1) <= sum + p <= hi2 * (count + 1))
                            by (nonlinear_arith)
                            requires
                                lo * count <= sum <= hi * count,
                                lo2 <= lo,
                                lo2 <= p,
                                hi <= hi2,
                                p <= hi2,
                                count >= 0,
                        ;
                        range = Some((lo2, hi2));
                    },
                }
                sum = sum + p as i128;
                count += 1;
                if p < 0 {
                    negative += 1;
                }
            }
            i += 1;
        }
        assert(self@.prices.take(i as int) =~= self@.prices);
        match range {
            None => None,
            Some((lo, hi)) => {
                let ghost c = count as int;
                let ghost q = sum as int / c;
                proof {
                    vstd::arithmetic::div_mod::lemma_div_is_ordered(lo * c, sum as int, c);
                    vstd::arithmetic::div_mod::lemma_div_is_ordered(sum as int, hi * c, c);
                    vstd::arithmetic::div_mod::lemma_div_multiples_vanish(lo as int, c);
                    vstd::arithmetic::div_mod::lemma_div_multiples_vanish(hi as int, c);
                    assert(lo * c == c * lo) by (nonlinear_arith);
                    assert(hi * c == c * hi) by (nonlinear_arith);
                    assert(lo <= q <= hi);
                }
                match sum.checked_div_euclid(count as i128) {
                    Some(avg) => Some(
                        DailyStats {
                            min_price: lo,
                            max_price: hi,
                            avg_price: avg as i64,
                            negative_intervals: negative,
                        },
                    ),
                    None => None,
                }
            },
        }
    }

    /// Drops the price rows and the alert rows older than 90 days and the
    /// forecast rows older than 7 days, by the time at which they were
    /// fetched or sent.
    pub fn cleanup_old_records(&mut self, now: i64)
        requires
            old(self).wf(),
        ensures
            final(self).wf(),
            final(self)@ == old(self)@.cleanup_old_records(now as int),
            forall|i: int|
                0 <= i < final(self)@.prices.len() ==> final(self)@.prices[i].fetched_at >= now
                    - HISTORY_RETENTION_SECS,
            forall|i: int|
                0 <= i < final(self)@.forecasts.len() ==> final(self)@.forecasts[i].fetched_at
                    >= now - FORECAST_RETENTION_SECS,
            forall|i: int|
                0 <= i < final(self)@.alerts.len() ==> final(self)@.alerts[i].sent_at >= now
                    - HISTORY_RETENTION_SECS,
    {
        let long_ago: i128 = now as i128 - HISTORY_RETENTION_SECS as i128;
        let week_ago: i128 = now as i128 - FORECAST_RETENTION_SECS as i128;

        let mut prices: Vec<PriceRow> = Vec::new();
        let ghost mut from: Seq<int> = Seq::empty();
        let mut i: usize = 0;
        assert(self@.prices.take(0) =~= Seq::<PriceView>::empty());
        assert(price_views(prices@) =~= Seq::<PriceView>::empty());
        while i < self.prices.len()
            invariant
                i <= self.prices@.len(),
                *self == *old(self),
                price_views(prices@) == recent_prices(self@.prices.take(i as int), long_ago as int),
                from.len() == prices@.len(),
                forall|a: int| 0 <= a < from.len() ==> 0 <= #[trigger] from[a] < i,
                forall|a: int, b: int| 0 <= a < b < from.len() ==> from[a] < from[b],
                forall|a: int|
                    0 <= a < from.len() ==> price_views(prices@)[a] == self@.prices[#[trigger] from[a]],
                forall|a: int|
                    0 <= a < prices@.len() ==> (#[trigger] price_views(prices@)[a]).fetched_at
                        >= long_ago,
            decreases self.prices@.len() - i,
        {
            proof {
                let t = self@.prices.take(i + 1);
                assert(t.drop_last() =~= self@.prices.take(i as int));
                assert(t.last() == self.prices@[i as int]@);
            }
            if self.prices[i].fetched_at as i128 >= long_ago {
                let ghost held = price_views(prices@);
                prices.push(self.prices[i].clone());
                proof {
                    from = from.push(i as int);
                    assert(price_views(prices@) =~= held.push(self.prices@[i as int]@));
                }
            }
            i += 1;
        }
        assert(self@.prices.take(i as int) =~= self@.prices);

        let mut forecasts: Vec<ForecastRow> = Vec::new();
        let ghost mut origin: Seq<int> = Seq::empty();
        let mut j: usize = 0;
        assert(self@.forecasts.take(0) =~= Seq::<ForecastView>::empty());
        assert(forecast_views(forecasts@) =~= Seq::<ForecastView>::empty());
        while j < self.forecasts.len()
            invariant
                j <= self.forecasts@.len(),
                *self == *old(self),
                forecast_views(forecasts@) == recent_forecasts(
                    self@.forecasts.take(j as int),
                    week_ago as int,
                ),
                origin.len() == forecasts@.len(),
                forall|a: int| 0 <= a < origin.len() ==> 0 <= #[trigger] origin[a] < j,
                forall|a: int, b: int| 0 <= a < b < origin.len() ==> origin[a] < origin[b],
                forall|a: int|
                    0 <= a < origin.len() ==> forecast_views(forecasts@)[a]
                        == self@.forecasts[#[trigger] origin[a]],
                forall|a: int|
                    0 <= a < forecasts@.len() ==> (#[trigger] forecast_views(
                        forecasts@,
                    )[a]).fetched_at >= week_ago,
            decreases self.forecasts@.len() - j,
        {
            proof {
                let t = self@.forecasts.take(j + 1);
                assert(t.drop_last() =~= self@.forecasts.take(j as int));
                assert(t.last() == self.forecasts@[j as int]@);
            }
            if self.forecasts[j].fetched_at as i128 >= week_ago {
                let ghost held = forecast_views(forecasts@);
                forecasts.push(self.forecasts[j].clone());
                proof {
                    origin = origin.push(j as int);
                    assert(forecast_views(forecasts@) =~= held.push(self.forecasts@[j as int]@));
                }
            }
            j += 1;
        }
        assert(self@.forecasts.take(j as int) =~= self@.forecasts);

        let mut alerts: Vec<AlertRow> = Vec::new();
        let mut k: usize = 0;
        assert(self@.alerts.take(0) =~= Seq::<AlertView>::empty());
        assert(alert_views(alerts@) =~= Seq::<AlertView>::empty());
        while k < self.alerts.len()
            invariant
                k <= self.alerts@.len(),
                *self == *old(self),
                alert_views(alerts@) == recent_alerts(self@.alerts.take(k as int), long_ago as int),
                forall|a: int|
                    0 <= a < alerts@.len() ==> (#[trigger] alert_views(alerts@)[a]).sent_at
                        >= long_ago,
            decreases self.alerts@.len() - k,
        {
            proof {
                let t = self@.alerts.take(k + 1);
                assert(t.drop_last() =~= self@.alerts.take(k as int));
                assert(t.last() == self.alerts@[k as int]@);
            }
            if self.alerts[k].sent_at as i128 >= long_ago {
                let ghost held = alert_views(alerts@);
                alerts.push(self.alerts[k].clone());
                proof {
                    assert(alert_views(alerts@) =~= held.push(self.alerts@[k as int]@));
                }
            }
            k += 1;
        }
        assert(self@.alerts.take(k as int) =~= self@.alerts);

        self.prices = prices;
        self.forecasts = forecasts;
        self.alerts = alerts;
        proof {
            assert(self@.users == old(self)@.users);
            assert forall|a: int, b: int| 0 <= a < b < self@.prices.len() implies !(
            self@.prices[a].region == self@.prices[b].region && self@.prices[a].interval_time
                == self@.prices[b].interval_time) by {
                assert(self@.prices[a] == old(self)@.prices[from[a]]);
                assert(self@.prices[b] == old(self)@.prices[from[b]]);
            }
            assert forall|a: int, b: int| 0 <= a < b < self@.forecasts.len() implies !(
            self@.forecasts[a].region == self@.forecasts[b].region
                && self@.forecasts[a].forecast_time == self@.forecasts[b].forecast_time
                && self@.forecasts[a].published_at == self@.forecasts[b].published_at) by {
                assert(self@.forecasts[a] == old(self)@.forecasts[origin[a]]);
                assert(self@.forecasts[b] == old(self)@.forecasts[origin[b]]);
            }
        }
    }
}
} // verus!
