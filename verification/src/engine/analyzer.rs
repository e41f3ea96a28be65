//! From new prices and the store to the alerts that are due.

use vstd::prelude::*;
use vstd::string::*;
use crate::bot::messages::{
    all_clear_text,
    forecast_alert_text,
    format_all_clear,
    format_forecast_alert,
    format_high_alert,
    format_low_alert,
    format_spike_alert,
    high_alert_text,
    low_alert_text,
    spike_alert_text,
};
use crate::clock::{
    brisbane_time,
    date_text,
    datetime_text,
    format_date,
    format_datetime,
    four_digit_year,
    market_time,
    Clock,
};
use crate::data::parser::{price_record_views, PriceRecord, PriceRecordView};
use crate::db::model::{active_users, DbView};
use crate::db::repository::Db;
use crate::db::rows::{entry_views, user_views, User, UserView};

verus! {

/// A move of more than 100 dollars between two intervals is a spike.
pub const SPIKE_THRESHOLD: i64 = 100_000_000;

/// No user gets more than this many alerts in an hour.
pub const HOURLY_CAP: usize = 10;

/// An alert that is due and not yet sent.
#[derive(Debug)]
pub struct PendingAlert {
    pub chat_id: i64,
    pub text: String,
    pub alert_type: String,
    pub price: i64,
    pub region: String,
}

/// A pending alert as a value.
pub ghost struct PendingAlertView {
    pub chat_id: int,
    pub text: Seq<char>,
    pub alert_type: Seq<char>,
    pub price: int,
    pub region: Seq<char>,
}

impl View for PendingAlert {
    type V = PendingAlertView;

    open spec fn view(&self) -> PendingAlertView {
        PendingAlertView {
            chat_id: self.chat_id as int,
            text: self.text@,
            alert_type: self.alert_type@,
            price: self.price as int,
            region: self.region@,
        }
    }
}

/// The alerts of a list, as values.
pub open spec fn pending_views(alerts: Seq<PendingAlert>) -> Seq<PendingAlertView> {
    Seq::new(alerts.len(), |i: int| alerts[i]@)
}

/// Whether an alert of this type may go to the chat: none of the type went
/// in the last `dedup_minutes` minutes, and fewer than ten of any type in
/// the last hour.
pub open spec fn may_alert(
    db: DbView,
    chat_id: int,
    alert_type: Seq<char>,
    dedup_minutes: int,
    now: int,
) -> bool {
    !db.was_alert_sent_recently(chat_id, alert_type, dedup_minutes, now)
        && db.count_alerts_this_hour(chat_id, now) < HOURLY_CAP
}

/// Whether the price moved by more than the spike threshold.
pub open spec fn is_spike(prev: int, current: int) -> bool {
    current - prev > SPIKE_THRESHOLD || prev - current > SPIKE_THRESHOLD
}

/// The spike alert for a user.
pub open spec fn spike_alert(u: UserView, region: Seq<char>, prev: int, current: int)
    -> PendingAlertView {
    PendingAlertView {
        chat_id: u.chat_id,
        text: spike_alert_text(region, prev, current),
        alert_type: "spike"@,
        price: current,
        region: region,
    }
}

/// The spike alerts for `users`, in their order: one for each who may get one.
pub open spec fn spike_alerts(
    db: DbView,
    users: Seq<UserView>,
    region: Seq<char>,
    prev: int,
    current: int,
    now: int,
) -> Seq<PendingAlertView>
    decreases users.len(),
{
    if users.len() == 0 {
        Seq::empty()
    } else {
        let rest = spike_alerts(db, users.drop_last(), region, prev, current, now);
        if may_alert(db, users.last().chat_id, "spike"@, 30, now) {
            rest.push(spike_alert(users.last(), region, prev, current))
        } else {
            rest
        }
    }
}

/// Whether a high-price alert is due: the price is above the threshold,
/// strictly, and the user may get one.
pub open spec fn high_due(db: DbView, u: UserView, current: int, now: int) -> bool {
    current > u.high_alert && may_alert(db, u.chat_id, "high_price"@, 30, now)
}

/// Whether a low-price alert is due: the price is below the threshold,
/// strictly, and the user may get one.
pub open spec fn low_due(db: DbView, u: UserView, current: int, now: int) -> bool {
    current < u.low_alert && may_alert(db, u.chat_id, "low_price"@, 30, now)
}

/// Whether an all-clear is due: the price is at or below the high threshold,
/// a high-price alert went out in the last three hours, and no all-clear in
/// the last hour.
pub open spec fn all_clear_due(db: DbView, u: UserView, current: int, now: int) -> bool {
    current <= u.high_alert && db.was_alert_sent_recently(u.chat_id, "high_price"@, 180, now)
        && !db.was_alert_sent_recently(u.chat_id, "all_clear"@, 60, now)
}

/// The high-price alert for a user.
pub open spec fn high_alert(
    u: UserView,
    region: Seq<char>,
    current: int,
    daily_range: Option<(int, int)>,
) -> PendingAlertView {
    PendingAlertView {
        chat_id: u.chat_id,
        text: high_alert_text(region, current, u.high_alert, daily_range),
        alert_type: "high_price"@,
        price: current,
        region: region,
    }
}

/// The low-price alert for a user.
pub open spec fn low_alert(u: UserView, region: Seq<char>, current: int) -> PendingAlertView {
    PendingAlertView {
        chat_id: u.chat_id,
        text: low_alert_text(region, current),
        alert_type: "low_price"@,
        price: current,
        region: region,
    }
}

/// The all-clear for a user, with the day's highest price as the peak.
pub open spec fn all_clear_alert(
    u: UserView,
    region: Seq<char>,
    current: int,
    daily_range: Option<(int, int)>,
) -> PendingAlertView {
    PendingAlertView {
        chat_id: u.chat_id,
        text: all_clear_text(
            region,
            current,
            match daily_range {
                Some((lo, hi)) => Some(hi),
                None => None,
            },
        ),
        alert_type: "all_clear"@,
        price: current,
        region: region,
    }
}

/// `one` where `due`, nothing otherwise.
pub open spec fn if_due(due: bool, one: PendingAlertView) -> Seq<PendingAlertView> {
    if due {
        seq![one]
    } else {
        Seq::empty()
    }
}

/// The threshold alerts for one user: high, low, all-clear, each where due.
pub open spec fn user_alerts(
    db: DbView,
    u: UserView,
    region: Seq<char>,
    current: int,
    daily_range: Option<(int, int)>,
    now: int,
) -> Seq<PendingAlertView> {
    if_due(high_due(db, u, current, now), high_alert(u, region, current, daily_range)) + if_due(
        low_due(db, u, current, now),
        low_alert(u, region, current),
    ) + if_due(
        all_clear_due(db, u, current, now),
        all_clear_alert(u, region, current, daily_range),
    )
}

/// The threshold alerts for `users`, user by user in their order.
pub open spec fn threshold_alerts(
    db: DbView,
    users: Seq<UserView>,
    region: Seq<char>,
    current: int,
    daily_range: Option<(int, int)>,
    now: int,
) -> Seq<PendingAlertView>
    decreases users.len(),
{
    if users.len() == 0 {
        Seq::empty()
    } else {
        threshold_alerts(db, users.drop_last(), region, current, daily_range, now) + user_alerts(
            db,
            users.last(),
            region,
            current,
            daily_range,
            now,
        )
    }
}

/// The alerts for one new price: the spike alerts where the price moved by
/// more than the spike threshold against the region's latest price but one,
/// then the threshold alerts. The store holds the new price already, so its
/// latest but one is the price of the interval before.
pub open spec fn record_alerts(db: DbView, rec: PriceRecordView, today: Seq<char>, now: int) -> Seq<
    PendingAlertView,
> {
    let users = db.active_users_by_region(rec.region);
    let spikes = match db.previous_price(rec.region) {
        Some(prev) => if is_spike(prev, rec.price) {
            spike_alerts(db, users, rec.region, prev, rec.price, now)
        } else {
            Seq::empty()
        },
        None => Seq::empty(),
    };
    spikes + threshold_alerts(
        db,
        users,
        rec.region,
        rec.price,
        db.daily_range(rec.region, today),
        now,
    )
}

/// The alerts for a batch of new prices, price by price in their order.
pub open spec fn analysis(db: DbView, prices: Seq<PriceRecordView>, today: Seq<char>, now: int)
    -> Seq<PendingAlertView>
    decreases prices.len(),
{
    if prices.len() == 0 {
        Seq::empty()
    } else {
        analysis(db, prices.drop_last(), today, now) + record_alerts(
            db,
            prices.last(),
            today,
            now,
        )
    }
}

/// Whether an alert of this type may go to the chat.
pub fn can_alert(db: &Db, chat_id: i64, alert_type: &str, dedup_minutes: i64, now: i64) -> (r:
    bool)
    ensures
        r == may_alert(db@, chat_id as int, alert_type@, dedup_minutes as int, now as int),
{
    !db.was_alert_sent_recently(chat_id, alert_type, dedup_minutes, now)
        && db.count_alerts_this_hour(chat_id, now) < HOURLY_CAP
}

fn is_spike_move(prev: i64, current: i64) -> (r: bool)
    ensures
        r == is_spike(prev as int, current as int),
{
    let d: i128 = current as i128 - prev as i128;
    d > SPIKE_THRESHOLD as i128 || -d > SPIKE_THRESHOLD as i128
}

fn push_spike_alerts(
    out: &mut Vec<PendingAlert>,
    db: &Db,
    users: &Vec<User>,
    region: &str,
    prev: i64,
    current: i64,
    now: i64,
)
    ensures
        pending_views(final(out)@) == pending_views(old(out)@) + spike_alerts(
            db@,
            user_views(users@),
            region@,
            prev as int,
            current as int,
            now as int,
        ),
{
    let ghost all = user_views(users@);
    let mut i: usize = 0;
    assert(all.take(0) =~= Seq::<UserView>::empty());
    assert(pending_views(out@) + Seq::<PendingAlertView>::empty() =~= pending_views(out@));
    while i < users.len()
        invariant
            i <= users@.len(),
            all == user_views(users@),
            pending_views(out@) == pending_views(old(out)@) + spike_alerts(
                db@,
                all.take(i as int),
                region@,
                prev as int,
                current as int,
                now as int,
            ),
        decreases users@.len() - i,
    {
        proof {
            let t = all.take(i + 1);
            assert(t.drop_last() =~= all.take(i as int));
            assert(t.last() == users@[i as int]@);
        }
        let u = &users[i];
        if can_alert(db, u.chat_id, "spike", 30, now) {
            let ghost held = pending_views(out@);
            let alert = PendingAlert {
                chat_id: u.chat_id,
                text: format_spike_alert(region, prev, current),
                alert_type: String::from_str("spike"),
                price: current,
                region: region.to_owned(),
            };
            out.push(alert);
            proof {
                let one = spike_alert(u@, region@, prev as int, current as int);
                assert(pending_views(out@) =~= held.push(one));
                let before = spike_alerts(
                    db@,
                    all.take(i as int),
                    region@,
                    prev as int,
                    current as int,
                    now as int,
                );
                assert(held.push(one) =~= pending_views(old(out)@) + before.push(one));
            }
        }
        i += 1;
    }
    assert(all.take(i as int) =~= all);
}

/// A pair of prices as numbers.
pub open spec fn range_of(r: Option<(i64, i64)>) -> Option<(int, int)> {
    match r {
        Some((lo, hi)) => Some((lo as int, hi as int)),
        None => None,
    }
}

fn push_user_alerts(
    out: &mut Vec<PendingAlert>,
    db: &Db,
    u: &User,
    region: &str,
    current: i64,
    daily_range: Option<(i64, i64)>,
    now: i64,
)
    ensures
        pending_views(final(out)@) == pending_views(old(out)@) + user_alerts(
            db@,
            u@,
            region@,
            current as int,
            range_of(daily_range),
            now as int,
        ),
{
    let ghost range = range_of(daily_range);
    let ghost start = pending_views(out@);
    if current > u.high_alert && can_alert(db, u.chat_id, "high_price", 30, now) {
        let ghost held = pending_views(out@);
        out.push(
            PendingAlert {
                chat_id: u.chat_id,
                text: format_high_alert(region, current, u.high_alert, daily_range),
                alert_type: String::from_str("high_price"),
                price: current,
                region: region.to_owned(),
            },
        );
        assert(pending_views(out@) =~= held.push(high_alert(u@, region@, current as int, range)));
    }
    let ghost after_high = pending_views(out@);
    assert(after_high =~= start + if_due(
        high_due(db@, u@, current as int, now as int),
        high_alert(u@, region@, current as int, range),
    ));
    if current < u.low_alert && can_alert(db, u.chat_id, "low_price", 30, now) {
        let ghost held = pending_views(out@);
        out.push(
            PendingAlert {
                chat_id: u.chat_id,
                text: format_low_alert(region, current),
                alert_type: String::from_str("low_price"),
                price: current,
                region: region.to_owned(),
            },
        );
        assert(pending_views(out@) =~= held.push(low_alert(u@, region@, current as int)));
    }
    let ghost after_low = pending_views(out@);
    assert(after_low =~= after_high + if_due(
        low_due(db@, u@, current as int, now as int),
        low_alert(u@, region@, current as int),
    ));
    if current <= u.high_alert {
        let was_high = db.was_alert_sent_recently(u.chat_id, "high_price", 180, now);
        let already_cleared = db.was_alert_sent_recently(u.chat_id, "all_clear", 60, now);
        if was_high && !already_cleared {
            let peak = match daily_range {
                Some((lo, hi)) => Some(hi),
                None => None,
            };
            let ghost held = pending_views(out@);
            out.push(
                PendingAlert {
                    chat_id: u.chat_id,
                    text: format_all_clear(region, current, peak),
                    alert_type: String::from_str("all_clear"),
                    price: current,
                    region: region.to_owned(),
                },
            );
            assert(pending_views(out@) =~= held.push(
                all_clear_alert(u@, region@, current as int, range),
            ));
        }
    }
    assert(pending_views(out@) =~= after_low + if_due(
        all_clear_due(db@, u@, current as int, now as int),
        all_clear_alert(u@, region@, current as int, range),
    ));
}

fn push_threshold_alerts(
    out: &mut Vec<PendingAlert>,
    db: &Db,
    users: &Vec<User>,
    region: &str,
    current: i64,
    daily_range: Option<(i64, i64)>,
    now: i64,
)
    ensures
        pending_views(final(out)@) == pending_views(old(out)@) + threshold_alerts(
            db@,
            user_views(users@),
            region@,
            current as int,
            range_of(daily_range),
            now as int,
        ),
{
    let ghost range = range_of(daily_range);
    let ghost all = user_views(users@);
    let mut i: usize = 0;
    assert(all.take(0) =~= Seq::<UserView>::empty());
    assert(pending_views(out@) + Seq::<PendingAlertView>::empty() =~= pending_views(out@));
    while i < users.len()
        invariant
            i <= users@.len(),
            all == user_views(users@),
            range == range_of(daily_range),
            pending_views(out@) == pending_views(old(out)@) + threshold_alerts(
                db@,
                all.take(i as int),
                region@,
                current as int,
                range,
                now as int,
            ),
        decreases users@.len() - i,
    {
        proof {
            let t = all.take(i + 1);
            assert(t.drop_last() =~= all.take(i as int));
            assert(t.last() == users@[i as int]@);
        }
        let ghost held = pending_views(out@);
        push_user_alerts(out, db, &users[i], region, current, daily_range, now);
        proof {
            let before = threshold_alerts(
                db@,
                all.take(i as int),
                region@,
                current as int,
                range,
                now as int,
            );
            let these = user_alerts(db@, users@[i as int]@, region@, current as int, range, now as int);
            assert((pending_views(old(out)@) + before) + these =~= pending_views(old(out)@) + (
            before + these));
        }
        i += 1;
    }
    assert(all.take(i as int) =~= all);
}

/// The alerts that a batch of new prices calls for, given the store that
/// holds them already. Reads the store and changes nothing: price by price,
/// first the spike alerts, then for each active user of the region the
/// high-price alert, the low-price alert and the all-clear, each where due.
pub fn analyze(db: &Db, prices: &[PriceRecord], now: &Clock) -> (alerts: Vec<PendingAlert>)
    requires
        now.wf(),
    ensures
        pending_views(alerts@) == analysis(
            db@,
            price_record_views(prices@),
            date_text(now.local),
            now.unix as int,
        ),
        prices@.len() == 0 ==> alerts@.len() == 0,
{
    let mut out: Vec<PendingAlert> = Vec::new();
    let today = format_date(&now.local);
    let ghost recs = price_record_views(prices@);
    let mut k: usize = 0;
    assert(recs.take(0) =~= Seq::<PriceRecordView>::empty());
    assert(pending_views(out@) =~= Seq::<PendingAlertView>::empty());
    while k < prices.len()
        invariant
            k <= prices@.len(),
            recs == price_record_views(prices@),
            today@ == date_text(now.local),
            pending_views(out@) == analysis(db@, recs.take(k as int), today@, now.unix as int),
            prices@.len() == 0 ==> out@.len() == 0,
        decreases prices@.len() - k,
    {
        proof {
            let t = recs.take(k + 1);
            assert(t.drop_last() =~= recs.take(k as int));
            assert(t.last() == prices@[k as int]@);
        }
        let rec = &prices[k];
        let region = rec.region.as_str();
        let current = rec.price;
        let users = db.get_active_users_by_region(region);
        let ghost start = pending_views(out@);
        match db.get_previous_price(region) {
            Some(prev) => {
                if is_spike_move(prev, current) {
                    push_spike_alerts(&mut out, db, &users, region, prev, current, now.unix);
                } else {
                    assert(start + Seq::<PendingAlertView>::empty() =~= start);
                }
            },
            None => {
                assert(start + Seq::<PendingAlertView>::empty() =~= start);
            },
        }
        let ghost mid = pending_views(out@);
        let daily_range = db.get_daily_range(region, today.as_str());
        push_threshold_alerts(&mut out, db, &users, region, current, daily_range, now.unix);
        proof {
            let these = record_alerts(db@, rec@, today@, now.unix as int);
            assert(pending_views(out@) =~= start + these);
        }
        k += 1;
    }
    assert(recs.take(k as int) =~= recs);
    out
}

/// The warning of one forecast for a user.
pub open spec fn forecast_alert(
    u: UserView,
    region: Seq<char>,
    forecast: (Seq<char>, int),
    current: int,
) -> PendingAlertView {
    PendingAlertView {
        chat_id: u.chat_id,
        text: forecast_alert_text(region, forecast.1, forecast.0, current),
        alert_type: "forecast"@,
        price: forecast.1,
        region: region,
    }
}

/// The warnings of one forecast for `users`, in their order: one for each
/// whose high threshold the forecast exceeds and who may get one.
pub open spec fn forecast_user_alerts(
    db: DbView,
    users: Seq<UserView>,
    region: Seq<char>,
    forecast: (Seq<char>, int),
    current: int,
    now: int,
) -> Seq<PendingAlertView>
    decreases users.len(),
{
    if users.len() == 0 {
        Seq::empty()
    } else {
        let rest = forecast_user_alerts(db, users.drop_last(), region, forecast, current, now);
        if forecast.1 > users.last().high_alert && may_alert(
            db,
            users.last().chat_id,
            "forecast"@,
            60,
            now,
        ) {
            rest.push(forecast_alert(users.last(), region, forecast, current))
        } else {
            rest
        }
    }
}

/// The warnings of `forecasts`, forecast by forecast in their order.
pub open spec fn forecast_alerts_for(
    db: DbView,
    users: Seq<UserView>,
    region: Seq<char>,
    forecasts: Seq<(Seq<char>, int)>,
    current: int,
    now: int,
) -> Seq<PendingAlertView>
    decreases forecasts.len(),
{
    if forecasts.len() == 0 {
        Seq::empty()
    } else {
        forecast_alerts_for(db, users, region, forecasts.drop_last(), current, now)
            + forecast_user_alerts(db, users, region, forecasts.last(), current, now)
    }
}

/// The warnings for a region from the stored forecasts for the times after
/// `after` and up to `before`.
pub open spec fn forecast_analysis(
    db: DbView,
    region: Seq<char>,
    current: int,
    after: Seq<char>,
    before: Seq<char>,
    now: int,
) -> Seq<PendingAlertView> {
    forecast_alerts_for(
        db,
        db.active_users_by_region(region),
        region,
        db.forecasts(region, after, before),
        current,
        now,
    )
}

fn push_forecast_user_alerts(
    out: &mut Vec<PendingAlert>,
    db: &Db,
    users: &Vec<User>,
    region: &str,
    forecast: &(String, i64),
    current: i64,
    now: i64,
)
    ensures
        pending_views(final(out)@) == pending_views(old(out)@) + forecast_user_alerts(
            db@,
            user_views(users@),
            region@,
            (forecast.0@, forecast.1 as int),
            current as int,
            now as int,
        ),
{
    let ghost all = user_views(users@);
    let ghost fc = (forecast.0@, forecast.1 as int);
    let mut i: usize = 0;
    assert(all.take(0) =~= Seq::<UserView>::empty());
    assert(pending_views(out@) + Seq::<PendingAlertView>::empty() =~= pending_views(out@));
    while i < users.len()
        invariant
            i <= users@.len(),
            all == user_views(users@),
            fc == (forecast.0@, forecast.1 as int),
            pending_views(out@) == pending_views(old(out)@) + forecast_user_alerts(
                db@,
                all.take(i as int),
                region@,
                fc,
                current as int,
                now as int,
            ),
        decreases users@.len() - i,
    {
        proof {
            let t = all.take(i + 1);
            assert(t.drop_last() =~= all.take(i as int));
            assert(t.last() == users@[i as int]@);
        }
        let u = &users[i];
        if forecast.1 > u.high_alert && can_alert(db, u.chat_id, "forecast", 60, now) {
            let ghost held = pending_views(out@);
            out.push(
                PendingAlert {
                    chat_id: u.chat_id,
                    text: format_forecast_alert(region, forecast.1, forecast.0.as_str(), current),
                    alert_type: String::from_str("forecast"),
                    price: forecast.1,
                    region: region.to_owned(),
                },
            );
            proof {
                let one = forecast_alert(u@, region@, fc, current as int);
                assert(pending_views(out@) =~= held.push(one));
                let before = forecast_user_alerts(
                    db@,
                    all.take(i as int),
                    region@,
                    fc,
                    current as int,
                    now as int,
                );
                assert(held.push(one) =~= pending_views(old(out)@) + before.push(one));
            }
        }
        i += 1;
    }
    assert(all.take(i as int) =~= all);
}

/// The warnings for a region from the stored forecasts for the times after
/// `after` and up to `before`: forecast by forecast in the order of their
/// times, one warning for each active user of the region whose high
/// threshold the forecast exceeds and who may get one.
pub fn forecast_alerts(
    db: &Db,
    region: &str,
    current_price: i64,
    after: &str,
    before: &str,
    now: i64,
) -> (alerts: Vec<PendingAlert>)
    ensures
        pending_views(alerts@) == forecast_analysis(
            db@,
            region@,
            current_price as int,
            after@,
            before@,
            now as int,
        ),
{
    let mut out: Vec<PendingAlert> = Vec::new();
    let forecasts = db.get_forecasts(region, after, before);
    let users = db.get_active_users_by_region(region);
    let ghost all = entry_views(forecasts@);
    let mut k: usize = 0;
    assert(all.take(0) =~= Seq::<(Seq<char>, int)>::empty());
    assert(pending_views(out@) =~= Seq::<PendingAlertView>::empty());
    while k < forecasts.len()
        invariant
            k <= forecasts@.len(),
            all == entry_views(forecasts@),
            pending_views(out@) == forecast_alerts_for(
                db@,
                user_views(users@),
                region@,
                all.take(k as int),
                current_price as int,
                now as int,
            ),
        decreases forecasts@.len() - k,
    {
        proof {
            let t = all.take(k + 1);
            assert(t.drop_last() =~= all.take(k as int));
            assert(t.last() == (forecasts@[k as int].0@, forecasts@[k as int].1 as int));
        }
        push_forecast_user_alerts(
            &mut out,
            db,
            &users,
            region,
            &forecasts[k],
            current_price,
            now,
        );
        k += 1;
    }
    assert(all.take(k as int) =~= all);
    out
}

/// What `analyze_forecasts` returns, given the market time an hour after `now`.
pub open spec fn forecast_round(
    db: DbView,
    region: Seq<char>,
    current: int,
    now: Clock,
    later: Option<crate::clock::MarketTime>,
) -> Seq<PendingAlertView> {
    match later {
        Some(t) => forecast_analysis(
            db,
            region,
            current,
            datetime_text(now.local),
            datetime_text(t),
            now.unix as int,
        ),
        None => Seq::empty(),
    }
}

/// The warnings for a region from the forecasts for the hour that begins
/// at `now`. Where the calendar does not reach an hour past `now`, none.
pub fn analyze_forecasts(db: &Db, region: &str, current_price: i64, now: &Clock) -> (alerts: Vec<
    PendingAlert,
>)
    requires
        now.wf(),
    ensures
        pending_views(alerts@) == forecast_round(
            db@,
            region@,
            current_price as int,
            *now,
            if now.unix + 3600 <= i64::MAX {
                four_digit_year(brisbane_time(now.unix + 3600))
            } else {
                None
            },
        ),
{
    let later = match now.unix.checked_add(3600) {
        Some(t) => market_time(t),
        None => None,
    };
    match later {
        Some(t) => {
            let after = format_datetime(&now.local);
            let before = format_datetime(&t);
            forecast_alerts(db, region, current_price, after.as_str(), before.as_str(), now.unix)
        },
        None => {
            let out: Vec<PendingAlert> = Vec::new();
            assert(pending_views(out@) =~= Seq::<PendingAlertView>::empty());
            out
        },
    }
}

/// A price exactly at the high threshold calls for no high-price alert, the
/// comparison being strict; and where a high-price alert went out in the
/// last three hours and no all-clear in the last hour, the all-clear is due
/// and is the last of the user's alerts.
pub proof fn lemma_price_at_threshold(
    db: DbView,
    u: UserView,
    region: Seq<char>,
    daily_range: Option<(int, int)>,
    now: int,
)
    ensures
        !high_due(db, u, u.high_alert, now),
        forall|k: int|
            0 <= k < user_alerts(db, u, region, u.high_alert, daily_range, now).len()
                ==> user_alerts(db, u, region, u.high_alert, daily_range, now)[k].alert_type
                != "high_price"@,
        db.was_alert_sent_recently(u.chat_id, "high_price"@, 180, now)
            && !db.was_alert_sent_recently(u.chat_id, "all_clear"@, 60, now) ==> user_alerts(
            db,
            u,
            region,
            u.high_alert,
            daily_range,
            now,
        ).len() > 0 && user_alerts(db, u, region, u.high_alert, daily_range, now).last()
            == all_clear_alert(u, region, u.high_alert, daily_range),
{
    reveal_strlit("high_price");
    reveal_strlit("low_price");
    reveal_strlit("all_clear");
    assert("low_price"@.len() != "high_price"@.len());
    assert("all_clear"@.len() != "high_price"@.len());
}

/// A batch without prices calls for no alert.
pub proof fn lemma_no_prices_no_alerts(db: DbView, today: Seq<char>, now: int)
    ensures
        analysis(db, Seq::<PriceRecordView>::empty(), today, now).len() == 0,
{
}

/// The minutes within which no second alert of a type goes to a chat: 30
/// for prices and spikes, 60 for the all-clear and for forecasts.
pub open spec fn dedup_minutes(alert_type: Seq<char>) -> int {
    if alert_type == "all_clear"@ || alert_type == "forecast"@ {
        60
    } else {
        30
    }
}

/// Whether no alert of the type and chat of `a` went out within the
/// minutes of that type before `now`.
pub open spec fn is_fresh(db: DbView, a: PendingAlertView, now: int) -> bool {
    !db.was_alert_sent_recently(a.chat_id, a.alert_type, dedup_minutes(a.alert_type), now)
}

/// Whether every alert of a list is fresh.
pub open spec fn all_fresh(db: DbView, alerts: Seq<PendingAlertView>, now: int) -> bool {
    forall|k: int| 0 <= k < alerts.len() ==> is_fresh(db, #[trigger] alerts[k], now)
}

proof fn lemma_alert_types_differ()
    ensures
        dedup_minutes("spike"@) == 30,
        dedup_minutes("high_price"@) == 30,
        dedup_minutes("low_price"@) == 30,
        dedup_minutes("all_clear"@) == 60,
        dedup_minutes("forecast"@) == 60,
{
    reveal_strlit("spike");
    reveal_strlit("high_price");
    reveal_strlit("low_price");
    reveal_strlit("all_clear");
    reveal_strlit("forecast");
    assert("spike"@.len() == 5);
    assert("high_price"@.len() == 10);
    assert("low_price"@.len() == 9);
    assert("all_clear"@.len() == 9);
    assert("forecast"@.len() == 8);
    assert("low_price"@[0] != "all_clear"@[0]);
}

proof fn lemma_spike_alerts_fresh(
    db: DbView,
    users: Seq<UserView>,
    region: Seq<char>,
    prev: int,
    current: int,
    now: int,
)
    ensures
        all_fresh(db, spike_alerts(db, users, region, prev, current, now), now),
    decreases users.len(),
{
    lemma_alert_types_differ();
    if users.len() > 0 {
        lemma_spike_alerts_fresh(db, users.drop_last(), region, prev, current, now);
    }
}

proof fn lemma_threshold_alerts_fresh(
    db: DbView,
    users: Seq<UserView>,
    region: Seq<char>,
    current: int,
    daily_range: Option<(int, int)>,
    now: int,
)
    ensures
        all_fresh(db, threshold_alerts(db, users, region, current, daily_range, now), now),
    decreases users.len(),
{
    lemma_alert_types_differ();
    if users.len() > 0 {
        lemma_threshold_alerts_fresh(db, users.drop_last(), region, current, daily_range, now);
    }
}

proof fn lemma_forecast_user_alerts_fresh(
    db: DbView,
    users: Seq<UserView>,
    region: Seq<char>,
    forecast: (Seq<char>, int),
    current: int,
    now: int,
)
    ensures
        all_fresh(db, forecast_user_alerts(db, users, region, forecast, current, now), now),
    decreases users.len(),
{
    lemma_alert_types_differ();
    if users.len() > 0 {
        lemma_forecast_user_alerts_fresh(db, users.drop_last(), region, forecast, current, now);
    }
}

proof fn lemma_forecast_alerts_fresh(
    db: DbView,
    users: Seq<UserView>,
    region: Seq<char>,
    forecasts: Seq<(Seq<char>, int)>,
    current: int,
    now: int,
)
    ensures
        all_fresh(db, forecast_alerts_for(db, users, region, forecasts, current, now), now),
    decreases forecasts.len(),
{
    if forecasts.len() > 0 {
        lemma_forecast_alerts_fresh(db, users, region, forecasts.drop_last(), current, now);
        lemma_forecast_user_alerts_fresh(db, users, region, forecasts.last(), current, now);
    }
}

/// Every alert that a batch of prices calls for is the first of its type
/// for its chat within the minutes of that type: the log holds none of the
/// type and chat that is younger.
pub proof fn lemma_analysis_repeats_nothing(
    db: DbView,
    prices: Seq<PriceRecordView>,
    today: Seq<char>,
    now: int,
)
    ensures
        all_fresh(db, analysis(db, prices, today, now), now),
    decreases prices.len(),
{
    if prices.len() > 0 {
        lemma_analysis_repeats_nothing(db, prices.drop_last(), today, now);
        let rec = prices.last();
        let users = db.active_users_by_region(rec.region);
        match db.previous_price(rec.region) {
            Some(prev) => {
                lemma_spike_alerts_fresh(db, users, rec.region, prev, rec.price, now);
            },
            None => {},
        }
        lemma_threshold_alerts_fresh(
            db,
            users,
            rec.region,
            rec.price,
            db.daily_range(rec.region, today),
            now,
        );
    }
}

/// Every warning that the forecasts call for is the first forecast warning
/// for its chat within an hour.
pub proof fn lemma_forecast_analysis_repeats_nothing(
    db: DbView,
    region: Seq<char>,
    current: int,
    after: Seq<char>,
    before: Seq<char>,
    now: int,
)
    ensures
        all_fresh(db, forecast_analysis(db, region, current, after, before, now), now),
{
    lemma_forecast_alerts_fresh(
        db,
        db.active_users_by_region(region),
        region,
        db.forecasts(region, after, before),
        current,
        now,
    );
}

/// Whether the chat of `a` has had fewer than ten alerts in the last hour,
/// or `a` is an all-clear, which is held back by the log alone.
pub open spec fn under_cap(db: DbView, a: PendingAlertView, now: int) -> bool {
    a.alert_type == "all_clear"@ || db.count_alerts_this_hour(a.chat_id, now) < HOURLY_CAP
}

/// Whether every alert of a list is under the cap.
pub open spec fn all_under_cap(db: DbView, alerts: Seq<PendingAlertView>, now: int) -> bool {
    forall|k: int| 0 <= k < alerts.len() ==> under_cap(db, #[trigger] alerts[k], now)
}

proof fn lemma_spike_alerts_under_cap(
    db: DbView,
    users: Seq<UserView>,
    region: Seq<char>,
    prev: int,
    current: int,
    now: int,
)
    ensures
        all_under_cap(db, spike_alerts(db, users, region, prev, current, now), now),
    decreases users.len(),
{
    if users.len() > 0 {
        lemma_spike_alerts_under_cap(db, users.drop_last(), region, prev, current, now);
    }
}

proof fn lemma_threshold_alerts_under_cap(
    db: DbView,
    users: Seq<UserView>,
    region: Seq<char>,
    current: int,
    daily_range: Option<(int, int)>,
    now: int,
)
    ensures
        all_under_cap(db, threshold_alerts(db, users, region, current, daily_range, now), now),
    decreases users.len(),
{
    if users.len() > 0 {
        lemma_threshold_alerts_under_cap(db, users.drop_last(), region, current, daily_range, now);
    }
}

/// No alert but an all-clear is called for where its chat has had ten
/// alerts in the last hour.
pub proof fn lemma_analysis_respects_cap(
    db: DbView,
    prices: Seq<PriceRecordView>,
    today: Seq<char>,
    now: int,
)
    ensures
        all_under_cap(db, analysis(db, prices, today, now), now),
    decreases prices.len(),
{
    if prices.len() > 0 {
        lemma_analysis_respects_cap(db, prices.drop_last(), today, now);
        let rec = prices.last();
        let users = db.active_users_by_region(rec.region);
        match db.previous_price(rec.region) {
            Some(prev) => {
                lemma_spike_alerts_under_cap(db, users, rec.region, prev, rec.price, now);
            },
            None => {},
        }
        lemma_threshold_alerts_under_cap(
            db,
            users,
            rec.region,
            rec.price,
            db.daily_range(rec.region, today),
            now,
        );
    }
}

impl Clone for PendingAlert {
    fn clone(&self) -> (r: Self)
        ensures
            r@ == self@,
    {
        PendingAlert {
            chat_id: self.chat_id,
            text: self.text.clone(),
            alert_type: self.alert_type.clone(),
            price: self.price,
            region: self.region.clone(),
        }
    }
}

/// Whether the store holds an active user of this chat and region.
pub open spec fn is_active_user_of(db: DbView, chat_id: int, region: Seq<char>) -> bool {
    exists|i: int|
        0 <= i < db.users.len() && (#[trigger] db.users[i]).chat_id == chat_id
            && db.users[i].is_active && db.users[i].region == region
}

/// Whether an alert is of one of the five types, and goes to a user who is
/// active and of the region that the alert is about.
pub open spec fn is_in_order(db: DbView, a: PendingAlertView) -> bool {
    &&& a.alert_type == "spike"@ || a.alert_type == "high_price"@ || a.alert_type
        == "low_price"@ || a.alert_type == "all_clear"@ || a.alert_type == "forecast"@
    &&& is_active_user_of(db, a.chat_id, a.region)
}

/// Whether every alert of a list is in order.
pub open spec fn all_in_order(db: DbView, alerts: Seq<PendingAlertView>) -> bool {
    forall|k: int| 0 <= k < alerts.len() ==> is_in_order(db, #[trigger] alerts[k])
}

/// Whether every user of a list is an active user of the store and of the
/// region.
spec fn are_users_of(db: DbView, list: Seq<UserView>, region: Seq<char>) -> bool {
    forall|k: int|
        0 <= k < list.len() ==> is_active_user_of(db, (#[trigger] list[k]).chat_id, region)
}

/// Whether the store holds this user.
spec fn is_user_of(db: DbView, u: UserView) -> bool {
    exists|j: int| 0 <= j < db.users.len() && #[trigger] db.users[j] == u
}

/// The active users of a region among users of the store are active users
/// of the store and of that region.
proof fn lemma_active_users_are_of_the_store(db: DbView, users: Seq<UserView>, region: Seq<char>)
    requires
        forall|i: int| 0 <= i < users.len() ==> is_user_of(db, #[trigger] users[i]),
    ensures
        are_users_of(db, active_users(users, region), region),
    decreases users.len(),
{
    if users.len() > 0 {
        let rest = users.drop_last();
        assert forall|i: int| 0 <= i < rest.len() implies is_user_of(db, #[trigger] rest[i]) by {
            assert(rest[i] == users[i]);
        }
        lemma_active_users_are_of_the_store(db, rest, region);
        let last = users[users.len() - 1];
        assert(last == users.last());
        assert(is_user_of(db, last));
        let j = choose|j: int| 0 <= j < db.users.len() && #[trigger] db.users[j] == last;
        if last.region == region && last.is_active {
            assert(db.users[j].chat_id == last.chat_id);
            assert(is_active_user_of(db, last.chat_id, region));
        }
    }
}

proof fn lemma_store_users_are_users(db: DbView)
    ensures
        forall|i: int| 0 <= i < db.users.len() ==> is_user_of(db, #[trigger] db.users[i]),
{
}

proof fn lemma_prefix_are_users(db: DbView, list: Seq<UserView>, region: Seq<char>)
    requires
        are_users_of(db, list, region),
        list.len() > 0,
    ensures
        are_users_of(db, list.drop_last(), region),
        is_active_user_of(db, list.last().chat_id, region),
{
    assert forall|k: int| 0 <= k < list.drop_last().len() implies is_active_user_of(
        db,
        (#[trigger] list.drop_last()[k]).chat_id,
        region,
    ) by {
        assert(list.drop_last()[k] == list[k]);
    }
    assert(list[list.len() - 1] == list.last());
}

proof fn lemma_spike_alerts_in_order(
    db: DbView,
    users: Seq<UserView>,
    region: Seq<char>,
    prev: int,
    current: int,
    now: int,
)
    requires
        are_users_of(db, users, region),
    ensures
        all_in_order(db, spike_alerts(db, users, region, prev, current, now)),
    decreases users.len(),
{
    if users.len() > 0 {
        lemma_prefix_are_users(db, users, region);
        lemma_spike_alerts_in_order(db, users.drop_last(), region, prev, current, now);
    }
}

proof fn lemma_threshold_alerts_in_order(
    db: DbView,
    users: Seq<UserView>,
    region: Seq<char>,
    current: int,
    daily_range: Option<(int, int)>,
    now: int,
)
    requires
        are_users_of(db, users, region),
    ensures
        all_in_order(db, threshold_alerts(db, users, region, current, daily_range, now)),
    decreases users.len(),
{
    if users.len() > 0 {
        lemma_prefix_are_users(db, users, region);
        lemma_threshold_alerts_in_order(db, users.drop_last(), region, current, daily_range, now);
    }
}

proof fn lemma_forecast_user_alerts_in_order(
    db: DbView,
    users: Seq<UserView>,
    region: Seq<char>,
    forecast: (Seq<char>, int),
    current: int,
    now: int,
)
    requires
        are_users_of(db, users, region),
    ensures
        all_in_order(db, forecast_user_alerts(db, users, region, forecast, current, now)),
    decreases users.len(),
{
    if users.len() > 0 {
        lemma_prefix_are_users(db, users, region);
        lemma_forecast_user_alerts_in_order(db, users.drop_last(), region, forecast, current, now);
    }
}

proof fn lemma_forecast_alerts_in_order(
    db: DbView,
    users: Seq<UserView>,
    region: Seq<char>,
    forecasts: Seq<(Seq<char>, int)>,
    current: int,
    now: int,
)
    requires
        are_users_of(db, users, region),
    ensures
        all_in_order(db, forecast_alerts_for(db, users, region, forecasts, current, now)),
    decreases forecasts.len(),
{
    if forecasts.len() > 0 {
        lemma_forecast_alerts_in_order(db, users, region, forecasts.drop_last(), current, now);
        lemma_forecast_user_alerts_in_order(db, users, region, forecasts.last(), current, now);
    }
}

/// Every alert that a batch of prices calls for is of one of the five
/// types, and goes to an active user of the region that it is about.
pub proof fn lemma_analysis_alerts_are_in_order(
    db: DbView,
    prices: Seq<PriceRecordView>,
    today: Seq<char>,
    now: int,
)
    ensures
        all_in_order(db, analysis(db, prices, today, now)),
    decreases prices.len(),
{
    if prices.len() > 0 {
        lemma_analysis_alerts_are_in_order(db, prices.drop_last(), today, now);
        let rec = prices.last();
        let users = db.active_users_by_region(rec.region);
        lemma_store_users_are_users(db);
        lemma_active_users_are_of_the_store(db, db.users, rec.region);
        match db.previous_price(rec.region) {
            Some(prev) => {
                lemma_spike_alerts_in_order(db, users, rec.region, prev, rec.price, now);
            },
            None => {},
        }
        lemma_threshold_alerts_in_order(
            db,
            users,
            rec.region,
            rec.price,
            db.daily_range(rec.region, today),
            now,
        );
    }
}

/// Every warning that the forecasts call for is a forecast warning to an
/// active user of the region.
pub proof fn lemma_forecast_alerts_are_in_order(
    db: DbView,
    region: Seq<char>,
    current: int,
    after: Seq<char>,
    before: Seq<char>,
    now: int,
)
    ensures
        all_in_order(db, forecast_analysis(db, region, current, after, before, now)),
{
    lemma_store_users_are_users(db);
    lemma_active_users_are_of_the_store(db, db.users, region);
    lemma_forecast_alerts_in_order(
        db,
        db.active_users_by_region(region),
        region,
        db.forecasts(region, after, before),
        current,
        now,
    );
}

} // verus!
