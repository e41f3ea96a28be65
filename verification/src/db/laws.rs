//! What holds of the store: its invariant, and its answers said without
//! the order in which they are searched for.

use vstd::prelude::*;
use crate::db::model::{
    alerts_since,
    recent_alerts,
    forecasts_after,
    in_window,
    lemma_window_shrinks,
    newest_two,
    next_forecast,
    of_day,
    peak_place,
    price_range,
    window_count,
    DbView,
};
use crate::db::rows::{AlertView, ForecastView, PriceView, HISTORY_RETENTION_SECS};
use crate::text::{
    lemma_text_lt_irreflexive,
    lemma_text_lt_total,
    lemma_text_lt_transitive,
    text_lt,
};

verus! {

/// A well-formed store holds at most one price for a region and an interval.
pub proof fn lemma_one_price_per_interval(db: DbView, i: int, j: int)
    requires
        db.wf(),
        0 <= i < db.prices.len(),
        0 <= j < db.prices.len(),
        db.prices[i].region == db.prices[j].region,
        db.prices[i].interval_time == db.prices[j].interval_time,
    ensures
        i == j,
{
    if i < j {
        assert(!(db.prices[i].region == db.prices[j].region && db.prices[i].interval_time
            == db.prices[j].interval_time));
    } else if j < i {
        assert(!(db.prices[j].region == db.prices[i].region && db.prices[j].interval_time
            == db.prices[i].interval_time));
    }
}

/// Writing a price keeps the store well-formed, whether the price is new
/// or not.
pub proof fn lemma_insert_price_keeps_wf(
    db: DbView,
    region: Seq<char>,
    price: int,
    interval_time: Seq<char>,
    now: int,
)
    requires
        db.wf(),
    ensures
        db.insert_price(region, price, interval_time, now).wf(),
{
    let after = db.insert_price(region, price, interval_time, now);
    if !db.has_price(region, interval_time) {
        assert forall|i: int, j: int| 0 <= i < j < after.prices.len() implies !(
        after.prices[i].region == after.prices[j].region && after.prices[i].interval_time
            == after.prices[j].interval_time) by {
            if j < db.prices.len() {
                assert(after.prices[i] == db.prices[i] && after.prices[j] == db.prices[j]);
            } else {
                assert(after.prices[i] == db.prices[i]);
            }
        }
    }
}

/// Rows of which none falls in a window give no next forecast.
pub proof fn lemma_empty_window_has_no_next(
    rows: Seq<ForecastView>,
    region: Seq<char>,
    after: Seq<char>,
    before: Seq<char>,
)
    requires
        forall|i: int| 0 <= i < rows.len() ==> !in_window(rows[i], region, after, before),
    ensures
        next_forecast(rows, region, after, before) is None,
    decreases rows.len(),
{
    if rows.len() > 0 {
        lemma_empty_window_has_no_next(rows.drop_last(), region, after, before);
    }
}

/// Of two forecasts of a region for one time from two publications, stored
/// where the window held no forecast of the region before, `get_forecasts`
/// gives exactly one: that of the later publication.
pub proof fn lemma_latest_publication_wins(
    db: DbView,
    region: Seq<char>,
    forecast_time: Seq<char>,
    first: (int, Seq<char>, int),
    second: (int, Seq<char>, int),
    after: Seq<char>,
    before: Seq<char>,
)
    requires
        first.1 != second.1,
        text_lt(after, forecast_time),
        !text_lt(before, forecast_time),
        forall|i: int|
            0 <= i < db.forecasts.len() ==> !in_window(db.forecasts[i], region, after, before),
    ensures
        text_lt(first.1, second.1) || text_lt(second.1, first.1),
        db.insert_forecast(region, forecast_time, first.0, first.1, first.2).insert_forecast(
            region,
            forecast_time,
            second.0,
            second.1,
            second.2,
        ).forecasts(region, after, before) == seq![
            (
                forecast_time,
                if text_lt(first.1, second.1) {
                    second.0
                } else {
                    first.0
                },
            ),
        ],
{
    lemma_text_lt_total(first.1, second.1);
    lemma_text_lt_irreflexive(forecast_time);
    let one = db.insert_forecast(region, forecast_time, first.0, first.1, first.2);
    let two = one.insert_forecast(region, forecast_time, second.0, second.1, second.2);
    let r1 = ForecastView {
        region: region,
        forecast_time: forecast_time,
        published_at: first.1,
        price: first.0,
        fetched_at: first.2,
    };
    let r2 = ForecastView {
        region: region,
        forecast_time: forecast_time,
        published_at: second.1,
        price: second.0,
        fetched_at: second.2,
    };
    assert(in_window(r1, region, after, before));
    assert(!db.has_forecast(region, forecast_time, first.1)) by {
        if db.has_forecast(region, forecast_time, first.1) {
            let i = choose|i: int|
                0 <= i < db.forecasts.len() && db.forecasts[i].region == region
                    && db.forecasts[i].forecast_time == forecast_time
                    && db.forecasts[i].published_at == first.1;
            assert(in_window(db.forecasts[i], region, after, before));
        }
    }
    assert(one.forecasts == db.forecasts.push(r1));
    assert(!one.has_forecast(region, forecast_time, second.1)) by {
        if one.has_forecast(region, forecast_time, second.1) {
            let i = choose|i: int|
                0 <= i < one.forecasts.len() && one.forecasts[i].region == region
                    && one.forecasts[i].forecast_time == forecast_time
                    && one.forecasts[i].published_at == second.1;
            if i < db.forecasts.len() {
                assert(in_window(db.forecasts[i], region, after, before));
            }
        }
    }
    let rows = two.forecasts;
    assert(rows == one.forecasts.push(r2));
    let n = db.forecasts.len() as int;
    assert(rows.drop_last() =~= one.forecasts);
    assert(one.forecasts.drop_last() =~= db.forecasts);
    lemma_empty_window_has_no_next(db.forecasts, region, after, before);
    assert(next_forecast(one.forecasts, region, after, before) == Some(n));
    let pick = if text_lt(first.1, second.1) {
        n + 1
    } else {
        n
    };
    assert(next_forecast(rows, region, after, before) == Some(pick));
    assert forall|i: int| 0 <= i < rows.len() implies !in_window(
        rows[i],
        region,
        forecast_time,
        before,
    ) by {
        if i < n {
            assert(rows[i] == db.forecasts[i]);
            if text_lt(forecast_time, rows[i].forecast_time) {
                lemma_text_lt_transitive(after, forecast_time, rows[i].forecast_time);
            }
        }
    }
    lemma_empty_window_has_no_next(rows, region, forecast_time, before);
    assert(rows[pick].forecast_time == forecast_time);
    let rest = forecasts_after(rows, region, forecast_time, before);
    assert(rest =~= Seq::<(Seq<char>, int)>::empty());
    assert(forecasts_after(rows, region, after, before) =~= seq![
        (rows[pick].forecast_time, rows[pick].price),
    ]);
}

/// Whether row `i` is, of the rows of its region for its time, the one
/// that was published last.
pub open spec fn is_latest_publication(rows: Seq<ForecastView>, i: int) -> bool {
    forall|j: int|
        0 <= j < rows.len() && (#[trigger] rows[j]).region == rows[i].region && rows[j].forecast_time
            == rows[i].forecast_time ==> !text_lt(rows[i].published_at, rows[j].published_at)
}

/// The row that comes next is of the earliest time in the window, and of
/// the rows for that time it is the one published last; and where no row
/// comes next, the window is empty.
pub proof fn lemma_next_forecast_is_earliest(
    rows: Seq<ForecastView>,
    region: Seq<char>,
    after: Seq<char>,
    before: Seq<char>,
)
    ensures
        match next_forecast(rows, region, after, before) {
            None => forall|i: int|
                0 <= i < rows.len() ==> !in_window(#[trigger] rows[i], region, after, before),
            Some(b) => {
                &&& 0 <= b < rows.len()
                &&& in_window(rows[b], region, after, before)
                &&& forall|i: int|
                    0 <= i < rows.len() && in_window(#[trigger] rows[i], region, after, before)
                        ==> !text_lt(rows[i].forecast_time, rows[b].forecast_time)
                &&& forall|i: int|
                    0 <= i < rows.len() && in_window(#[trigger] rows[i], region, after, before)
                        && rows[i].forecast_time == rows[b].forecast_time ==> !text_lt(
                        rows[b].published_at,
                        rows[i].published_at,
                    )
            },
        },
    decreases rows.len(),
{
    if rows.len() > 0 {
        let rest = rows.drop_last();
        let n = rows.len() - 1;
        lemma_next_forecast_is_earliest(rest, region, after, before);
        assert(forall|i: int| 0 <= i < n ==> rest[i] == rows[i]);
        let last = rows[n];
        lemma_text_lt_irreflexive(last.forecast_time);
        lemma_text_lt_irreflexive(last.published_at);
        match next_forecast(rest, region, after, before) {
            None => {},
            Some(b) => {
                if in_window(last, region, after, before) {
                    let held = rows[b];
                    if text_lt(last.forecast_time, held.forecast_time) {
                        assert forall|i: int|
                            0 <= i < rows.len() && in_window(
                                #[trigger] rows[i],
                                region,
                                after,
                                before,
                            ) implies !text_lt(rows[i].forecast_time, last.forecast_time) by {
                            if i < n && text_lt(rows[i].forecast_time, last.forecast_time) {
                                lemma_text_lt_transitive(
                                    rows[i].forecast_time,
                                    last.forecast_time,
                                    held.forecast_time,
                                );
                            }
                        }
                    } else if last.forecast_time == held.forecast_time && text_lt(
                        held.published_at,
                        last.published_at,
                    ) {
                        assert forall|i: int|
                            0 <= i < rows.len() && in_window(
                                #[trigger] rows[i],
                                region,
                                after,
                                before,
                            ) && rows[i].forecast_time == last.forecast_time implies !text_lt(
                            last.published_at,
                            rows[i].published_at,
                        ) by {
                            if i < n && text_lt(last.published_at, rows[i].published_at) {
                                lemma_text_lt_transitive(
                                    held.published_at,
                                    last.published_at,
                                    rows[i].published_at,
                                );
                            }
                        }
                    }
                }
            },
        }
    }
}

/// What `get_forecasts` gives, said without the order of the search: every
/// entry is the time and price of a row of the window, the one published
/// last for its time; the times rise from entry to entry; and no time of
/// the window is left out.
pub proof fn lemma_forecasts_are_the_window(
    rows: Seq<ForecastView>,
    region: Seq<char>,
    after: Seq<char>,
    before: Seq<char>,
)
    ensures
        forall|k: int|
            0 <= k < forecasts_after(rows, region, after, before).len() ==> exists|i: int|
                0 <= i < rows.len() && in_window(rows[i], region, after, before)
                    && is_latest_publication(rows, i) && #[trigger] forecasts_after(
                    rows,
                    region,
                    after,
                    before,
                )[k] == (rows[i].forecast_time, rows[i].price),
        forall|k: int, l: int|
            0 <= k < l < forecasts_after(rows, region, after, before).len() ==> text_lt(
                forecasts_after(rows, region, after, before)[k].0,
                forecasts_after(rows, region, after, before)[l].0,
            ),
        forall|i: int|
            0 <= i < rows.len() && in_window(#[trigger] rows[i], region, after, before)
                ==> exists|k: int|
                0 <= k < forecasts_after(rows, region, after, before).len() && forecasts_after(
                    rows,
                    region,
                    after,
                    before,
                )[k].0 == rows[i].forecast_time,
        forall|k: int|
            0 <= k < forecasts_after(rows, region, after, before).len() ==> text_lt(
                after,
                #[trigger] forecasts_after(rows, region, after, before)[k].0,
            ),
    decreases window_count(rows, region, after, before),
{
    let all = forecasts_after(rows, region, after, before);
    lemma_next_forecast_is_earliest(rows, region, after, before);
    match next_forecast(rows, region, after, before) {
        None => {},
        Some(b) => {
            let t = rows[b].forecast_time;
            let rest = forecasts_after(rows, region, t, before);
            lemma_window_shrinks(rows, region, after, before, b);
            lemma_forecasts_are_the_window(rows, region, t, before);
            assert(all =~= seq![(t, rows[b].price)] + rest);
            assert(all[0] == (t, rows[b].price));
            assert forall|k: int| 1 <= k < all.len() implies all[k] == rest[k - 1] by {}
            assert(is_latest_publication(rows, b)) by {
                assert forall|j: int|
                    0 <= j < rows.len() && (#[trigger] rows[j]).region == rows[b].region
                        && rows[j].forecast_time == rows[b].forecast_time implies !text_lt(
                    rows[b].published_at,
                    rows[j].published_at,
                ) by {
                    assert(in_window(rows[j], region, after, before));
                }
            }
            assert forall|k: int| 0 <= k < all.len() implies exists|i: int|
                0 <= i < rows.len() && in_window(rows[i], region, after, before)
                    && is_latest_publication(rows, i) && #[trigger] all[k] == (
                    rows[i].forecast_time,
                    rows[i].price,
                ) by {
                if k == 0 {
                    assert(all[0] == (rows[b].forecast_time, rows[b].price));
                } else {
                    let i = choose|i: int|
                        0 <= i < rows.len() && in_window(rows[i], region, t, before)
                            && is_latest_publication(rows, i) && rest[k - 1] == (
                            rows[i].forecast_time,
                            rows[i].price,
                        );
                    lemma_text_lt_transitive(after, t, rows[i].forecast_time);
                    assert(in_window(rows[i], region, after, before));
                    assert(all[k] == (rows[i].forecast_time, rows[i].price));
                }
            }
            assert forall|k: int| 0 <= k < all.len() implies text_lt(after, #[trigger] all[k].0) by {
                if k > 0 {
                    assert(text_lt(t, rest[k - 1].0));
                    lemma_text_lt_transitive(after, t, rest[k - 1].0);
                }
            }
            assert forall|k: int, l: int| 0 <= k < l < all.len() implies text_lt(
                all[k].0,
                all[l].0,
            ) by {
                if k == 0 {
                    assert(text_lt(t, rest[l - 1].0));
                } else {
                    assert(text_lt(rest[k - 1].0, rest[l - 1].0));
                }
            }
            assert forall|i: int|
                0 <= i < rows.len() && in_window(
                    #[trigger] rows[i],
                    region,
                    after,
                    before,
                ) implies exists|k: int| 0 <= k < all.len() && all[k].0 == rows[i].forecast_time by {
                lemma_text_lt_total(t, rows[i].forecast_time);
                if rows[i].forecast_time == t {
                    assert(all[0].0 == rows[i].forecast_time);
                } else {
                    assert(in_window(rows[i], region, t, before));
                    let k = choose|k: int|
                        0 <= k < rest.len() && rest[k].0 == rows[i].forecast_time;
                    assert(all[k + 1].0 == rows[i].forecast_time);
                }
            }
        },
    }
}

/// What `get_latest_price` and `get_previous_price` go by, said without the
/// order of the search: no row of the region has a later interval time than
/// the latest, and none but the latest has a later one than the latest but
/// one; and a region with one row has no latest but one.
pub proof fn lemma_newest_two_are_newest(prices: Seq<PriceView>, region: Seq<char>)
    ensures
        match newest_two(prices, region) {
            (None, second) => second is None && forall|i: int|
                0 <= i < prices.len() ==> (#[trigger] prices[i]).region != region,
            (Some(a), None) => 0 <= a < prices.len() && prices[a].region == region && forall|
                i: int,
            |
                0 <= i < prices.len() && (#[trigger] prices[i]).region == region ==> i == a,
            (Some(a), Some(b)) => {
                &&& 0 <= a < prices.len() && 0 <= b < prices.len() && a != b
                &&& prices[a].region == region && prices[b].region == region
                &&& forall|i: int|
                    0 <= i < prices.len() && (#[trigger] prices[i]).region == region ==> !text_lt(
                        prices[a].interval_time,
                        prices[i].interval_time,
                    )
                &&& forall|i: int|
                    0 <= i < prices.len() && i != a && (#[trigger] prices[i]).region == region
                        ==> !text_lt(prices[b].interval_time, prices[i].interval_time)
            },
        },
    decreases prices.len(),
{
    if prices.len() > 0 {
        let rest = prices.drop_last();
        let n = prices.len() - 1;
        lemma_newest_two_are_newest(rest, region);
        assert(forall|i: int| 0 <= i < n ==> rest[i] == prices[i]);
        let last = prices[n];
        lemma_text_lt_irreflexive(last.interval_time);
        if last.region == region {
            match newest_two(rest, region) {
                (None, _) => {},
                (Some(a), second) => {
                    let first = prices[a];
                    lemma_text_lt_irreflexive(first.interval_time);
                    if text_lt(first.interval_time, last.interval_time) {
                        assert forall|i: int|
                            0 <= i < prices.len() && (#[trigger] prices[i]).region
                                == region implies !text_lt(
                            last.interval_time,
                            prices[i].interval_time,
                        ) by {
                            if i < n && text_lt(last.interval_time, prices[i].interval_time) {
                                lemma_text_lt_transitive(
                                    first.interval_time,
                                    last.interval_time,
                                    prices[i].interval_time,
                                );
                            }
                        }
                    } else {
                        match second {
                            None => {},
                            Some(b) => {
                                let held = prices[b];
                                if text_lt(held.interval_time, last.interval_time) {
                                    assert forall|i: int|
                                        0 <= i < prices.len() && i != a && (
                                        #[trigger] prices[i]).region == region implies !text_lt(
                                        last.interval_time,
                                        prices[i].interval_time,
                                    ) by {
                                        if i < n && text_lt(
                                            last.interval_time,
                                            prices[i].interval_time,
                                        ) {
                                            lemma_text_lt_transitive(
                                                held.interval_time,
                                                last.interval_time,
                                                prices[i].interval_time,
                                            );
                                        }
                                    }
                                }
                            },
                        }
                    }
                },
            }
        }
    }
}

/// What `get_daily_range` gives, said without the order of the search:
/// both prices are prices of the day, and every price of the day lies
/// between them; and it gives nothing exactly where the day has no price.
pub proof fn lemma_price_range_bounds(
    prices: Seq<PriceView>,
    region: Seq<char>,
    date_prefix: Seq<char>,
)
    ensures
        match price_range(prices, region, date_prefix) {
            None => forall|i: int|
                0 <= i < prices.len() ==> !of_day(#[trigger] prices[i], region, date_prefix),
            Some((lo, hi)) => {
                &&& exists|i: int|
                    0 <= i < prices.len() && of_day(#[trigger] prices[i], region, date_prefix)
                        && prices[i].price == lo
                &&& exists|i: int|
                    0 <= i < prices.len() && of_day(#[trigger] prices[i], region, date_prefix)
                        && prices[i].price == hi
                &&& forall|i: int|
                    0 <= i < prices.len() && of_day(#[trigger] prices[i], region, date_prefix)
                        ==> lo <= prices[i].price <= hi
            },
        },
    decreases prices.len(),
{
    if prices.len() > 0 {
        let rest = prices.drop_last();
        let n = prices.len() - 1;
        lemma_price_range_bounds(rest, region, date_prefix);
        assert(forall|i: int| 0 <= i < n ==> rest[i] == prices[i]);
        match price_range(rest, region, date_prefix) {
            None => {
                if of_day(prices[n], region, date_prefix) {
                    assert(of_day(prices[n], region, date_prefix) && prices[n].price
                        == prices[n].price);
                }
            },
            Some((lo, hi)) => {
                let i_lo = choose|i: int|
                    0 <= i < rest.len() && of_day(#[trigger] rest[i], region, date_prefix)
                        && rest[i].price == lo;
                let i_hi = choose|i: int|
                    0 <= i < rest.len() && of_day(#[trigger] rest[i], region, date_prefix)
                        && rest[i].price == hi;
                assert(of_day(prices[i_lo], region, date_prefix) && prices[i_lo].price == lo);
                assert(of_day(prices[i_hi], region, date_prefix) && prices[i_hi].price == hi);
                if of_day(prices[n], region, date_prefix) {
                    assert(prices[n].price == prices[n].price);
                }
            },
        }
    }
}

/// What `get_daily_peak_time` goes by, said without the order of the
/// search: no price of the day is higher than that of the peak row, and
/// every price of the day stored before it is lower.
pub proof fn lemma_peak_place_is_first_highest(
    prices: Seq<PriceView>,
    region: Seq<char>,
    date_prefix: Seq<char>,
)
    ensures
        match peak_place(prices, region, date_prefix) {
            None => forall|i: int|
                0 <= i < prices.len() ==> !of_day(#[trigger] prices[i], region, date_prefix),
            Some(b) => {
                &&& 0 <= b < prices.len() && of_day(prices[b], region, date_prefix)
                &&& forall|i: int|
                    0 <= i < prices.len() && of_day(#[trigger] prices[i], region, date_prefix)
                        ==> prices[i].price <= prices[b].price
                &&& forall|i: int|
                    0 <= i < b && of_day(#[trigger] prices[i], region, date_prefix)
                        ==> prices[i].price < prices[b].price
            },
        },
    decreases prices.len(),
{
    if prices.len() > 0 {
        let rest = prices.drop_last();
        lemma_peak_place_is_first_highest(rest, region, date_prefix);
        assert(forall|i: int| 0 <= i < prices.len() - 1 ==> rest[i] == prices[i]);
    }
}
/// Dropping the alerts sent before `cutoff` changes no count of the alerts
/// sent after an instant that is not before the last second before `cutoff`.
pub proof fn lemma_recent_alerts_count_the_same(
    alerts: Seq<AlertView>,
    cutoff: int,
    chat_id: int,
    after: int,
)
    requires
        after >= cutoff - 1,
    ensures
        alerts_since(recent_alerts(alerts, cutoff), chat_id, after) == alerts_since(
            alerts,
            chat_id,
            after,
        ),
    decreases alerts.len(),
{
    if alerts.len() > 0 {
        lemma_recent_alerts_count_the_same(alerts.drop_last(), cutoff, chat_id, after);
        let kept = recent_alerts(alerts.drop_last(), cutoff);
        if alerts.last().sent_at >= cutoff {
            assert(kept.push(alerts.last()).drop_last() =~= kept);
        }
    }
}

/// The sweep leaves the counts that the cap goes by as they were: those of
/// the last hour, of the last 24 hours and of the last week.
pub proof fn lemma_cleanup_keeps_the_counts(db: DbView, chat_id: int, now: int)
    ensures
        db.cleanup_old_records(now).count_alerts_this_hour(chat_id, now)
            == db.count_alerts_this_hour(chat_id, now),
        db.cleanup_old_records(now).count_alerts_last_24h(chat_id, now)
            == db.count_alerts_last_24h(chat_id, now),
        db.cleanup_old_records(now).count_alerts_this_week(chat_id, now)
            == db.count_alerts_this_week(chat_id, now),
        db.cleanup_old_records(now).users == db.users,
{
    let cutoff = now - HISTORY_RETENTION_SECS;
    lemma_recent_alerts_count_the_same(db.alerts, cutoff, chat_id, now - 3600);
    lemma_recent_alerts_count_the_same(db.alerts, cutoff, chat_id, now - 86_400);
    lemma_recent_alerts_count_the_same(db.alerts, cutoff, chat_id, now - 604_800);
}

} // verus!
