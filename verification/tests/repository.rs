use nem_price_bot::db::{Db, DailyStats};

const T0: i64 = 1_772_164_800;

#[test]
fn a_new_user_gets_the_default_thresholds() {
    let mut db = Db::new();
    db.upsert_user(7, "NSW1", T0);
    let u = db.get_user(7).unwrap();
    assert_eq!(u.chat_id, 7);
    assert_eq!(u.region, "NSW1");
    assert_eq!(u.high_alert, 150_000_000);
    assert_eq!(u.low_alert, 0);
    assert!(u.is_active);
    assert_eq!(u.created_at, T0);
    assert!(db.get_user(8).is_none());
}

#[test]
fn a_change_of_region_keeps_the_thresholds() {
    let mut db = Db::new();
    db.upsert_user(7, "NSW1", T0);
    db.update_high_alert(7, 200_000_000, T0 + 1);
    db.update_low_alert(7, -20_000_000, T0 + 2);
    db.set_active(7, false, T0 + 3);
    db.upsert_user(7, "VIC1", T0 + 4);
    let u = db.get_user(7).unwrap();
    assert_eq!(u.region, "VIC1");
    assert_eq!(u.high_alert, 200_000_000);
    assert_eq!(u.low_alert, -20_000_000);
    assert!(!u.is_active);
    assert_eq!(u.created_at, T0);
    assert_eq!(u.updated_at, T0 + 4);
    db.update_high_alert(99, 1, T0);
    assert!(db.get_user(99).is_none());
}

#[test]
fn one_price_for_each_region_and_interval() {
    let mut db = Db::new();
    db.insert_price("NSW1", 80_000_000, "2026/02/27 14:00:00", T0);
    db.insert_price("NSW1", 99_000_000, "2026/02/27 14:00:00", T0 + 5);
    db.insert_price("VIC1", 70_000_000, "2026/02/27 14:00:00", T0);
    assert_eq!(db.price_rows(), 2);
    assert_eq!(
        db.get_latest_price("NSW1"),
        Some((80_000_000, "2026/02/27 14:00:00".to_string()))
    );
}

#[test]
fn latest_and_previous_go_by_interval_time() {
    let mut db = Db::new();
    assert_eq!(db.get_latest_price("NSW1"), None);
    assert_eq!(db.get_previous_price("NSW1"), None);
    db.insert_price("NSW1", 3, "2026/02/27 14:10:00", T0);
    assert_eq!(db.get_previous_price("NSW1"), None);
    db.insert_price("NSW1", 1, "2026/02/27 14:00:00", T0);
    db.insert_price("NSW1", 4, "2026/02/27 14:15:00", T0);
    db.insert_price("NSW1", 2, "2026/02/27 14:05:00", T0);
    db.insert_price("QLD1", 9, "2026/02/27 14:20:00", T0);
    assert_eq!(db.get_latest_price("NSW1"), Some((4, "2026/02/27 14:15:00".to_string())));
    assert_eq!(db.get_previous_price("NSW1"), Some(3));
    assert_eq!(db.get_previous_price("QLD1"), None);
}

#[test]
fn the_daily_range_goes_by_the_date_prefix() {
    let mut db = Db::new();
    assert_eq!(db.get_daily_range("NSW1", "2026/02/27"), None);
    db.insert_price("NSW1", 50, "2026/02/27 00:05:00", T0);
    db.insert_price("NSW1", -7, "2026/02/27 00:10:00", T0);
    db.insert_price("NSW1", 90, "2026/02/27 00:15:00", T0);
    db.insert_price("NSW1", 500, "2026/02/26 23:55:00", T0);
    db.insert_price("VIC1", -900, "2026/02/27 00:15:00", T0);
    assert_eq!(db.get_daily_range("NSW1", "2026/02/27"), Some((-7, 90)));
    assert_eq!(db.get_daily_range("NSW1", "2026/02/28"), None);
}

#[test]
fn the_daily_stats_hold_mean_and_negative_intervals() {
    let mut db = Db::new();
    assert_eq!(db.get_daily_stats("NSW1", "2026/02/27"), None);
    db.insert_price("NSW1", 50_000_000, "2026/02/27 00:05:00", T0);
    db.insert_price("NSW1", -7_000_000, "2026/02/27 00:10:00", T0);
    db.insert_price("NSW1", 90_000_000, "2026/02/27 00:15:00", T0);
    db.insert_price("NSW1", -1_000_000, "2026/02/27 00:20:00", T0);
    db.insert_price("NSW1", 500_000_000, "2026/02/26 23:55:00", T0);
    assert_eq!(
        db.get_daily_stats("NSW1", "2026/02/27"),
        Some(DailyStats {
            min_price: -7_000_000,
            max_price: 90_000_000,
            avg_price: 33_000_000,
            negative_intervals: 2,
        })
    );
    assert_eq!(
        db.get_daily_peak_time("NSW1", "2026/02/27"),
        Some("2026/02/27 00:15:00".to_string())
    );
    assert_eq!(db.get_daily_peak_time("NSW1", "2026/03/01"), None);
}

#[test]
fn the_mean_of_a_negative_sum_is_rounded_down() {
    let mut db = Db::new();
    db.insert_price("SA1", -3, "2026/02/27 00:05:00", T0);
    db.insert_price("SA1", -4, "2026/02/27 00:10:00", T0);
    let stats = db.get_daily_stats("SA1", "2026/02/27").unwrap();
    assert_eq!(stats.avg_price, -4);
    assert_eq!(stats.negative_intervals, 2);
}

#[test]
fn the_first_of_equal_peaks_is_the_peak() {
    let mut db = Db::new();
    db.insert_price("SA1", 10, "2026/02/27 00:10:00", T0);
    db.insert_price("SA1", 10, "2026/02/27 00:05:00", T0);
    assert_eq!(
        db.get_daily_peak_time("SA1", "2026/02/27"),
        Some("2026/02/27 00:10:00".to_string())
    );
}

#[test]
fn two_forecasts_for_one_time_give_the_one_published_last() {
    let mut db = Db::new();
    db.insert_forecast("NSW1", "2026/02/27 15:00:00", 300, "2026/02/27 14:01:30", T0);
    db.insert_forecast("NSW1", "2026/02/27 15:00:00", 280, "2026/02/27 14:31:30", T0 + 1800);
    let got = db.get_forecasts("NSW1", "2026/02/27 14:31:30", "2026/02/27 15:31:30");
    assert_eq!(got, vec![("2026/02/27 15:00:00".to_string(), 280)]);
}

#[test]
fn two_forecasts_inserted_in_the_other_order_give_the_same() {
    let mut db = Db::new();
    db.insert_forecast("NSW1", "2026/02/27 15:00:00", 280, "2026/02/27 14:31:30", T0 + 1800);
    db.insert_forecast("NSW1", "2026/02/27 15:00:00", 300, "2026/02/27 14:01:30", T0);
    let got = db.get_forecasts("NSW1", "2026/02/27 14:31:30", "2026/02/27 15:31:30");
    assert_eq!(got, vec![("2026/02/27 15:00:00".to_string(), 280)]);
}

#[test]
fn forecasts_come_by_time_within_the_window() {
    let mut db = Db::new();
    db.insert_forecast("NSW1", "2026/02/27 16:00:00", 4, "first", T0);
    db.insert_forecast("NSW1", "2026/02/27 15:00:00", 2, "first", T0);
    db.insert_forecast("NSW1", "2026/02/27 15:30:00", 3, "first", T0);
    db.insert_forecast("NSW1", "2026/02/27 14:30:00", 1, "first", T0);
    db.insert_forecast("NSW1", "2026/02/27 15:30:00", 33, "second", T0);
    db.insert_forecast("NSW1", "2026/02/27 15:30:00", 33, "second", T0);
    db.insert_forecast("VIC1", "2026/02/27 15:10:00", 9, "first", T0);
    assert_eq!(db.forecast_rows(), 6);
    let got = db.get_forecasts("NSW1", "2026/02/27 14:30:00", "2026/02/27 16:00:00");
    assert_eq!(
        got,
        vec![
            ("2026/02/27 15:00:00".to_string(), 2),
            ("2026/02/27 15:30:00".to_string(), 33),
            ("2026/02/27 16:00:00".to_string(), 4),
        ]
    );
    assert!(db.get_forecasts("NSW1", "2026/02/27 16:00:00", "2026/02/27 17:00:00").is_empty());
}

#[test]
fn only_active_users_of_the_region_are_listed() {
    let mut db = Db::new();
    db.upsert_user(1, "NSW1", T0);
    db.upsert_user(2, "VIC1", T0);
    db.upsert_user(3, "NSW1", T0);
    db.upsert_user(4, "NSW1", T0);
    db.set_active(3, false, T0);
    let users = db.get_active_users_by_region("NSW1");
    let ids: Vec<i64> = users.iter().map(|u| u.chat_id).collect();
    assert_eq!(ids, vec![1, 4]);
}

#[test]
fn the_log_answers_by_chat_type_and_time() {
    let mut db = Db::new();
    db.log_alert(1, "high_price", 250, "NSW1", T0);
    assert!(db.was_alert_sent_recently(1, "high_price", 30, T0 + 1799));
    assert!(!db.was_alert_sent_recently(1, "high_price", 30, T0 + 1800));
    assert!(!db.was_alert_sent_recently(1, "spike", 30, T0));
    assert!(!db.was_alert_sent_recently(2, "high_price", 30, T0));
    assert_eq!(db.count_alerts_this_hour(1, T0 + 3599), 1);
    assert_eq!(db.count_alerts_this_hour(1, T0 + 3600), 0);
    assert_eq!(db.count_alerts_last_24h(1, T0 + 86_399), 1);
    assert_eq!(db.count_alerts_last_24h(1, T0 + 86_400), 0);
    assert_eq!(db.count_alerts_this_week(1, T0 + 604_799), 1);
    assert_eq!(db.count_alerts_this_week(1, T0 + 604_800), 0);
    assert_eq!(db.count_alerts_this_hour(2, T0), 0);
}

#[test]
fn the_sweep_keeps_what_is_young_enough() {
    let day = 86_400;
    let mut db = Db::new();
    db.upsert_user(1, "NSW1", T0 - 400 * day);
    db.insert_price("NSW1", 1, "a", T0 - 91 * day);
    db.insert_price("NSW1", 2, "b", T0 - 90 * day);
    db.insert_price("NSW1", 3, "c", T0 - 89 * day);
    db.insert_forecast("NSW1", "f1", 1, "p", T0 - 8 * day);
    db.insert_forecast("NSW1", "f2", 2, "p", T0 - 7 * day);
    db.insert_forecast("NSW1", "f3", 3, "p", T0 - 6 * day);
    db.log_alert(1, "spike", 1, "NSW1", T0 - 90 * day - 1);
    db.log_alert(1, "spike", 2, "NSW1", T0 - 90 * day);
    db.cleanup_old_records(T0);
    assert_eq!(db.price_rows(), 2);
    assert_eq!(db.forecast_rows(), 2);
    assert_eq!(db.alert_rows(), 1);
    assert_eq!(db.get_latest_price("NSW1"), Some((3, "c".to_string())));
    assert_eq!(db.get_previous_price("NSW1"), Some(2));
    assert_eq!(
        db.get_forecasts("NSW1", "", "z"),
        vec![("f2".to_string(), 2), ("f3".to_string(), 3)]
    );
    assert!(db.get_user(1).is_some());
}
