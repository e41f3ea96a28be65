use nem_price_bot::bot::notifier::{record_outcome, should_send, SendError};
use nem_price_bot::clock::Clock;
use nem_price_bot::data::parser::PriceRecord;
use nem_price_bot::db::Db;
use nem_price_bot::engine::analyzer::{analyze, analyze_forecasts, can_alert, PendingAlert};
use nem_price_bot::engine::scheduler::process_prices;

/// 2026/02/27 14:00:00 in Brisbane.
const T1400: i64 = 1_772_164_800;

fn dollars(d: i64) -> i64 {
    d * 1_000_000
}

fn clock(unix: i64) -> Clock {
    Clock::at(unix).unwrap()
}

fn record(region: &str, price: i64, interval_time: &str) -> PriceRecord {
    PriceRecord { region: region.to_string(), price, interval_time: interval_time.to_string() }
}

fn user_a(db: &mut Db) {
    db.upsert_user(1, "NSW1", T1400 - 86_400);
    db.update_high_alert(1, dollars(200), T1400 - 86_400);
}

fn deliver(db: &mut Db, alerts: &[PendingAlert], now: i64) -> usize {
    let mut sent = 0;
    for a in alerts {
        if should_send(db, a, now) {
            record_outcome(db, a, Ok(()), now);
            sent += 1;
        }
    }
    sent
}

fn kinds(alerts: &[PendingAlert]) -> Vec<&str> {
    alerts.iter().map(|a| a.alert_type.as_str()).collect()
}

#[test]
fn first_price_ever_below_threshold() {
    let mut db = Db::new();
    user_a(&mut db);
    let prices = vec![record("NSW1", dollars(80), "2026/02/27 14:00:00")];
    let alerts = process_prices(&mut db, &prices, &clock(T1400 + 90));
    assert!(alerts.is_empty());
    assert_eq!(db.price_rows(), 1);
}

#[test]
fn high_threshold_crossing() {
    let mut db = Db::new();
    user_a(&mut db);
    db.insert_price("NSW1", dollars(90), "2026/02/27 13:55:00", T1400 - 210);
    let prices = vec![record("NSW1", dollars(250), "2026/02/27 14:00:00")];
    let now = T1400 + 90;
    let alerts = process_prices(&mut db, &prices, &clock(now));
    assert_eq!(kinds(&alerts), vec!["spike", "high_price"]);
    assert_eq!(alerts[0].chat_id, 1);
    assert_eq!(alerts[0].price, dollars(250));
    assert_eq!(alerts[0].region, "NSW1");
    assert!(alerts[0].text.contains("Price jumped from $90 \u{2192} $250/MWh in 5 minutes!"));
    assert!(alerts[1].text.contains("Current price: $250.00/MWh"));
    assert!(alerts[1].text.contains("Your threshold: $200/MWh"));
    assert!(alerts[1].text.contains("Today's range: $90 ~ $250"));
    assert_eq!(deliver(&mut db, &alerts, now), 2);
    assert_eq!(db.alert_rows(), 2);
    assert!(db.was_alert_sent_recently(1, "spike", 30, now));
    assert!(db.was_alert_sent_recently(1, "high_price", 30, now));
}

#[test]
fn dedup_within_window() {
    let mut db = Db::new();
    user_a(&mut db);
    db.insert_price("NSW1", dollars(90), "2026/02/27 13:55:00", T1400 - 210);
    let prices = vec![record("NSW1", dollars(250), "2026/02/27 14:00:00")];
    let now = T1400 + 90;
    let first = process_prices(&mut db, &prices, &clock(now));
    assert_eq!(first.len(), 2);
    deliver(&mut db, &first, now);
    let second = process_prices(&mut db, &prices, &clock(now + 29 * 60));
    assert!(second.is_empty());
    assert_eq!(db.price_rows(), 2);
    assert_eq!(db.alert_rows(), 2);
}

#[test]
fn after_the_window_the_alert_comes_again() {
    let mut db = Db::new();
    user_a(&mut db);
    db.insert_price("NSW1", dollars(90), "2026/02/27 13:55:00", T1400 - 210);
    let prices = vec![record("NSW1", dollars(250), "2026/02/27 14:00:00")];
    let now = T1400 + 90;
    let first = process_prices(&mut db, &prices, &clock(now));
    deliver(&mut db, &first, now);
    let later = process_prices(&mut db, &prices, &clock(now + 30 * 60));
    assert_eq!(kinds(&later), vec!["spike", "high_price"]);
}

#[test]
fn all_clear() {
    let mut db = Db::new();
    user_a(&mut db);
    db.insert_price("NSW1", dollars(90), "2026/02/27 13:55:00", T1400 - 210);
    let now = T1400 + 90;
    let high = process_prices(
        &mut db,
        &[record("NSW1", dollars(250), "2026/02/27 14:00:00")],
        &clock(now),
    );
    deliver(&mut db, &high, now);
    let later = now + 300;
    let alerts = process_prices(
        &mut db,
        &[record("NSW1", dollars(120), "2026/02/27 14:05:00")],
        &clock(later),
    );
    assert_eq!(kinds(&alerts), vec!["all_clear"]);
    assert_eq!(alerts[0].price, dollars(120));
    assert!(alerts[0].text.contains("$250"));
    assert!(alerts[0].text.contains("Peak reached: $250/MWh"));
    assert!(alerts[0].text.contains("Price has dropped back to $120.00/MWh"));
    deliver(&mut db, &alerts, later);
    let again = process_prices(
        &mut db,
        &[record("NSW1", dollars(110), "2026/02/27 14:10:00")],
        &clock(later + 300),
    );
    assert!(again.is_empty());
}

#[test]
fn hourly_cap() {
    let mut db = Db::new();
    user_a(&mut db);
    let now = T1400 + 90;
    for k in 0..10 {
        db.log_alert(1, "forecast", dollars(300), "NSW1", now - 59 * 60 + k);
    }
    let alerts = process_prices(
        &mut db,
        &[record("NSW1", dollars(250), "2026/02/27 14:00:00")],
        &clock(now),
    );
    assert!(alerts.is_empty());
    assert_eq!(db.alert_rows(), 10);
    assert!(!can_alert(&db, 1, "high_price", 30, now));
    assert!(can_alert(&db, 1, "high_price", 30, now + 3600));
}

#[test]
fn the_notifier_drops_what_the_cap_forbids() {
    let mut db = Db::new();
    user_a(&mut db);
    let now = T1400 + 90;
    let alerts = process_prices(
        &mut db,
        &[record("NSW1", dollars(250), "2026/02/27 14:00:00")],
        &clock(now),
    );
    assert_eq!(kinds(&alerts), vec!["high_price"]);
    for k in 0..10 {
        db.log_alert(1, "spike", dollars(1), "NSW1", now - 100 + k);
    }
    assert!(!should_send(&db, &alerts[0], now));
    assert_eq!(deliver(&mut db, &alerts, now), 0);
    assert_eq!(db.alert_rows(), 10);
}

#[test]
fn price_at_the_threshold_is_no_high_price() {
    let mut db = Db::new();
    user_a(&mut db);
    let now = T1400 + 90;
    let alerts = process_prices(
        &mut db,
        &[record("NSW1", dollars(200), "2026/02/27 14:00:00")],
        &clock(now),
    );
    assert!(alerts.is_empty());
    db.log_alert(1, "high_price", dollars(250), "NSW1", now - 179 * 60);
    let alerts = analyze(&db, &[record("NSW1", dollars(200), "2026/02/27 14:00:00")], &clock(now));
    assert_eq!(kinds(&alerts), vec!["all_clear"]);
}

#[test]
fn price_below_the_low_threshold() {
    let mut db = Db::new();
    user_a(&mut db);
    let now = T1400 + 90;
    let alerts = process_prices(
        &mut db,
        &[record("NSW1", dollars(-5), "2026/02/27 14:00:00")],
        &clock(now),
    );
    assert_eq!(kinds(&alerts), vec!["low_price"]);
    assert!(alerts[0].text.contains("NEGATIVE PRICE"));
    assert!(alerts[0].text.contains("Current price: $-5.00/MWh"));
    let at = process_prices(
        &mut db,
        &[record("NSW1", 0, "2026/02/27 14:05:00")],
        &clock(now + 300),
    );
    assert!(at.is_empty());
}

#[test]
fn a_move_of_exactly_the_spike_threshold_is_no_spike() {
    let mut db = Db::new();
    user_a(&mut db);
    db.insert_price("NSW1", dollars(50), "2026/02/27 13:55:00", T1400 - 210);
    let now = T1400 + 90;
    let alerts = process_prices(
        &mut db,
        &[record("NSW1", dollars(150), "2026/02/27 14:00:00")],
        &clock(now),
    );
    assert!(alerts.is_empty());
    let alerts = process_prices(
        &mut db,
        &[record("NSW1", dollars(49) - 1, "2026/02/27 14:05:00")],
        &clock(now + 300),
    );
    assert_eq!(kinds(&alerts), vec!["spike"]);
}

#[test]
fn empty_batch_changes_nothing() {
    let mut db = Db::new();
    user_a(&mut db);
    db.insert_price("NSW1", dollars(500), "2026/02/27 13:55:00", T1400 - 210);
    let alerts = process_prices(&mut db, &[], &clock(T1400 + 90));
    assert!(alerts.is_empty());
    assert_eq!(db.price_rows(), 1);
    assert_eq!(db.alert_rows(), 0);
    assert!(analyze(&db, &[], &clock(T1400 + 90)).is_empty());
}

#[test]
fn paused_users_and_other_regions_get_nothing() {
    let mut db = Db::new();
    user_a(&mut db);
    db.upsert_user(2, "VIC1", T1400);
    db.upsert_user(3, "NSW1", T1400);
    db.set_active(3, false, T1400);
    let alerts = process_prices(
        &mut db,
        &[record("NSW1", dollars(900), "2026/02/27 14:00:00")],
        &clock(T1400 + 90),
    );
    assert_eq!(alerts.len(), 1);
    assert_eq!(alerts[0].chat_id, 1);
}

#[test]
fn a_forbidden_send_switches_the_user_off() {
    let mut db = Db::new();
    user_a(&mut db);
    let now = T1400 + 90;
    let alerts = process_prices(
        &mut db,
        &[record("NSW1", dollars(900), "2026/02/27 14:00:00")],
        &clock(now),
    );
    record_outcome(&mut db, &alerts[0], Err(SendError::Other), now);
    assert!(db.get_user(1).unwrap().is_active);
    assert_eq!(db.alert_rows(), 0);
    record_outcome(&mut db, &alerts[0], Err(SendError::Forbidden), now);
    assert!(!db.get_user(1).unwrap().is_active);
    assert_eq!(db.alert_rows(), 0);
}

#[test]
fn forecasts_above_the_threshold_warn_within_the_hour() {
    let mut db = Db::new();
    user_a(&mut db);
    let now = T1400 + 90;
    db.insert_forecast("NSW1", "2026/02/27 14:30:00", dollars(350), "2026/02/27 14:01:30", now);
    db.insert_forecast("NSW1", "2026/02/27 15:00:00", dollars(150), "2026/02/27 14:01:30", now);
    db.insert_forecast("NSW1", "2026/02/27 15:30:00", dollars(999), "2026/02/27 14:01:30", now);
    db.insert_forecast("NSW1", "2026/02/27 14:00:00", dollars(999), "2026/02/27 14:01:30", now);
    let alerts = analyze_forecasts(&db, "NSW1", dollars(80), &clock(now));
    assert_eq!(kinds(&alerts), vec!["forecast"]);
    assert_eq!(alerts[0].price, dollars(350));
    assert!(alerts[0].text.contains("Prices forecast to reach $350+/MWh around 14:30."));
    assert!(alerts[0].text.contains("Current price: $80/MWh"));
    db.log_alert(1, "forecast", dollars(350), "NSW1", now);
    assert!(analyze_forecasts(&db, "NSW1", dollars(80), &clock(now + 59 * 60)).is_empty());
}
