use nem_price_bot::clock::{
    format_date, format_date_display, format_datetime, interval_age_minutes, market_time, utc_date,
    Clock, MarketTime,
};
use nem_price_bot::data::parser::{ForecastRecord, PriceRecord};
use nem_price_bot::data::weather::{SolarPotential, WeatherForecast};
use nem_price_bot::db::Db;
use nem_price_bot::engine::scheduler::{
    carries_interval, current_price, daily_summary_messages, expected_settlement_time,
    forecast_fetch, judge_fetch, market_regions, price_fetch_checked, price_slot_step,
    region_forecast_alerts,
    wait_until_next_forecast_slot, wait_until_next_price_slot, FetchResult, SlotStep,
    SummaryTrigger,
};

/// 2026/02/27 14:00:00 in Brisbane.
const T1400: i64 = 1_772_164_800;

fn at(hour: u32, minute: u32, second: u32) -> MarketTime {
    MarketTime { year: 2026, month: 2, day: 27, hour, minute, second }
}

fn record(region: &str, price: i64, interval_time: &str) -> PriceRecord {
    PriceRecord { region: region.to_string(), price, interval_time: interval_time.to_string() }
}

#[test]
fn market_time_is_ten_hours_ahead_of_utc() {
    assert_eq!(market_time(T1400), Some(at(14, 0, 0)));
    assert_eq!(market_time(T1400 + 90), Some(at(14, 1, 30)));
    assert_eq!(
        market_time(0),
        Some(MarketTime { year: 1970, month: 1, day: 1, hour: 10, minute: 0, second: 0 })
    );
    assert_eq!(market_time(i64::MAX), None);
    let c = Clock::at(T1400).unwrap();
    assert_eq!(c.unix, T1400);
    assert_eq!(c.local, at(14, 0, 0));
}

#[test]
fn dates_are_written_in_fixed_width() {
    let t = MarketTime { year: 2026, month: 3, day: 5, hour: 7, minute: 4, second: 9 };
    assert_eq!(format_date(&t), "2026/03/05");
    assert_eq!(format_datetime(&t), "2026/03/05 07:04:09");
    assert_eq!(format_date_display(&t), "05 Mar 2026");
    assert_eq!(utc_date(T1400), Some("2026-02-27".to_string()));
    assert_eq!(utc_date(T1400 + 20 * 3600), Some("2026-02-28".to_string()));
}

#[test]
fn the_age_of_an_interval_is_counted_in_whole_minutes() {
    assert_eq!(interval_age_minutes("2026/02/27 14:00:00", T1400 + 90), 1);
    assert_eq!(interval_age_minutes("2026/02/27 14:00:00", T1400 + 420), 7);
    assert_eq!(interval_age_minutes("2026/02/27 14:00:00", T1400 - 5), 0);
    assert_eq!(interval_age_minutes("yesterday", T1400), -1);
}

#[test]
fn the_price_slot_lies_ninety_seconds_past_five_minutes() {
    assert_eq!(wait_until_next_price_slot(&at(14, 0, 0)), 90);
    assert_eq!(wait_until_next_price_slot(&at(14, 1, 29)), 1);
    assert_eq!(wait_until_next_price_slot(&at(14, 1, 30)), 300);
    assert_eq!(wait_until_next_price_slot(&at(14, 4, 59)), 91);
    assert_eq!(wait_until_next_price_slot(&at(14, 58, 0)), 210);
    assert_eq!(wait_until_next_price_slot(&at(14, 59, 59)), 91);
}

#[test]
fn the_forecast_slot_lies_ninety_seconds_past_the_half_hour() {
    assert_eq!(wait_until_next_forecast_slot(&at(14, 0, 0)), 90);
    assert_eq!(wait_until_next_forecast_slot(&at(14, 1, 30)), 1800);
    assert_eq!(wait_until_next_forecast_slot(&at(14, 29, 0)), 150);
    assert_eq!(wait_until_next_forecast_slot(&at(14, 31, 31)), 1799);
}

#[test]
fn the_expected_settlement_is_the_boundary_just_passed() {
    assert_eq!(expected_settlement_time(&at(14, 1, 30)), "2026/02/27 14:00:00");
    assert_eq!(expected_settlement_time(&at(14, 4, 59)), "2026/02/27 14:00:00");
    assert_eq!(expected_settlement_time(&at(14, 5, 0)), "2026/02/27 14:05:00");
    assert_eq!(expected_settlement_time(&at(0, 59, 59)), "2026/02/27 00:55:00");
}

#[test]
fn stale_fetch() {
    let now = Clock::at(T1400 + 90).unwrap();
    let expected = expected_settlement_time(&now.local);
    assert_eq!(expected, "2026/02/27 14:00:00");
    let mut db = Db::new();
    db.insert_price("NSW1", 1, "2026/02/27 13:55:00", T1400 - 210);
    let fetched = Some(vec![
        record("NSW1", 80_000_000, "2026/02/27 13:55:00"),
        record("VIC1", 70_000_000, "2026/02/27 13:55:00"),
    ]);
    db.upsert_user(1, "NSW1", T1400);
    db.update_high_alert(1, 50_000_000, T1400);
    let mut attempt = 0;
    let mut waits = Vec::new();
    let end = loop {
        let (result, alerts) = price_fetch_checked(&mut db, &fetched, &expected, &now);
        assert_eq!(result, FetchResult::Stale);
        assert!(alerts.is_empty());
        match price_slot_step(attempt, result) {
            SlotStep::Retry { wait_secs } => {
                waits.push(wait_secs);
                attempt += 1;
            }
            other => break other,
        }
    };
    assert_eq!(end, SlotStep::Abandon);
    assert_eq!(attempt + 1, 5);
    assert_eq!(waits, vec![15, 15, 15, 15]);
    assert_eq!(db.price_rows(), 1);
}

#[test]
fn a_fetch_is_judged_by_the_interval_it_brings() {
    let fresh = Some(vec![
        record("NSW1", 1, "2026/02/27 13:55:00"),
        record("NSW1", 2, "2026/02/27 14:00:00"),
    ]);
    assert_eq!(judge_fetch(&fresh, "2026/02/27 14:00:00"), FetchResult::Success);
    assert_eq!(judge_fetch(&fresh, "2026/02/27 14:05:00"), FetchResult::Stale);
    assert_eq!(judge_fetch(&Some(vec![]), "2026/02/27 14:05:00"), FetchResult::Stale);
    assert_eq!(judge_fetch(&None, "2026/02/27 14:00:00"), FetchResult::Error);
    assert!(carries_interval(fresh.as_ref().unwrap(), "2026/02/27 13:55:00"));
    assert_eq!(price_slot_step(0, FetchResult::Success), SlotStep::Done);
    assert_eq!(price_slot_step(0, FetchResult::Error), SlotStep::Abandon);
    assert_eq!(price_slot_step(3, FetchResult::Stale), SlotStep::Retry { wait_secs: 15 });
    assert_eq!(price_slot_step(4, FetchResult::Stale), SlotStep::Abandon);
    assert_eq!(price_slot_step(u32::MAX, FetchResult::Stale), SlotStep::Abandon);
}

#[test]
fn the_summary_goes_out_once_a_day_at_its_hour() {
    let mut t = SummaryTrigger::new();
    assert!(!t.tick(20));
    assert!(t.tick(21));
    assert!(!t.tick(21));
    assert!(!t.tick(22));
    assert!(!t.tick(23));
    assert!(!t.tick(0));
    assert!(!t.sent_today);
    assert!(!t.tick(12));
    assert!(t.tick(21));
    assert!(t.sent_today);
}

#[test]
fn the_regions_are_the_five_of_the_market() {
    assert_eq!(market_regions(), vec!["NSW1", "VIC1", "QLD1", "SA1", "TAS1"]);
}

#[test]
fn the_current_price_of_a_region_is_its_first_in_the_batch() {
    let prices = vec![record("NSW1", 5, "a"), record("VIC1", 6, "a"), record("NSW1", 7, "b")];
    assert_eq!(current_price(&prices, "NSW1"), 5);
    assert_eq!(current_price(&prices, "VIC1"), 6);
    assert_eq!(current_price(&prices, "QLD1"), 0);
}

#[test]
fn fetched_forecasts_are_stored_as_published_now() {
    let mut db = Db::new();
    db.upsert_user(1, "NSW1", T1400);
    let now = Clock::at(T1400 + 90).unwrap();
    let forecasts = vec![
        ForecastRecord {
            region: "NSW1".to_string(),
            forecast_time: "2026/02/27 14:30:00".to_string(),
            price: 400_000_000,
        },
        ForecastRecord {
            region: "NSW1".to_string(),
            forecast_time: "2026/02/27 15:30:00".to_string(),
            price: 500_000_000,
        },
    ];
    forecast_fetch(&mut db, &forecasts, &now);
    forecast_fetch(&mut db, &forecasts, &now);
    assert_eq!(db.forecast_rows(), 2);
    let alerts = region_forecast_alerts(&db, &[record("NSW1", 90_000_000, "x")], "NSW1", &now);
    assert_eq!(alerts.len(), 1);
    assert_eq!(alerts[0].alert_type, "forecast");
    assert_eq!(alerts[0].price, 400_000_000);
    assert!(alerts[0].text.contains("Current price: $90/MWh"));
}

#[test]
fn each_active_user_of_a_region_gets_the_summary() {
    let mut db = Db::new();
    db.upsert_user(1, "NSW1", T1400);
    db.upsert_user(2, "VIC1", T1400);
    db.upsert_user(3, "NSW1", T1400);
    db.insert_price("NSW1", -3_000_000, "2026/02/27 10:00:00", T1400);
    db.insert_price("NSW1", 120_400_000, "2026/02/27 13:05:00", T1400);
    db.insert_price("NSW1", 30_000_000, "2026/02/27 13:10:00", T1400);
    db.log_alert(3, "spike", 1, "NSW1", T1400);
    let now = Clock::at(T1400 + 7 * 3600).unwrap();
    let weather = WeatherForecast {
        temp_max: Some(355),
        description: "Sunny".to_string(),
        solar: SolarPotential::Excellent,
    };
    let messages = daily_summary_messages(&db, "NSW1", Some(&weather), &now);
    assert_eq!(messages.len(), 2);
    assert_eq!(messages[0].0, 1);
    assert_eq!(messages[1].0, 3);
    let expected = "\u{1f4ca} Daily Summary \u{2014} NSW \u{2014} 27 Feb 2026\n\n\
        Price range: $-3 ~ $120/MWh\n\
        Average price: $49/MWh\n\
        Negative price hours: 0.1h\n\
        Peak: $120/MWh at 13:05 AEST\n\n\
        Alerts sent today: 0\n\n\
        Tomorrow's outlook:\n\
        \u{2600}\u{fe0f} Sunny, 36\u{00b0}C \u{2014} Excellent solar day\n\
        \u{1f50b} Likely negative prices midday\n\
        \u{2022} Morning: Let solar charge battery\n\
        \u{2022} Midday: Charge from grid (negative prices)\n\
        \u{2022} Evening: Discharge during peak\n\
        \u{26a1} Extreme heat \u{2014} expect high evening demand and prices\n\n\
        Powered by AEMO + BOM data | /help for commands";
    assert_eq!(messages[0].1, expected);
    assert!(messages[1].1.contains("Alerts sent today: 1"));
    let none = daily_summary_messages(&db, "VIC1", None, &now);
    assert_eq!(none.len(), 1);
    assert_eq!(
        none[0].1,
        "\u{1f4ca} Daily Summary \u{2014} VIC \u{2014} 27 Feb 2026\n\n\
         No price data recorded today.\n\n\
         Alerts sent today: 0\n\n\
         Powered by AEMO + BOM data | /help for commands"
    );
}

#[test]
fn prices_are_taken_in_only_after_success() {
    let now = Clock::at(T1400 + 90).unwrap();
    let mut db = Db::new();
    db.upsert_user(1, "NSW1", T1400);
    let fetched = Some(vec![
        record("NSW1", 400_000_000, "2026/02/27 14:00:00"),
        record("VIC1", 70_000_000, "2026/02/27 14:00:00"),
    ]);
    let (stale, none) = price_fetch_checked(&mut db, &fetched, "2026/02/27 14:05:00", &now);
    assert_eq!(stale, FetchResult::Stale);
    assert!(none.is_empty());
    assert_eq!(db.price_rows(), 0);
    let (failed, none) = price_fetch_checked(&mut db, &None, "2026/02/27 14:00:00", &now);
    assert_eq!(failed, FetchResult::Error);
    assert!(none.is_empty());
    assert_eq!(db.price_rows(), 0);
    let (done, alerts) = price_fetch_checked(&mut db, &fetched, "2026/02/27 14:00:00", &now);
    assert_eq!(done, FetchResult::Success);
    assert_eq!(db.price_rows(), 2);
    assert_eq!(alerts.len(), 1);
    assert_eq!(alerts[0].alert_type, "high_price");
    assert_eq!(alerts[0].chat_id, 1);
}
