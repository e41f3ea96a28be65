use nem_price_bot::bot::callbacks;
use nem_price_bot::bot::commands::{
    cmd_alert, handle, parse_alert_request, split_words, AlertRequest, Command, CommandError,
};
use nem_price_bot::bot::messages::{
    about_message, format_forecast_response, format_price_response, help_message, price_level,
    welcome_message,
};
use nem_price_bot::bot::notifier::{classify_send_error, SendError};
use nem_price_bot::clock::Clock;
use nem_price_bot::config::{Config, ConfigError};
use nem_price_bot::data::weather::{
    classify_solar, forecast_url, region_geohash, tomorrow_of, DayForecast, SolarPotential,
};
use nem_price_bot::db::Db;
use nem_price_bot::numeral::{parse_integer, Numeral};

/// 2026/02/27 14:00:00 in Brisbane.
const T1400: i64 = 1_772_164_800;

fn store() -> Db {
    let mut db = Db::new();
    db.upsert_user(1, "NSW1", T1400 - 86_400);
    db
}

#[test]
fn words_are_the_pieces_between_white_space() {
    assert_eq!(split_words("  high   200 "), vec!["high", "200"]);
    assert_eq!(split_words(""), Vec::<String>::new());
    assert_eq!(split_words(" \t\n"), Vec::<String>::new());
    assert_eq!(split_words("off"), vec!["off"]);
    assert_eq!(split_words("a\u{a0}b"), vec!["a", "b"]);
}

#[test]
fn alert_requests_are_read_from_the_words() {
    assert_eq!(
        parse_alert_request("high 200"),
        AlertRequest::High(Numeral { micros: 200_000_000, more: false, negative: false })
    );
    assert_eq!(
        parse_alert_request("low -20.5"),
        AlertRequest::Low(Numeral { micros: -20_500_000, more: false, negative: true })
    );
    assert_eq!(
        parse_alert_request("high 15000.0000001"),
        AlertRequest::High(Numeral { micros: 15_000_000_000, more: true, negative: false })
    );
    assert_eq!(parse_alert_request("off"), AlertRequest::Off);
    assert_eq!(parse_alert_request(" on "), AlertRequest::On);
    assert_eq!(parse_alert_request("high"), AlertRequest::Show);
    assert_eq!(parse_alert_request(""), AlertRequest::Show);
    assert_eq!(parse_alert_request("high 1 2"), AlertRequest::Show);
    assert_eq!(parse_alert_request("high abc"), AlertRequest::Invalid);
    assert_eq!(
        parse_alert_request("low 1e1"),
        AlertRequest::Low(Numeral { micros: 10_000_000, more: false, negative: false })
    );
    assert_eq!(parse_alert_request("high 1e12"), AlertRequest::HighBeyond);
    assert_eq!(parse_alert_request("low 1e"), AlertRequest::Invalid);
    assert_eq!(parse_alert_request("high inf"), AlertRequest::HighBeyond);
    assert_eq!(parse_alert_request("high NaN"), AlertRequest::HighBeyond);
    assert_eq!(parse_alert_request("low -infinity"), AlertRequest::LowBeyond);
    assert_eq!(parse_alert_request("low infinite"), AlertRequest::Invalid);
    assert_eq!(parse_alert_request("high 1000000000000"), AlertRequest::HighBeyond);
    assert_eq!(parse_alert_request("low -99999999999999999999.5"), AlertRequest::LowBeyond);
}

#[test]
fn a_high_threshold_must_lie_within_bounds_and_above_the_low() {
    let mut db = store();
    assert_eq!(
        cmd_alert(&mut db, 1, "high 49.999999", T1400),
        Ok("High alert must be between $50 and $15,000.".to_string())
    );
    assert_eq!(
        cmd_alert(&mut db, 1, "high 15000.000001", T1400),
        Ok("High alert must be between $50 and $15,000.".to_string())
    );
    assert_eq!(
        cmd_alert(&mut db, 1, "high 15000.00000001", T1400),
        Ok("High alert must be between $50 and $15,000.".to_string())
    );
    assert_eq!(
        cmd_alert(&mut db, 1, "high 123456789012345678901234567890", T1400),
        Ok("High alert must be between $50 and $15,000.".to_string())
    );
    assert_eq!(db.get_user(1).unwrap().high_alert, 150_000_000);
    db.update_low_alert(1, 50_000_000, T1400);
    assert_eq!(
        cmd_alert(&mut db, 1, "high 50", T1400),
        Ok("High alert ($50) must be greater than your current low alert ($50).\n\
            Adjust low alert first: /alert low <value>"
            .to_string())
    );
    assert_eq!(db.get_user(1).unwrap().high_alert, 150_000_000);
    assert_eq!(
        cmd_alert(&mut db, 1, "high 200", T1400 + 5),
        Ok("\u{2705} High price alert updated.\n\n\
            You'll be notified when NSW spot price exceeds $200/MWh.\n\
            Previous threshold: $150/MWh\n\n\
            Current settings:\n\
            \u{2022} High alert: $200/MWh\n\
            \u{2022} Low alert: $50/MWh\n\
            \u{2022} Status: Active"
            .to_string())
    );
    let u = db.get_user(1).unwrap();
    assert_eq!(u.high_alert, 200_000_000);
    assert_eq!(u.updated_at, T1400 + 5);
    assert_eq!(cmd_alert(&mut db, 1, "high 15000", T1400).is_ok(), true);
    assert_eq!(db.get_user(1).unwrap().high_alert, 15_000_000_000);
    assert!(cmd_alert(&mut db, 1, "high 1e3", T1400).unwrap().contains("exceeds $1000/MWh"));
    assert_eq!(db.get_user(1).unwrap().high_alert, 1_000_000_000);
    assert_eq!(
        cmd_alert(&mut db, 1, "high 1e5", T1400),
        Ok("High alert must be between $50 and $15,000.".to_string())
    );
    assert_eq!(db.get_user(1).unwrap().high_alert, 1_000_000_000);
}

#[test]
fn a_low_threshold_must_lie_within_bounds_and_below_the_high() {
    let mut db = store();
    assert_eq!(
        cmd_alert(&mut db, 1, "low 50.5", T1400),
        Ok("Low alert must be between -$1,000 and $50.".to_string())
    );
    assert_eq!(
        cmd_alert(&mut db, 1, "low -1000.5", T1400),
        Ok("Low alert must be between -$1,000 and $50.".to_string())
    );
    assert_eq!(
        cmd_alert(&mut db, 1, "low -1000.0000001", T1400),
        Ok("Low alert must be between -$1,000 and $50.".to_string())
    );
    assert_eq!(
        cmd_alert(&mut db, 1, "low 50.0000001", T1400),
        Ok("Low alert must be between -$1,000 and $50.".to_string())
    );
    assert_eq!(
        cmd_alert(&mut db, 1, "low nan", T1400),
        Ok("Low alert must be between -$1,000 and $50.".to_string())
    );
    assert_eq!(
        cmd_alert(&mut db, 1, "low -inf", T1400),
        Ok("Low alert must be between -$1,000 and $50.".to_string())
    );
    db.update_high_alert(1, 50_000_000, T1400);
    assert_eq!(
        cmd_alert(&mut db, 1, "low 50", T1400),
        Ok("Low alert ($50) must be less than your current high alert ($50).\n\
            Adjust high alert first: /alert high <value>"
            .to_string())
    );
    assert_eq!(db.get_user(1).unwrap().low_alert, 0);
    assert_eq!(
        cmd_alert(&mut db, 1, "low -20", T1400),
        Ok("\u{2705} Low price alert updated.\n\n\
            You'll be notified when NSW spot price drops below $-20/MWh.\n\
            Previous threshold: $0/MWh\n\n\
            Current settings:\n\
            \u{2022} High alert: $50/MWh\n\
            \u{2022} Low alert: $-20/MWh\n\
            \u{2022} Status: Active"
            .to_string())
    );
    assert_eq!(db.get_user(1).unwrap().low_alert, -20_000_000);
}

#[test]
fn off_and_on_pause_and_resume() {
    let mut db = store();
    assert_eq!(
        cmd_alert(&mut db, 1, "off", T1400),
        Ok("\u{23f8}\u{fe0f} Alerts paused. Use /alert on to resume.".to_string())
    );
    assert!(!db.get_user(1).unwrap().is_active);
    assert_eq!(
        cmd_alert(&mut db, 1, "", T1400),
        Ok("Your current settings:\n\
            \u{2022} High alert: $150/MWh\n\
            \u{2022} Low alert: $0/MWh\n\
            \u{2022} Status: Paused \u{23f8}\u{fe0f}\n\n\
            Usage:\n\
            /alert high <value> \u{2014} e.g. /alert high 200\n\
            /alert low <value> \u{2014} e.g. /alert low -20\n\
            /alert off \u{2014} Pause notifications\n\
            /alert on \u{2014} Resume notifications"
            .to_string())
    );
    assert_eq!(cmd_alert(&mut db, 1, "on", T1400), Ok("\u{25b6}\u{fe0f} Alerts resumed.".to_string()));
    assert!(db.get_user(1).unwrap().is_active);
}

#[test]
fn a_word_that_is_no_number_gets_no_reply() {
    let mut db = store();
    assert_eq!(cmd_alert(&mut db, 1, "high lots", T1400), Err(CommandError::InvalidNumber));
    assert_eq!(
        cmd_alert(&mut db, 9, "high lots", T1400),
        Ok("Please use /start to set your region first.".to_string())
    );
}

#[test]
fn commands_are_served_from_the_store() {
    let mut db = store();
    let now = Clock::at(T1400 + 420).unwrap();
    let start = handle(&mut db, 1, &Command::Start, &now).ok().unwrap();
    assert_eq!(start.text, welcome_message());
    assert!(start.region_keyboard);
    let region = handle(&mut db, 1, &Command::Region, &now).ok().unwrap();
    assert_eq!(region.text, "Select your new region:");
    assert!(region.region_keyboard);
    let help = handle(&mut db, 1, &Command::Help, &now).ok().unwrap();
    assert_eq!(help.text, help_message());
    assert!(!help.region_keyboard);
    assert_eq!(handle(&mut db, 1, &Command::About, &now).ok().unwrap().text, about_message());

    let none = handle(&mut db, 1, &Command::Price, &now).ok().unwrap();
    assert_eq!(none.text, "No price data available yet. Please try again shortly.");
    let unknown = handle(&mut db, 5, &Command::Price, &now).ok().unwrap();
    assert_eq!(unknown.text, "Please use /start to set your region first.");

    db.insert_price("NSW1", 85_123_450, "2026/02/27 14:00:00", T1400 + 90);
    db.insert_price("NSW1", 40_000_000, "2026/02/27 13:55:00", T1400 - 210);
    let price = handle(&mut db, 1, &Command::Price, &now).ok().unwrap();
    assert_eq!(
        price.text,
        "\u{26a1} NSW Spot Price\n\n$85.12/MWh \u{1f7e1} Normal\n\n\
         No action needed \u{2014} prices are within typical range.\n\n\
         Updated: 14:00 AEST (7 min ago) \u{26a0}\u{fe0f} | Today's range: $40 ~ $85"
    );

    db.insert_forecast("NSW1", "2026/02/27 15:00:00", 120_000_000, "p", T1400);
    db.insert_forecast("NSW1", "2026/02/27 16:00:00", 320_000_000, "p", T1400);
    db.insert_forecast("NSW1", "2026/02/27 17:00:00", 220_000_000, "p", T1400);
    db.insert_forecast("NSW1", "2026/02/27 21:00:00", 999_000_000, "p", T1400);
    let forecast = handle(&mut db, 1, &Command::Forecast, &now).ok().unwrap();
    assert_eq!(
        forecast.text,
        "\u{1f4c8} NSW Price Forecast\n\n\
         15:00  $120/MWh   \u{1f7e0}  \u{2190} Peak expected\n\
         16:00  $320/MWh   \u{1f534}  \u{2190} Peak expected\n\
         17:00  $220/MWh   \u{1f534}\n\n\
         \u{1f4a1} Peak expected around 16:00.\n\n\
         \u{26a0}\u{fe0f} Forecasts are estimates and may change."
    );

    db.log_alert(1, "spike", 1, "NSW1", T1400);
    let status = handle(&mut db, 1, &Command::Status, &now).ok().unwrap();
    assert_eq!(
        status.text,
        "\u{1f4cb} Your Settings\n\n\
         Region: NSW\n\
         High price alert: $150/MWh\n\
         Low price alert: $0/MWh\n\
         Alerts: Active \u{2705}\n\
         Member since: 2026-02-26\n\
         Alerts received this week: 1"
    );

    let alert = handle(&mut db, 1, &Command::Alert("high 300".to_string()), &now).ok().unwrap();
    assert!(alert.text.starts_with("\u{2705} High price alert updated."));
    assert_eq!(db.get_user(1).unwrap().high_alert, 300_000_000);
    assert!(handle(&mut db, 1, &Command::Alert("low x".to_string()), &now).is_err());
}

#[test]
fn a_chosen_region_is_stored_and_confirmed() {
    let mut db = Db::new();
    assert_eq!(callbacks::handle(&mut db, 7, None, T1400), None);
    assert_eq!(callbacks::handle(&mut db, 7, Some("other:NSW1"), T1400), None);
    assert!(db.get_user(7).is_none());
    let text = callbacks::handle(&mut db, 7, Some("region:QLD1"), T1400).unwrap();
    assert_eq!(
        text,
        "\u{2705} You're set up for QLD.\n\n\
         Current alerts:\n\
         \u{2022} High price: $150/MWh (notify when price goes above)\n\
         \u{2022} Low price: $0/MWh (notify when price drops below)\n\n\
         Commands:\n\
         /price \u{2014} Current spot price\n\
         /forecast \u{2014} Next few hours outlook\n\
         /alert \u{2014} Customise alert thresholds\n\
         /status \u{2014} View your settings\n\
         /help \u{2014} All commands"
    );
    assert_eq!(db.get_user(7).unwrap().region, "QLD1");
    db.update_high_alert(7, 300_000_000, T1400);
    let again = callbacks::handle(&mut db, 7, Some("region:SA1"), T1400 + 1).unwrap();
    assert!(again.contains("You're set up for SA."));
    assert!(again.contains("High price: $300/MWh"));
    assert_eq!(db.get_user(7).unwrap().region, "SA1");
}

#[test]
fn price_levels_change_at_their_bounds() {
    assert_eq!(price_level(-1).1, "Negative");
    assert_eq!(price_level(0).1, "Low");
    assert_eq!(price_level(49_999_999).1, "Low");
    assert_eq!(price_level(50_000_000).1, "Normal");
    assert_eq!(price_level(100_000_000).1, "Elevated");
    assert_eq!(price_level(200_000_000).1, "High");
    assert_eq!(price_level(499_999_999).1, "High");
    assert_eq!(price_level(500_000_000).1, "Extreme");
    assert_eq!(price_level(500_000_000).0, "\u{1f534}\u{1f525}");
}

#[test]
fn the_price_response_tells_the_age() {
    let fresh = format_price_response("VIC1", -2_500_000, "2026/02/27 14:00:00", None, 1);
    assert_eq!(
        fresh,
        "\u{26a1} VIC Spot Price\n\n$-2.50/MWh \u{1f7e2}\u{1f4b0} Negative\n\n\
         Charge from grid. Run heavy appliances. You're being paid to use power.\n\n\
         Updated: 14:00 AEST (just now) | No data for today yet."
    );
    let unknown = format_price_response("VIC1", 0, "?", None, -1);
    assert!(unknown.ends_with("Updated: ? AEST | No data for today yet."));
    let five = format_price_response("VIC1", 0, "2026/02/27 14:00:00", Some((0, 0)), 5);
    assert!(five.ends_with("Updated: 14:00 AEST (5 min ago) | Today's range: $0 ~ $0"));
}

#[test]
fn an_empty_forecast_says_so() {
    assert_eq!(
        format_forecast_response("TAS1", &[]),
        "\u{1f4c8} TAS Price Forecast\n\nNo forecast data available."
    );
}

#[test]
fn send_failures_are_told_apart_by_their_description() {
    assert_eq!(classify_send_error("Forbidden: bot was blocked by the user"), SendError::Forbidden);
    assert_eq!(classify_send_error("A Telegram's error: Forbidden"), SendError::Forbidden);
    assert_eq!(classify_send_error("forbidden"), SendError::Other);
    assert_eq!(classify_send_error("network timeout"), SendError::Other);
    assert_eq!(classify_send_error(""), SendError::Other);
}

#[test]
fn settings_come_from_three_values() {
    let c = Config::from_env(Some("t0ken".to_string()), None, Some("-42".to_string()))
        .ok()
        .unwrap();
    assert_eq!(c.teloxide_token, "t0ken");
    assert_eq!(c.database_url, "./data/nem_price.db");
    assert_eq!(c.admin_chat_id, Some(-42));
    let c = Config::from_env(
        Some("t".to_string()),
        Some("/tmp/x.db".to_string()),
        Some("4 2".to_string()),
    )
    .ok()
    .unwrap();
    assert_eq!(c.database_url, "/tmp/x.db");
    assert_eq!(c.admin_chat_id, None);
    assert!(matches!(
        Config::from_env(None, Some("/tmp/x.db".to_string()), None),
        Err(ConfigError::MissingToken)
    ));
}

#[test]
fn whole_numbers_are_read_within_sixty_four_bits() {
    let p = |s: &str| parse_integer(&s.chars().collect::<Vec<char>>());
    assert_eq!(p("0"), Some(0));
    assert_eq!(p("+15"), Some(15));
    assert_eq!(p("-0012"), Some(-12));
    assert_eq!(p("9223372036854775807"), Some(i64::MAX));
    assert_eq!(p("9223372036854775808"), None);
    assert_eq!(p("-9223372036854775808"), Some(i64::MIN));
    assert_eq!(p("-9223372036854775809"), None);
    assert_eq!(p("99999999999999999999999999"), None);
    assert_eq!(p(""), None);
    assert_eq!(p("-"), None);
    assert_eq!(p("1.5"), None);
    assert_eq!(p("12a"), None);
}

#[test]
fn the_weather_of_tomorrow_is_the_second_day() {
    assert_eq!(region_geohash("NSW1"), Some("r3gx2f"));
    assert_eq!(region_geohash("TAS1"), Some("r228fh"));
    assert_eq!(region_geohash("NT1"), None);
    assert_eq!(
        forecast_url("QLD1"),
        Some("https://api.weather.bom.gov.au/v1/locations/r7hg1c/forecasts/daily".to_string())
    );
    assert_eq!(forecast_url("nowhere"), None);
    assert_eq!(classify_solar("sunny"), SolarPotential::Excellent);
    assert_eq!(classify_solar("clear"), SolarPotential::Excellent);
    assert_eq!(classify_solar("mostly_sunny"), SolarPotential::Good);
    assert_eq!(classify_solar("hazy"), SolarPotential::Moderate);
    assert_eq!(classify_solar("rain"), SolarPotential::Poor);
    assert_eq!(classify_solar(""), SolarPotential::Poor);
    assert_eq!(SolarPotential::Good.label(), "Good solar day");
    assert_eq!(SolarPotential::Moderate.emoji(), "\u{26c5}");
    let day = |t: Option<i64>, icon: Option<&str>, text: Option<&str>| DayForecast {
        temp_max: t,
        icon_descriptor: icon.map(|s| s.to_string()),
        short_text: text.map(|s| s.to_string()),
    };
    assert!(tomorrow_of(&vec![]).is_none());
    assert!(tomorrow_of(&vec![day(Some(300), Some("sunny"), Some("Hot."))]).is_none());
    let w = tomorrow_of(&vec![
        day(Some(300), Some("rain"), Some("Wet.")),
        day(Some(285), Some("partly_cloudy"), Some("Cloud.")),
        day(None, None, None),
    ])
    .unwrap();
    assert_eq!(w.temp_max, Some(285));
    assert_eq!(w.description, "Cloud.");
    assert_eq!(w.solar, SolarPotential::Moderate);
    let bare = tomorrow_of(&vec![day(None, None, None), day(None, None, None)]).unwrap();
    assert_eq!(bare.temp_max, None);
    assert_eq!(bare.description, "");
    assert_eq!(bare.solar, SolarPotential::Poor);
}
