use nem_price_bot::bot::messages::{
    confirm_region, format_all_clear, format_forecast_alert, format_forecast_response,
    format_high_alert, format_low_alert, format_spike_alert, format_time_short, region_display,
};

fn dollars(d: i64) -> i64 {
    d * 1_000_000
}

#[test]
fn region_display_shortens_known_regions() {
    assert_eq!(region_display("NSW1"), "NSW");
    assert_eq!(region_display("VIC1"), "VIC");
    assert_eq!(region_display("QLD1"), "QLD");
    assert_eq!(region_display("SA1"), "SA");
    assert_eq!(region_display("TAS1"), "TAS");
    assert_eq!(region_display("XYZ"), "XYZ");
    assert_eq!(region_display(""), "");
}

#[test]
fn format_time_short_takes_hour_and_minute() {
    assert_eq!(format_time_short("2026/02/27 14:35:00"), "14:35");
    assert_eq!(format_time_short("2026/02/27 14:35"), "14:35");
    assert_eq!(format_time_short("2026/02/27 14:3"), "2026/02/27 14:3");
    assert_eq!(format_time_short("short"), "short");
    assert_eq!(format_time_short(""), "");
}

#[test]
fn the_high_alert_names_price_threshold_and_range() {
    assert_eq!(
        format_high_alert("NSW1", 250_128_000, dollars(200), Some((dollars(90), 250_128_000))),
        "\u{26a1} HIGH PRICE \u{2014} NSW\n\n\
         Current price: $250.13/MWh \u{1f534}\n\
         Your threshold: $200/MWh\n\n\
         \u{1f4a1} What to do:\n\
         \u{2192} Switch battery to discharge / export mode\n\
         \u{2192} Avoid running dishwasher, dryer, pool pump\n\
         \u{2192} If on a VPP, ensure export is enabled\n\n\
         Today's range: $90 ~ $250"
    );
    assert_eq!(
        format_high_alert("ELSEWHERE", dollars(300), dollars(150), None),
        "\u{26a1} HIGH PRICE \u{2014} ELSEWHERE\n\n\
         Current price: $300.00/MWh \u{1f534}\n\
         Your threshold: $150/MWh\n\n\
         \u{1f4a1} What to do:\n\
         \u{2192} Switch battery to discharge / export mode\n\
         \u{2192} Avoid running dishwasher, dryer, pool pump\n\
         \u{2192} If on a VPP, ensure export is enabled\n\n"
    );
}

#[test]
fn the_low_alert_tells_negative_from_low() {
    assert_eq!(
        format_low_alert("SA1", -12_345_000),
        "\u{1f50b} NEGATIVE PRICE \u{2014} SA\n\n\
         Current price: $-12.34/MWh \u{1f7e2}\u{1f4b0}\n\n\
         \u{1f4a1} What to do:\n\
         \u{2192} Switch battery to charge from grid\n\
         \u{2192} Run washing machine, dryer, dishwasher\n\
         \u{2192} You're being PAID to use electricity!"
    );
    assert_eq!(
        format_low_alert("SA1", dollars(3)),
        "\u{1f50b} LOW PRICE \u{2014} SA\n\n\
         Current price: $3.00/MWh \u{1f7e2}\u{1f4b0}\n\n\
         \u{1f4a1} What to do:\n\
         \u{2192} Switch battery to charge from grid\n\
         \u{2192} Run washing machine, dryer, dishwasher\n"
    );
}

#[test]
fn the_spike_alert_names_both_prices() {
    assert_eq!(
        format_spike_alert("QLD1", dollars(90), dollars(250)),
        "\u{26a0}\u{fe0f} PRICE SPIKE \u{2014} QLD\n\n\
         Price jumped from $90 \u{2192} $250/MWh in 5 minutes!\n\
         This is unusual and may indicate a supply event.\n\n\
         \u{1f4a1} Switch to battery power immediately if you haven't already."
    );
}

#[test]
fn the_forecast_alert_names_the_time() {
    assert_eq!(
        format_forecast_alert("VIC1", dollars(350), "2026/02/27 17:30:00", 80_400_000),
        "\u{1f4e2} HEADS UP \u{2014} VIC\n\n\
         Prices forecast to reach $350+/MWh around 17:30.\n\
         Current price: $80/MWh \u{1f7e1}\n\n\
         \u{1f4a1} Prepare now:\n\
         \u{2192} Ensure battery is fully charged\n\
         \u{2192} Set battery to discharge when peak begins\n\
         \u{2192} Delay any heavy appliance usage"
    );
}

#[test]
fn the_all_clear_names_the_peak_where_it_is_known() {
    assert_eq!(
        format_all_clear("TAS1", dollars(120), Some(dollars(250))),
        "\u{2705} PRICES NORMAL \u{2014} TAS\n\n\
         Price has dropped back to $120.00/MWh \u{1f7e0}\n\n\
         Peak reached: $250/MWh"
    );
    assert_eq!(
        format_all_clear("TAS1", dollars(40), None),
        "\u{2705} PRICES NORMAL \u{2014} TAS\n\n\
         Price has dropped back to $40.00/MWh \u{1f7e2}\n"
    );
}

#[test]
fn the_forecast_list_marks_each_new_peak() {
    let forecasts = vec![
        ("2026/02/27 15:00:00".to_string(), dollars(300)),
        ("2026/02/27 15:30:00".to_string(), dollars(300)),
        ("2026/02/27 16:00:00".to_string(), dollars(-5)),
        ("2026/02/27 16:30:00".to_string(), dollars(600)),
    ];
    assert_eq!(
        format_forecast_response("SA1", &forecasts),
        "\u{1f4c8} SA Price Forecast\n\n\
         15:00  $300/MWh   \u{1f534}  \u{2190} Peak expected\n\
         15:30  $300/MWh   \u{1f534}\n\
         16:00  $-5/MWh   \u{1f7e2}\u{1f4b0}\n\
         16:30  $600/MWh   \u{1f534}\u{1f525}  \u{2190} Peak expected\n\n\
         \u{1f4a1} Peak expected around 16:30.\n\n\
         \u{26a0}\u{fe0f} Forecasts are estimates and may change."
    );
}

#[test]
fn the_confirmation_names_the_thresholds() {
    let text = confirm_region("VIC1", dollars(150), 0);
    assert!(text.starts_with("\u{2705} You're set up for VIC.\n\nCurrent alerts:\n"));
    assert!(text.contains("\u{2022} High price: $150/MWh (notify when price goes above)\n"));
    assert!(text.contains("\u{2022} Low price: $0/MWh (notify when price drops below)\n\n"));
    assert!(text.ends_with("/help \u{2014} All commands"));
}
