//! The texts the bot sends.

use vstd::prelude::*;
use vstd::string::*;
use crate::data::weather::{SolarPotential, WeatherForecast, WeatherForecastView};
use crate::db::rows::{entry_views, DailyStats};
use crate::price::{
    cents_text,
    dollars_text,
    int_text,
    magnitude,
    magnitude_of,
    nat_text,
    push_cents,
    push_dollars,
    push_int,
    push_nat,
    push_tenths,
    round_half_even,
    rounded,
    sign_text,
    tenths_text,
};
use crate::text::{push_char, same_text};

verus! {

/// The short name under which a market region is shown.
pub open spec fn region_display_text(region: Seq<char>) -> Seq<char> {
    if region == "NSW1"@ {
        "NSW"@
    } else if region == "VIC1"@ {
        "VIC"@
    } else if region == "QLD1"@ {
        "QLD"@
    } else if region == "SA1"@ {
        "SA"@
    } else if region == "TAS1"@ {
        "TAS"@
    } else {
        region
    }
}

/// The short name of a market region; any other text is shown as it is.
pub fn region_display<'a>(region: &'a str) -> (r: &'a str)
    ensures
        r@ == region_display_text(region@),
{
    if same_text(region, "NSW1") {
        "NSW"
    } else if same_text(region, "VIC1") {
        "VIC"
    } else if same_text(region, "QLD1") {
        "QLD"
    } else if same_text(region, "SA1") {
        "SA"
    } else if same_text(region, "TAS1") {
        "TAS"
    } else {
        region
    }
}

/// The hour and minute of an interval time: characters 11 to 15 of a text of
/// at least 16 characters, and the whole text where it is shorter.
pub open spec fn time_short_text(interval_time: Seq<char>) -> Seq<char> {
    if interval_time.len() >= 16 {
        interval_time.subrange(11, 16)
    } else {
        interval_time
    }
}

/// `"2026/02/27 14:35:00"` becomes `"14:35"`.
pub fn format_time_short<'a>(interval_time: &'a str) -> (r: &'a str)
    ensures
        r@ == time_short_text(interval_time@),
{
    if interval_time.unicode_len() >= 16 {
        interval_time.substring_char(11, 16)
    } else {
        interval_time
    }
}

/// The text of the greeting.
pub open spec fn welcome_text() -> Seq<char> {
    "Welcome to NEM Price Bot! \u{26a1}\n\n\
     I'll send you real-time electricity price alerts so you know\n\
     when to charge and discharge your home battery.\n\n\
     Select your NEM region:"@
}

/// The greeting that asks a new user for a region.
pub fn welcome_message() -> (r: &'static str)
    ensures
        r@ == welcome_text(),
{
    "Welcome to NEM Price Bot! \u{26a1}\n\n\
     I'll send you real-time electricity price alerts so you know\n\
     when to charge and discharge your home battery.\n\n\
     Select your NEM region:"
}

/// The text of the list of commands.
pub open spec fn help_text() -> Seq<char> {
    "NEM Price Bot \u{2014} Help \u{26a1}\n\n\
     \u{1f4ca} Check prices:\n\
     /price \u{2014} Current spot price for your region\n\
     /forecast \u{2014} Price forecast for next 4\u{2013}6 hours\n\n\
     \u{1f514} Manage alerts:\n\
     /alert high 200 \u{2014} Notify above $200/MWh\n\
     /alert low -20 \u{2014} Notify below -$20/MWh\n\
     /alert off \u{2014} Pause notifications\n\
     /alert on \u{2014} Resume notifications\n\n\
     \u{2699}\u{fe0f} Settings:\n\
     /status \u{2014} View current settings\n\
     /region \u{2014} Change your NEM region\n\n\
     \u{2139}\u{fe0f} About:\n\
     /about \u{2014} What is this bot and where does the data come from\n\n\
     Data source: AEMO (aemo.com.au)\n\
     Prices update every 5 minutes.\n\n\
     \u{26a0}\u{fe0f} This is an information service only. Always verify\n\
     before making decisions. Not financial advice."@
}

/// The list of commands.
pub fn help_message() -> (r: &'static str)
    ensures
        r@ == help_text(),
{
    "NEM Price Bot \u{2014} Help \u{26a1}\n\n\
     \u{1f4ca} Check prices:\n\
     /price \u{2014} Current spot price for your region\n\
     /forecast \u{2014} Price forecast for next 4\u{2013}6 hours\n\n\
     \u{1f514} Manage alerts:\n\
     /alert high 200 \u{2014} Notify above $200/MWh\n\
     /alert low -20 \u{2014} Notify below -$20/MWh\n\
     /alert off \u{2014} Pause notifications\n\
     /alert on \u{2014} Resume notifications\n\n\
     \u{2699}\u{fe0f} Settings:\n\
     /status \u{2014} View current settings\n\
     /region \u{2014} Change your NEM region\n\n\
     \u{2139}\u{fe0f} About:\n\
     /about \u{2014} What is this bot and where does the data come from\n\n\
     Data source: AEMO (aemo.com.au)\n\
     Prices update every 5 minutes.\n\n\
     \u{26a0}\u{fe0f} This is an information service only. Always verify\n\
     before making decisions. Not financial advice."
}

/// The text on the bot and its data.
pub open spec fn about_text() -> Seq<char> {
    "NEM Price Bot \u{26a1}\n\n\
     An independent electricity price alert tool for Australian\n\
     solar + battery households.\n\n\
     \u{1f4e1} Data source:\n\
     Wholesale spot prices from AEMO's NEM dispatch system\n\
     (nemweb.com.au). Updated every 5 minutes.\n\n\
     \u{1f512} Privacy:\n\
     We only store your Telegram chat ID and region selection.\n\
     No personal information is collected.\n\n\
     \u{26a0}\u{fe0f} Disclaimer:\n\
     This service provides wholesale market data for\n\
     informational purposes only. It does not constitute\n\
     financial, energy, or investment advice. Always verify\n\
     information before acting. Battery operation is entirely\n\
     at your own discretion and risk.\n\n\
     Built with \u{1f980} Rust"@
}

/// What the bot is and where its data comes from.
pub fn about_message() -> (r: &'static str)
    ensures
        r@ == about_text(),
{
    "NEM Price Bot \u{26a1}\n\n\
     An independent electricity price alert tool for Australian\n\
     solar + battery households.\n\n\
     \u{1f4e1} Data source:\n\
     Wholesale spot prices from AEMO's NEM dispatch system\n\
     (nemweb.com.au). Updated every 5 minutes.\n\n\
     \u{1f512} Privacy:\n\
     We only store your Telegram chat ID and region selection.\n\
     No personal information is collected.\n\n\
     \u{26a0}\u{fe0f} Disclaimer:\n\
     This service provides wholesale market data for\n\
     informational purposes only. It does not constitute\n\
     financial, energy, or investment advice. Always verify\n\
     information before acting. Battery operation is entirely\n\
     at your own discretion and risk.\n\n\
     Built with \u{1f980} Rust"
}

/// Pictogram, name and advice for a price: negative below 0 dollars, low
/// below 50, normal below 100, elevated below 200, high below 500, extreme
/// from there on.
pub open spec fn price_level_texts(price: int) -> (Seq<char>, Seq<char>, Seq<char>) {
    if price < 0 {
        (
            "\u{1f7e2}\u{1f4b0}"@,
            "Negative"@,
            "Charge from grid. Run heavy appliances. You're being paid to use power."@,
        )
    } else if price < 50_000_000 {
        ("\u{1f7e2}"@, "Low"@, "Good time to charge battery from grid."@)
    } else if price < 100_000_000 {
        (
            "\u{1f7e1}"@,
            "Normal"@,
            "No action needed \u{2014} prices are within typical range."@,
        )
    } else if price < 200_000_000 {
        ("\u{1f7e0}"@, "Elevated"@, "Consider switching to battery power."@)
    } else if price < 500_000_000 {
        ("\u{1f534}"@, "High"@, "Discharge battery. Minimise grid usage."@)
    } else {
        (
            "\u{1f534}\u{1f525}"@,
            "Extreme"@,
            "Discharge and export to grid immediately. Pause heavy appliances."@,
        )
    }
}

/// Pictogram, name and advice for a price.
pub fn price_level(price: i64) -> (r: (&'static str, &'static str, &'static str))
    ensures
        (r.0@, r.1@, r.2@) == price_level_texts(price as int),
{
    if price < 0 {
        (
            "\u{1f7e2}\u{1f4b0}",
            "Negative",
            "Charge from grid. Run heavy appliances. You're being paid to use power.",
        )
    } else if price < 50_000_000 {
        ("\u{1f7e2}", "Low", "Good time to charge battery from grid.")
    } else if price < 100_000_000 {
        ("\u{1f7e1}", "Normal", "No action needed \u{2014} prices are within typical range.")
    } else if price < 200_000_000 {
        ("\u{1f7e0}", "Elevated", "Consider switching to battery power.")
    } else if price < 500_000_000 {
        ("\u{1f534}", "High", "Discharge battery. Minimise grid usage.")
    } else {
        (
            "\u{1f534}\u{1f525}",
            "Extreme",
            "Discharge and export to grid immediately. Pause heavy appliances.",
        )
    }
}

/// `Today's range: $lo ~ $hi`, in whole dollars.
pub open spec fn range_text(lo: int, hi: int) -> Seq<char> {
    "Today's range: $"@ + dollars_text(lo) + " ~ $"@ + dollars_text(hi)
}

fn push_range(s: &mut String, lo: i64, hi: i64)
    ensures
        final(s)@ == old(s)@ + range_text(lo as int, hi as int),
{
    let mut t = String::from_str("Today's range: $");
    push_dollars(&mut t, lo);
    t.append(" ~ $");
    push_dollars(&mut t, hi);
    s.append(t.as_str());
}

/// The text of a high-price alert: the price with cents, the threshold, the
/// advice, and the day's range where it is known.
pub open spec fn high_alert_text(
    region: Seq<char>,
    price: int,
    threshold: int,
    daily_range: Option<(int, int)>,
) -> Seq<char> {
    "\u{26a1} HIGH PRICE \u{2014} "@ + region_display_text(region) + "\n\nCurrent price: $"@
        + cents_text(price) + "/MWh \u{1f534}\nYour threshold: $"@ + dollars_text(threshold)
        + "/MWh\n\n\
         \u{1f4a1} What to do:\n\
         \u{2192} Switch battery to discharge / export mode\n\
         \u{2192} Avoid running dishwasher, dryer, pool pump\n\
         \u{2192} If on a VPP, ensure export is enabled\n\n"@
        + match daily_range {
        Some((lo, hi)) => range_text(lo, hi),
        None => Seq::<char>::empty(),
    }
}

/// The alert for a price above the user's high threshold.
pub fn format_high_alert(region: &str, price: i64, threshold: i64, daily_range: Option<(i64, i64)>)
    -> (r: String)
    ensures
        r@ == high_alert_text(
            region@,
            price as int,
            threshold as int,
            match daily_range {
                Some((lo, hi)) => Some((lo as int, hi as int)),
                None => None,
            },
        ),
{
    let mut s = String::from_str("\u{26a1} HIGH PRICE \u{2014} ");
    s.append(region_display(region));
    s.append("\n\nCurrent price: $");
    push_cents(&mut s, price);
    s.append("/MWh \u{1f534}\nYour threshold: $");
    push_dollars(&mut s, threshold);
    s.append(
        "/MWh\n\n\
         \u{1f4a1} What to do:\n\
         \u{2192} Switch battery to discharge / export mode\n\
         \u{2192} Avoid running dishwasher, dryer, pool pump\n\
         \u{2192} If on a VPP, ensure export is enabled\n\n",
    );
    match daily_range {
        Some((lo, hi)) => {
            push_range(&mut s, lo, hi);
        },
        None => {
            assert(s@ + Seq::<char>::empty() =~= s@);
        },
    }
    s
}

/// The text of a low-price alert; a price below zero is called negative.
pub open spec fn low_alert_text(region: Seq<char>, price: int) -> Seq<char> {
    "\u{1f50b} "@ + (if price < 0 {
        "NEGATIVE PRICE"@
    } else {
        "LOW PRICE"@
    }) + " \u{2014} "@ + region_display_text(region) + "\n\nCurrent price: $"@ + cents_text(price)
        + "/MWh \u{1f7e2}\u{1f4b0}\n\n\
         \u{1f4a1} What to do:\n\
         \u{2192} Switch battery to charge from grid\n\
         \u{2192} Run washing machine, dryer, dishwasher\n"@
        + (if price < 0 {
        "\u{2192} You're being PAID to use electricity!"@
    } else {
        ""@
    })
}

/// The alert for a price below the user's low threshold.
pub fn format_low_alert(region: &str, price: i64) -> (r: String)
    ensures
        r@ == low_alert_text(region@, price as int),
{
    let mut s = String::from_str("\u{1f50b} ");
    s.append(
        if price < 0 {
            "NEGATIVE PRICE"
        } else {
            "LOW PRICE"
        },
    );
    s.append(" \u{2014} ");
    s.append(region_display(region));
    s.append("\n\nCurrent price: $");
    push_cents(&mut s, price);
    s.append(
        "/MWh \u{1f7e2}\u{1f4b0}\n\n\
         \u{1f4a1} What to do:\n\
         \u{2192} Switch battery to charge from grid\n\
         \u{2192} Run washing machine, dryer, dishwasher\n",
    );
    s.append(
        if price < 0 {
            "\u{2192} You're being PAID to use electricity!"
        } else {
            ""
        },
    );
    s
}

/// The text of a spike alert: the price before and the price now.
pub open spec fn spike_alert_text(region: Seq<char>, prev: int, current: int) -> Seq<char> {
    "\u{26a0}\u{fe0f} PRICE SPIKE \u{2014} "@ + region_display_text(region)
        + "\n\nPrice jumped from $"@ + dollars_text(prev) + " \u{2192} $"@ + dollars_text(current)
        + "/MWh in 5 minutes!\n\
         This is unusual and may indicate a supply event.\n\n\
         \u{1f4a1} Switch to battery power immediately if you haven't already."@
}

/// The alert for a price that moved by more than the spike threshold.
pub fn format_spike_alert(region: &str, prev: i64, current: i64) -> (r: String)
    ensures
        r@ == spike_alert_text(region@, prev as int, current as int),
{
    let mut s = String::from_str("\u{26a0}\u{fe0f} PRICE SPIKE \u{2014} ");
    s.append(region_display(region));
    s.append("\n\nPrice jumped from $");
    push_dollars(&mut s, prev);
    s.append(" \u{2192} $");
    push_dollars(&mut s, current);
    s.append(
        "/MWh in 5 minutes!\n\
         This is unusual and may indicate a supply event.\n\n\
         \u{1f4a1} Switch to battery power immediately if you haven't already.",
    );
    s
}

/// The text of a forecast warning: the forecast price, its hour and minute,
/// and the current price.
pub open spec fn forecast_alert_text(
    region: Seq<char>,
    forecast_price: int,
    forecast_time: Seq<char>,
    current_price: int,
) -> Seq<char> {
    "\u{1f4e2} HEADS UP \u{2014} "@ + region_display_text(region)
        + "\n\nPrices forecast to reach $"@ + dollars_text(forecast_price) + "+/MWh around "@
        + time_short_text(forecast_time) + ".\nCurrent price: $"@ + dollars_text(current_price)
        + "/MWh \u{1f7e1}\n\n\
         \u{1f4a1} Prepare now:\n\
         \u{2192} Ensure battery is fully charged\n\
         \u{2192} Set battery to discharge when peak begins\n\
         \u{2192} Delay any heavy appliance usage"@
}

/// The warning of a forecast above the user's high threshold.
pub fn format_forecast_alert(
    region: &str,
    forecast_price: i64,
    forecast_time: &str,
    current_price: i64,
) -> (r: String)
    ensures
        r@ == forecast_alert_text(
            region@,
            forecast_price as int,
            forecast_time@,
            current_price as int,
        ),
{
    let mut s = String::from_str("\u{1f4e2} HEADS UP \u{2014} ");
    s.append(region_display(region));
    s.append("\n\nPrices forecast to reach $");
    push_dollars(&mut s, forecast_price);
    s.append("+/MWh around ");
    s.append(format_time_short(forecast_time));
    s.append(".\nCurrent price: $");
    push_dollars(&mut s, current_price);
    s.append(
        "/MWh \u{1f7e1}\n\n\
         \u{1f4a1} Prepare now:\n\
         \u{2192} Ensure battery is fully charged\n\
         \u{2192} Set battery to discharge when peak begins\n\
         \u{2192} Delay any heavy appliance usage",
    );
    s
}

/// The text of an all-clear: the price with cents and its level, and the
/// peak of the day where it is known.
pub open spec fn all_clear_text(region: Seq<char>, price: int, peak: Option<int>) -> Seq<char> {
    "\u{2705} PRICES NORMAL \u{2014} "@ + region_display_text(region)
        + "\n\nPrice has dropped back to $"@ + cents_text(price) + "/MWh "@ + price_level_texts(
        price,
    ).0 + "\n"@ + match peak {
        Some(p) => "\nPeak reached: $"@ + dollars_text(p) + "/MWh"@,
        None => Seq::<char>::empty(),
    }
}

/// The notice that the price is back at or below the user's high threshold.
pub fn format_all_clear(region: &str, price: i64, peak: Option<i64>) -> (r: String)
    ensures
        r@ == all_clear_text(
            region@,
            price as int,
            match peak {
                Some(p) => Some(p as int),
                None => None,
            },
        ),
{
    let mut s = String::from_str("\u{2705} PRICES NORMAL \u{2014} ");
    s.append(region_display(region));
    s.append("\n\nPrice has dropped back to $");
    push_cents(&mut s, price);
    s.append("/MWh ");
    s.append(price_level(price).0);
    s.append("\n");
    match peak {
        Some(p) => {
            let mut t = String::from_str("\nPeak reached: $");
            push_dollars(&mut t, p);
            t.append("/MWh");
            s.append(t.as_str());
        },
        None => {
            assert(s@ + Seq::<char>::empty() =~= s@);
        },
    }
    s
}

/// How old a price is, in words: nothing for an age that is not known
/// (below zero), `just now` up to a minute, the minutes beyond that.
pub open spec fn age_text(age_minutes: int) -> Seq<char> {
    if age_minutes < 0 {
        ""@
    } else if age_minutes <= 1 {
        " (just now)"@
    } else {
        " ("@ + int_text(age_minutes) + " min ago)"@
    }
}

/// The text of the answer to a request for the current price.
pub open spec fn price_response_text(
    region: Seq<char>,
    price: int,
    interval_time: Seq<char>,
    daily_range: Option<(int, int)>,
    age_minutes: int,
) -> Seq<char> {
    "\u{26a1} "@ + region_display_text(region) + " Spot Price\n\n$"@ + cents_text(price)
        + "/MWh "@ + price_level_texts(price).0 + " "@ + price_level_texts(price).1 + "\n\n"@
        + price_level_texts(price).2 + "\n\nUpdated: "@ + time_short_text(interval_time)
        + " AEST"@ + age_text(age_minutes) + (if age_minutes > 5 {
        " \u{26a0}\u{fe0f}"@
    } else {
        ""@
    }) + " | "@ + match daily_range {
        Some((lo, hi)) => range_text(lo, hi),
        None => "No data for today yet."@,
    }
}

/// The answer to a request for the current price. A price older than five
/// minutes is marked as stale.
pub fn format_price_response(
    region: &str,
    price: i64,
    interval_time: &str,
    daily_range: Option<(i64, i64)>,
    age_minutes: i64,
) -> (r: String)
    ensures
        r@ == price_response_text(
            region@,
            price as int,
            interval_time@,
            match daily_range {
                Some((lo, hi)) => Some((lo as int, hi as int)),
                None => None,
            },
            age_minutes as int,
        ),
{
    let level = price_level(price);
    let mut s = String::from_str("\u{26a1} ");
    s.append(region_display(region));
    s.append(" Spot Price\n\n$");
    push_cents(&mut s, price);
    s.append("/MWh ");
    s.append(level.0);
    s.append(" ");
    s.append(level.1);
    s.append("\n\n");
    s.append(level.2);
    s.append("\n\nUpdated: ");
    s.append(format_time_short(interval_time));
    s.append(" AEST");
    if age_minutes < 0 {
        s.append("");
    } else if age_minutes <= 1 {
        s.append(" (just now)");
    } else {
        let mut age = String::from_str(" (");
        push_int(&mut age, age_minutes);
        age.append(" min ago)");
        s.append(age.as_str());
    }
    s.append(
        if age_minutes > 5 {
            " \u{26a0}\u{fe0f}"
        } else {
            ""
        },
    );
    s.append(" | ");
    match daily_range {
        Some((lo, hi)) => {
            push_range(&mut s, lo, hi);
        },
        None => {
            s.append("No data for today yet.");
        },
    }
    s
}

/// The place of the first of the highest prices among `entries`.
pub open spec fn peak_entry(entries: Seq<(Seq<char>, int)>) -> Option<int>
    decreases entries.len(),
{
    if entries.len() == 0 {
        None
    } else {
        let n = entries.len() - 1;
        match peak_entry(entries.drop_last()) {
            None => Some(n),
            Some(b) => if entries[n].1 > entries[b].1 {
                Some(n)
            } else {
                Some(b)
            },
        }
    }
}

/// One line of the forecast list. A forecast is marked where it is higher
/// than all before it.
pub open spec fn forecast_line(entry: (Seq<char>, int), marked: bool) -> Seq<char> {
    time_short_text(entry.0) + "  $"@ + dollars_text(entry.1) + "/MWh   "@ + price_level_texts(
        entry.1,
    ).0 + (if marked {
        "  \u{2190} Peak expected"@
    } else {
        ""@
    })
}

/// The lines of the forecast list, each after a line feed.
pub open spec fn forecast_lines(entries: Seq<(Seq<char>, int)>) -> Seq<char>
    decreases entries.len(),
{
    if entries.len() == 0 {
        Seq::<char>::empty()
    } else {
        forecast_lines(entries.drop_last()) + "\n"@ + forecast_line(
            entries.last(),
            peak_entry(entries) == Some(entries.len() - 1),
        )
    }
}

/// The text of the answer to a request for the forecast.
pub open spec fn forecast_response_text(region: Seq<char>, entries: Seq<(Seq<char>, int)>) -> Seq<
    char,
> {
    match peak_entry(entries) {
        None => "\u{1f4c8} "@ + region_display_text(region)
            + " Price Forecast\n\nNo forecast data available."@,
        Some(p) => "\u{1f4c8} "@ + region_display_text(region) + " Price Forecast\n"@
            + forecast_lines(entries) + "\n\n\u{1f4a1} Peak expected around "@ + time_short_text(
            entries[p].0,
        ) + ".\n\n\u{26a0}\u{fe0f} Forecasts are estimates and may change."@,
    }
}

/// The answer to a request for the forecast: one line for each forecast,
/// and the time of the highest of them.
pub fn format_forecast_response(region: &str, forecasts: &[(String, i64)]) -> (r: String)
    ensures
        r@ == forecast_response_text(region@, entry_views(forecasts@)),
{
    let ghost all = entry_views(forecasts@);
    let mut s = String::from_str("\u{1f4c8} ");
    s.append(region_display(region));
    if forecasts.len() == 0 {
        s.append(" Price Forecast\n\nNo forecast data available.");
        return s;
    }
    s.append(" Price Forecast\n");
    let ghost head = s@;
    let mut peak: Option<usize> = None;
    let mut i: usize = 0;
    assert(all.take(0) =~= Seq::<(Seq<char>, int)>::empty());
    assert(head + Seq::<char>::empty() =~= head);
    while i < forecasts.len()
        invariant
            i <= forecasts@.len(),
            all == entry_views(forecasts@),
            s@ == head + forecast_lines(all.take(i as int)),
            match peak {
                Some(p) => peak_entry(all.take(i as int)) == Some(p as int) && p < i,
                None => peak_entry(all.take(i as int)) is None && i == 0,
            },
        decreases forecasts@.len() - i,
    {
        let ghost t = all.take(i + 1);
        proof {
            assert(t.drop_last() =~= all.take(i as int));
            assert(forall|k: int|
                0 <= k <= i ==> t[k] == (forecasts@[k].0@, forecasts@[k].1 as int));
        }
        let entry = &forecasts[i];
        let marked = match peak {
            None => true,
            Some(p) => entry.1 > forecasts[p].1,
        };
        if marked {
            peak = Some(i);
        }
        let mut line = String::from_str(format_time_short(entry.0.as_str()));
        line.append("  $");
        push_dollars(&mut line, entry.1);
        line.append("/MWh   ");
        line.append(price_level(entry.1).0);
        line.append(
            if marked {
                "  \u{2190} Peak expected"
            } else {
                ""
            },
        );
        let ghost before = s@;
        s.append("\n");
        s.append(line.as_str());
        proof {
            let lines = forecast_lines(all.take(i as int));
            let one = forecast_line(t.last(), marked);
            assert(line@ == one);
            assert((head + lines) + "\n"@ + one =~= head + (lines + "\n"@ + one));
        }
        i += 1;
    }
    assert(all.take(i as int) =~= all);
    match peak {
        None => {},
        Some(p) => {
            assert(all[p as int] == (forecasts@[p as int].0@, forecasts@[p as int].1 as int));
            s.append("\n\n\u{1f4a1} Peak expected around ");
            s.append(format_time_short(forecasts[p].0.as_str()));
            s.append(".\n\n\u{26a0}\u{fe0f} Forecasts are estimates and may change.");
        },
    }
    s
}

/// Hours of negative prices in tenths of an hour, from a number of
/// intervals of five minutes: a twelfth of an hour each, rounded half to even.
pub open spec fn negative_hours_tenths(intervals: nat) -> nat {
    round_half_even(5 * intervals, 6)
}

fn tenths_of_hours(intervals: usize) -> (r: u64)
    ensures
        r == negative_hours_tenths(intervals as nat),
{
    let a: u64 = (intervals / 6) as u64;
    let b: u64 = (intervals % 6) as u64;
    let q: u64 = 5 * a + (5 * b) / 6;
    let rest: u64 = (5 * b) % 6;
    assert((5 * intervals) / 6 == q && (5 * intervals) % 6 == rest);
    if 2 * rest > 6 || (2 * rest == 6 && q % 2 == 1) {
        q + 1
    } else {
        q
    }
}

/// A temperature in whole degrees, from tenths of a degree.
pub open spec fn degrees_text(tenths: int) -> Seq<char> {
    sign_text(tenths) + nat_text(round_half_even(magnitude(tenths), 10))
}

fn push_degrees(s: &mut String, tenths: i64)
    ensures
        final(s)@ == old(s)@ + degrees_text(tenths as int),
{
    if tenths < 0 {
        push_char(s, '-');
    }
    push_nat(s, rounded(magnitude_of(tenths), 10));
    assert(s@ =~= old(s)@ + degrees_text(tenths as int));
}

/// The part of the summary on the day's prices.
pub open spec fn stats_part_text(stats: Option<DailyStats>, peak_time: Option<Seq<char>>) -> Seq<
    char,
> {
    match stats {
        None => "\nNo price data recorded today."@,
        Some(st) => "\nPrice range: $"@ + dollars_text(st.min_price as int) + " ~ $"@
            + dollars_text(st.max_price as int) + "/MWh\nAverage price: $"@ + dollars_text(
            st.avg_price as int,
        ) + "/MWh"@ + (if st.negative_intervals > 0 {
            "\nNegative price hours: "@ + tenths_text(
                negative_hours_tenths(st.negative_intervals as nat),
            ) + "h"@
        } else {
            ""@
        }) + (match peak_time {
            Some(t) => "\nPeak: $"@ + dollars_text(st.max_price as int) + "/MWh at "@
                + time_short_text(t) + " AEST"@,
            None => ""@,
        }),
    }
}

fn stats_part(stats: Option<&DailyStats>, peak_time: Option<&str>) -> (r: String)
    ensures
        r@ == stats_part_text(
            match stats {
                Some(st) => Some(*st),
                None => None,
            },
            match peak_time {
                Some(t) => Some(t@),
                None => None,
            },
        ),
{
    match stats {
        None => String::from_str("\nNo price data recorded today."),
        Some(st) => {
            let mut s = String::from_str("\nPrice range: $");
            push_dollars(&mut s, st.min_price);
            s.append(" ~ $");
            push_dollars(&mut s, st.max_price);
            s.append("/MWh\nAverage price: $");
            push_dollars(&mut s, st.avg_price);
            s.append("/MWh");
            if st.negative_intervals > 0 {
                let mut n = String::from_str("\nNegative price hours: ");
                push_tenths(&mut n, tenths_of_hours(st.negative_intervals));
                n.append("h");
                s.append(n.as_str());
            } else {
                s.append("");
            }
            match peak_time {
                Some(t) => {
                    let mut p = String::from_str("\nPeak: $");
                    push_dollars(&mut p, st.max_price);
                    p.append("/MWh at ");
                    p.append(format_time_short(t));
                    p.append(" AEST");
                    s.append(p.as_str());
                },
                None => {
                    s.append("");
                },
            }
            s
        },
    }
}

/// The advice that goes with a solar potential.
pub open spec fn strategy_text(solar: SolarPotential) -> Seq<char> {
    match solar {
        SolarPotential::Excellent | SolarPotential::Good =>
            "\u{1f50b} Likely negative prices midday\n\
             \u{2022} Morning: Let solar charge battery\n\
             \u{2022} Midday: Charge from grid (negative prices)\n\
             \u{2022} Evening: Discharge during peak"@,
        SolarPotential::Moderate =>
            "\u{26c5} Some solar generation expected\n\
             \u{2022} Midday prices may dip but unlikely negative\n\
             \u{2022} Evening: Discharge during peak if prices rise"@,
        SolarPotential::Poor =>
            "\u{1f327}\u{fe0f} Low solar generation expected\n\
             \u{2022} Prices unlikely to go negative\n\
             \u{2022} Conserve battery for evening peak"@,
    }
}

fn strategy(solar: SolarPotential) -> (r: &'static str)
    ensures
        r@ == strategy_text(solar),
{
    match solar {
        SolarPotential::Excellent | SolarPotential::Good =>
            "\u{1f50b} Likely negative prices midday\n\
             \u{2022} Morning: Let solar charge battery\n\
             \u{2022} Midday: Charge from grid (negative prices)\n\
             \u{2022} Evening: Discharge during peak",
        SolarPotential::Moderate =>
            "\u{26c5} Some solar generation expected\n\
             \u{2022} Midday prices may dip but unlikely negative\n\
             \u{2022} Evening: Discharge during peak if prices rise",
        SolarPotential::Poor =>
            "\u{1f327}\u{fe0f} Low solar generation expected\n\
             \u{2022} Prices unlikely to go negative\n\
             \u{2022} Conserve battery for evening peak",
    }
}

/// The warning for a hot day: from 35 degrees, and from 30 degrees.
pub open spec fn heat_text(temp_max: Option<int>) -> Seq<char> {
    match temp_max {
        Some(t) => if t >= 350 {
            "\n\u{26a1} Extreme heat \u{2014} expect high evening demand and prices"@
        } else if t >= 300 {
            "\n\u{26a1} Hot day \u{2014} possible elevated evening prices"@
        } else {
            ""@
        },
        None => ""@,
    }
}

/// The part of the summary on tomorrow's weather.
pub open spec fn weather_part_text(weather: Option<WeatherForecastView>) -> Seq<char> {
    match weather {
        None => ""@,
        Some(w) => "\n\nTomorrow's outlook:\n"@ + w.solar.emoji_text() + " "@ + w.description + (
        match w.temp_max {
            Some(t) => ", "@ + degrees_text(t) + "\u{00b0}C"@,
            None => ""@,
        }) + " \u{2014} "@ + w.solar.label_text() + "\n"@ + strategy_text(w.solar) + heat_text(
            w.temp_max,
        ),
    }
}

fn weather_part(weather: Option<&WeatherForecast>) -> (r: String)
    ensures
        r@ == weather_part_text(
            match weather {
                Some(w) => Some(w@),
                None => None,
            },
        ),
{
    match weather {
        None => String::from_str(""),
        Some(w) => {
            let mut s = String::from_str("\n\nTomorrow's outlook:\n");
            s.append(w.solar.emoji());
            s.append(" ");
            s.append(w.description.as_str());
            match w.temp_max {
                Some(t) => {
                    let mut d = String::from_str(", ");
                    push_degrees(&mut d, t);
                    d.append("\u{00b0}C");
                    s.append(d.as_str());
                },
                None => {
                    s.append("");
                },
            }
            s.append(" \u{2014} ");
            s.append(w.solar.label());
            s.append("\n");
            s.append(strategy(w.solar));
            match w.temp_max {
                Some(t) => {
                    if t >= 350 {
                        s.append(
                            "\n\u{26a1} Extreme heat \u{2014} expect high evening demand and prices",
                        );
                    } else if t >= 300 {
                        s.append("\n\u{26a1} Hot day \u{2014} possible elevated evening prices");
                    } else {
                        s.append("");
                    }
                },
                None => {
                    s.append("");
                },
            }
            s
        },
    }
}

/// The text of the daily summary.
pub open spec fn daily_summary_text(
    region: Seq<char>,
    date_display: Seq<char>,
    stats: Option<DailyStats>,
    peak_time: Option<Seq<char>>,
    weather: Option<WeatherForecastView>,
    alerts_today: nat,
) -> Seq<char> {
    "\u{1f4ca} Daily Summary \u{2014} "@ + region_display_text(region) + " \u{2014} "@
        + date_display + "\n"@ + stats_part_text(stats, peak_time) + "\n\nAlerts sent today: "@
        + nat_text(alerts_today) + weather_part_text(weather)
        + "\n\nPowered by AEMO + BOM data | /help for commands"@
}

/// The summary of a region's day: its prices, the alerts that the user got,
/// and tomorrow's weather where it is known.
pub fn format_daily_summary(
    region: &str,
    date_display: &str,
    stats: Option<&DailyStats>,
    peak_time: Option<&str>,
    weather: Option<&WeatherForecast>,
    alerts_today: usize,
) -> (r: String)
    ensures
        r@ == daily_summary_text(
            region@,
            date_display@,
            match stats {
                Some(st) => Some(*st),
                None => None,
            },
            match peak_time {
                Some(t) => Some(t@),
                None => None,
            },
            match weather {
                Some(w) => Some(w@),
                None => None,
            },
            alerts_today as nat,
        ),
{
    let mut s = String::from_str("\u{1f4ca} Daily Summary \u{2014} ");
    s.append(region_display(region));
    s.append(" \u{2014} ");
    s.append(date_display);
    s.append("\n");
    let prices = stats_part(stats, peak_time);
    s.append(prices.as_str());
    s.append("\n\nAlerts sent today: ");
    push_nat(&mut s, alerts_today as u64);
    let outlook = weather_part(weather);
    s.append(outlook.as_str());
    s.append("\n\nPowered by AEMO + BOM data | /help for commands");
    s
}

/// The text that confirms a chosen region.
pub open spec fn confirm_region_text(region: Seq<char>, high_alert: int, low_alert: int) -> Seq<
    char,
> {
    "\u{2705} You're set up for "@ + region_display_text(region)
        + ".\n\nCurrent alerts:\n\u{2022} High price: $"@ + dollars_text(high_alert)
        + "/MWh (notify when price goes above)\n\u{2022} Low price: $"@ + dollars_text(low_alert)
        + "/MWh (notify when price drops below)\n\n\
         Commands:\n\
         /price \u{2014} Current spot price\n\
         /forecast \u{2014} Next few hours outlook\n\
         /alert \u{2014} Customise alert thresholds\n\
         /status \u{2014} View your settings\n\
         /help \u{2014} All commands"@
}

/// The confirmation of a chosen region, with the thresholds in force.
pub fn confirm_region(region: &str, high_alert: i64, low_alert: i64) -> (r: String)
    ensures
        r@ == confirm_region_text(region@, high_alert as int, low_alert as int),
{
    let mut s = String::from_str("\u{2705} You're set up for ");
    s.append(region_display(region));
    s.append(".\n\nCurrent alerts:\n\u{2022} High price: $");
    push_dollars(&mut s, high_alert);
    s.append("/MWh (notify when price goes above)\n\u{2022} Low price: $");
    push_dollars(&mut s, low_alert);
    s.append(
        "/MWh (notify when price drops below)\n\n\
         Commands:\n\
         /price \u{2014} Current spot price\n\
         /forecast \u{2014} Next few hours outlook\n\
         /alert \u{2014} Customise alert thresholds\n\
         /status \u{2014} View your settings\n\
         /help \u{2014} All commands",
    );
    s
}

} // verus!
