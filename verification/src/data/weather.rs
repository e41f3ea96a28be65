//! Tomorrow's weather outlook for the capital of a market region.

use vstd::prelude::*;
use vstd::string::*;
use crate::text::same_text;

verus! {

/// How much solar generation a day's weather promises.
#[derive(Clone, Copy, Debug, PartialEq, Eq, Structural)]
pub enum SolarPotential {
    Excellent,
    Good,
    Moderate,
    Poor,
}

impl SolarPotential {
    /// The pictogram of each potential.
    pub open spec fn emoji_text(self) -> Seq<char> {
        match self {
            SolarPotential::Excellent => "\u{2600}\u{fe0f}"@,
            SolarPotential::Good => "\u{1f324}\u{fe0f}"@,
            SolarPotential::Moderate => "\u{26c5}"@,
            SolarPotential::Poor => "\u{1f327}\u{fe0f}"@,
        }
    }

    /// The words for each potential.
    pub open spec fn label_text(self) -> Seq<char> {
        match self {
            SolarPotential::Excellent => "Excellent solar day"@,
            SolarPotential::Good => "Good solar day"@,
            SolarPotential::Moderate => "Moderate solar"@,
            SolarPotential::Poor => "Poor solar day"@,
        }
    }

    /// The pictogram shown for this potential.
    pub fn emoji(&self) -> (r: &'static str)
        ensures
            r@ == self.emoji_text(),
    {
        match self {
            SolarPotential::Excellent => "\u{2600}\u{fe0f}",
            SolarPotential::Good => "\u{1f324}\u{fe0f}",
            SolarPotential::Moderate => "\u{26c5}",
            SolarPotential::Poor => "\u{1f327}\u{fe0f}",
        }
    }

    /// The words shown for this potential.
    pub fn label(&self) -> (r: &'static str)
        ensures
            r@ == self.label_text(),
    {
        match self {
            SolarPotential::Excellent => "Excellent solar day",
            SolarPotential::Good => "Good solar day",
            SolarPotential::Moderate => "Moderate solar",
            SolarPotential::Poor => "Poor solar day",
        }
    }
}

/// The geohash of the capital of a market region, where the region is known.
pub open spec fn geohash_of(region: Seq<char>) -> Option<Seq<char>> {
    if region == "NSW1"@ {
        Some("r3gx2f"@)
    } else if region == "VIC1"@ {
        Some("r1r0fs"@)
    } else if region == "QLD1"@ {
        Some("r7hg1c"@)
    } else if region == "SA1"@ {
        Some("r1f94e"@)
    } else if region == "TAS1"@ {
        Some("r228fh"@)
    } else {
        None
    }
}

/// The geohash under which the weather service files the capital of `region`:
/// Sydney, Melbourne, Brisbane, Adelaide or Hobart. `None` for any other text.
pub fn region_geohash(region: &str) -> (r: Option<&'static str>)
    ensures
        match r {
            Some(g) => geohash_of(region@) == Some(g@),
            None => geohash_of(region@) is None,
        },
{
    if same_text(region, "NSW1") {
        Some("r3gx2f")
    } else if same_text(region, "VIC1") {
        Some("r1r0fs")
    } else if same_text(region, "QLD1") {
        Some("r7hg1c")
    } else if same_text(region, "SA1") {
        Some("r1f94e")
    } else if same_text(region, "TAS1") {
        Some("r228fh")
    } else {
        None
    }
}

/// The solar potential that an icon descriptor of the weather service stands for.
pub open spec fn solar_of(icon: Seq<char>) -> SolarPotential {
    if icon == "sunny"@ || icon == "clear"@ {
        SolarPotential::Excellent
    } else if icon == "mostly_sunny"@ {
        SolarPotential::Good
    } else if icon == "partly_cloudy"@ || icon == "hazy"@ {
        SolarPotential::Moderate
    } else {
        SolarPotential::Poor
    }
}

/// Classifies an icon descriptor; every descriptor that names no sun is `Poor`.
pub fn classify_solar(icon: &str) -> (r: SolarPotential)
    ensures
        r == solar_of(icon@),
{
    if same_text(icon, "sunny") || same_text(icon, "clear") {
        SolarPotential::Excellent
    } else if same_text(icon, "mostly_sunny") {
        SolarPotential::Good
    } else if same_text(icon, "partly_cloudy") || same_text(icon, "hazy") {
        SolarPotential::Moderate
    } else {
        SolarPotential::Poor
    }
}

/// One day of the weather service's daily forecast, as far as it is read.
#[derive(Debug)]
pub struct DayForecast {
    /// Tenths of a degree Celsius.
    pub temp_max: Option<i64>,
    pub icon_descriptor: Option<String>,
    pub short_text: Option<String>,
}

/// Tomorrow's outlook for a region.
#[derive(Debug)]
pub struct WeatherForecast {
    /// Tenths of a degree Celsius.
    pub temp_max: Option<i64>,
    pub description: String,
    pub solar: SolarPotential,
}

/// An outlook as a value.
pub ghost struct WeatherForecastView {
    pub temp_max: Option<int>,
    pub description: Seq<char>,
    pub solar: SolarPotential,
}

/// A temperature as a number, where there is one.
pub open spec fn temperature_view(t: Option<i64>) -> Option<int> {
    match t {
        Some(v) => Some(v as int),
        None => None,
    }
}

impl View for WeatherForecast {
    type V = WeatherForecastView;

    open spec fn view(&self) -> WeatherForecastView {
        WeatherForecastView {
            temp_max: temperature_view(self.temp_max),
            description: self.description@,
            solar: self.solar,
        }
    }
}

/// A text where there is one, the empty text where there is none.
pub open spec fn text_or_empty(t: Option<String>) -> Seq<char> {
    match t {
        Some(s) => s@,
        None => Seq::<char>::empty(),
    }
}

/// The outlook that a day of the forecast gives: its highest temperature,
/// its short text, and the solar potential of its icon; a day without a
/// text or an icon counts as one with an empty text or icon.
pub open spec fn outlook_of(day: DayForecast) -> WeatherForecastView {
    WeatherForecastView {
        temp_max: temperature_view(day.temp_max),
        description: text_or_empty(day.short_text),
        solar: solar_of(text_or_empty(day.icon_descriptor)),
    }
}

/// Tomorrow's outlook from the daily forecast, whose first day is today and
/// whose second is tomorrow; `None` where the forecast has fewer than two days.
pub fn tomorrow_of(days: &Vec<DayForecast>) -> (r: Option<WeatherForecast>)
    ensures
        match r {
            Some(w) => days@.len() >= 2 && w@ == outlook_of(days@[1]),
            None => days@.len() < 2,
        },
{
    if days.len() < 2 {
        return None;
    }
    let day = &days[1];
    let solar = match &day.icon_descriptor {
        Some(icon) => classify_solar(icon.as_str()),
        None => {
            let none = String::new();
            classify_solar(none.as_str())
        },
    };
    let description = match &day.short_text {
        Some(t) => t.clone(),
        None => String::new(),
    };
    Some(WeatherForecast { temp_max: day.temp_max, description, solar })
}

/// Where the daily forecast of a place is asked for.
pub open spec fn forecast_url_text(geohash: Seq<char>) -> Seq<char> {
    "https://api.weather.bom.gov.au/v1/locations/"@ + geohash + "/forecasts/daily"@
}

/// Where the daily forecast for the capital of a region is asked for; `None`
/// for a text that names no region.
pub fn forecast_url(region: &str) -> (r: Option<String>)
    ensures
        match r {
            Some(url) => geohash_of(region@) matches Some(g) && url@ == forecast_url_text(g),
            None => geohash_of(region@) is None,
        },
{
    match region_geohash(region) {
        Some(g) => {
            let mut url = String::from_str("https://api.weather.bom.gov.au/v1/locations/");
            url.append(g);
            url.append("/forecasts/daily");
            Some(url)
        },
        None => None,
    }
}

impl Clone for WeatherForecast {
    fn clone(&self) -> (r: Self)
        ensures
            r@ == self@,
    {
        WeatherForecast {
            temp_max: self.temp_max,
            description: self.description.clone(),
            solar: self.solar,
        }
    }
}

} // verus!
