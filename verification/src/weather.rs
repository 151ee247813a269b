//! The `get_weather` tool's own logic: the geocoding request, the WMO
//! weather-code descriptions, and the sentences handed back to the model.
use vstd::prelude::*;
use vstd::utf8::encode_utf8;
use crate::ports::HttpFetcher;
use crate::text::push_str;
use crate::url::{percent_encode, encode_bytes};

verus! {

/// The arguments of `get_weather`.
#[derive(Debug, Clone)]
pub struct GetWeatherArgs {
    /// The place to get the weather for, e.g. a city name.
    pub location: String,
}

/// Looks the weather up through an `HttpFetcher`.
pub struct GetWeatherTool<H: HttpFetcher> {
    pub fetcher: H,
}

impl<H: HttpFetcher> GetWeatherTool<H> {
    pub fn new(fetcher: H) -> (r: Self)
        ensures
            r.fetcher == fetcher,
    {
        GetWeatherTool { fetcher }
    }
}

/// The Spanish description of a WMO weather code, for the codes Open-Meteo
/// reports most; any other code reads as variable conditions.
pub open spec fn weather_description(code: u32) -> Seq<char> {
    if code == 0 {
        "cielo despejado"@
    } else if code == 1 || code == 2 {
        "parcialmente nublado"@
    } else if code == 3 {
        "nublado"@
    } else if code == 45 || code == 48 {
        "niebla"@
    } else if code == 51 || code == 53 || code == 55 {
        "llovizna"@
    } else if code == 61 || code == 63 || code == 65 {
        "lluvia"@
    } else if code == 71 || code == 73 || code == 75 {
        "nieve"@
    } else if 80 <= code && code <= 82 {
        "chubascos"@
    } else if code == 95 || code == 96 || code == 99 {
        "tormenta"@
    } else {
        "condiciones variables"@
    }
}

pub fn describe_weather_code(code: u32) -> (s: &'static str)
    ensures
        s@ == weather_description(code),
{
    match code {
        0 => "cielo despejado",
        1 | 2 => "parcialmente nublado",
        3 => "nublado",
        45 | 48 => "niebla",
        51 | 53 | 55 => "llovizna",
        61 | 63 | 65 => "lluvia",
        71 | 73 | 75 => "nieve",
        80..=82 => "chubascos",
        95 | 96 | 99 => "tormenta",
        _ => "condiciones variables",
    }
}

/// `value` percent-encoded for a query string (spaces as `%20`).
pub fn urlencode(value: &str) -> (r: String)
    ensures
        r@ == encode_bytes(encode_utf8(value@), false),
{
    percent_encode(value, false)
}

/// The Open-Meteo geocoding request for `location`.
pub fn geocoding_url(location: &str) -> (s: String)
    ensures
        s@ == "https://geocoding-api.open-meteo.com/v1/search?name="@ + encode_bytes(encode_utf8(location@), false)
            + "&count=1&language=es"@,
{
    let mut s = "https://geocoding-api.open-meteo.com/v1/search?name=".to_owned();
    let q = urlencode(location);
    push_str(&mut s, q.as_str());
    push_str(&mut s, "&count=1&language=es");
    s
}

/// The answer when the location is not found.
pub fn location_not_found(location: &str) -> (s: String)
    ensures
        s@ == "No encontré esa ubicación ("@ + location@ + "). Prueba con otro nombre."@,
{
    let mut s = "No encontré esa ubicación (".to_owned();
    push_str(&mut s, location);
    push_str(&mut s, "). Prueba con otro nombre.");
    s
}

/// The weather sentence, from the place's name, the rounded temperature,
/// humidity and wind speed as text, and the weather code.
pub fn weather_report(place: &str, temperature: &str, code: u32, humidity: &str, wind: &str) -> (s: String)
    ensures
        s@ == "En "@ + place@ + " hace "@ + temperature@ + "°C con "@ + weather_description(code) + " (humedad "@
            + humidity@ + "%, viento "@ + wind@ + " km/h)."@,
{
    let mut s = "En ".to_owned();
    push_str(&mut s, place);
    push_str(&mut s, " hace ");
    push_str(&mut s, temperature);
    push_str(&mut s, "°C con ");
    push_str(&mut s, describe_weather_code(code));
    push_str(&mut s, " (humedad ");
    push_str(&mut s, humidity);
    push_str(&mut s, "%, viento ");
    push_str(&mut s, wind);
    push_str(&mut s, " km/h).");
    s
}

/// Each WMO weather code is described by its own condition, and a
/// condition is named exactly for its codes: clear sky for 0, partly
/// cloudy for 1 and 2, overcast for 3, fog for 45 and 48, drizzle for 51,
/// 53 and 55, rain for 61, 63 and 65, snow for 71, 73 and 75, showers for
/// 80 to 82, thunderstorm for 95, 96 and 99, and variable conditions for
/// every other code. In particular rain and snow are never confused.
pub proof fn weather_codes_name_their_conditions(code: u32)
    ensures
        (weather_description(code) == "cielo despejado"@) == (code == 0),
        (weather_description(code) == "parcialmente nublado"@) == (code == 1 || code == 2),
        (weather_description(code) == "nublado"@) == (code == 3),
        (weather_description(code) == "niebla"@) == (code == 45 || code == 48),
        (weather_description(code) == "llovizna"@) == (code == 51 || code == 53 || code == 55),
        (weather_description(code) == "lluvia"@) == (code == 61 || code == 63 || code == 65),
        (weather_description(code) == "nieve"@) == (code == 71 || code == 73 || code == 75),
        (weather_description(code) == "chubascos"@) == (80 <= code <= 82),
        (weather_description(code) == "tormenta"@) == (code == 95 || code == 96 || code == 99),
        (weather_description(code) == "condiciones variables"@) == !(code == 0 || code == 1 || code == 2 || code == 3
            || code == 45 || code == 48 || code == 51 || code == 53 || code == 55 || code == 61 || code == 63
            || code == 65 || code == 71 || code == 73 || code == 75 || (80 <= code <= 82) || code == 95 || code == 96
            || code == 99),
{
    reveal_strlit("cielo despejado");
    reveal_strlit("parcialmente nublado");
    reveal_strlit("nublado");
    reveal_strlit("niebla");
    reveal_strlit("llovizna");
    reveal_strlit("lluvia");
    reveal_strlit("nieve");
    reveal_strlit("chubascos");
    reveal_strlit("tormenta");
    reveal_strlit("condiciones variables");
    assert("cielo despejado"@.len() == 15);
    assert("parcialmente nublado"@.len() == 20);
    assert("nublado"@.len() == 7);
    assert("niebla"@.len() == 6);
    assert("llovizna"@.len() == 8);
    assert("lluvia"@.len() == 6);
    assert("nieve"@.len() == 5);
    assert("chubascos"@.len() == 9);
    assert("tormenta"@.len() == 8);
    assert("condiciones variables"@.len() == 21);
    assert("niebla"@[1] != "lluvia"@[1]);
    assert("llovizna"@[0] != "tormenta"@[0]);
}

} // verus!
