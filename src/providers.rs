use vstd::prelude::*;

use crate::query::{QueryKey, WeatherQuery};
use crate::series::RawPoint;

verus! {

#[verifier::external_type_specification]
#[verifier::external_body]
pub struct ExUrlError(reqwest::UrlError);

/// Query parameters as text.
pub type UrlParams = Seq<(Seq<char>, Seq<char>)>;

/// The text of the URL that `base`, parsed as an absolute URL, serialises to
/// once `params` are appended, form-encoded, to its query string; `None` when
/// `base` is not an absolute URL.
pub uninterp spec fn encoded_url(base: Seq<char>, params: UrlParams) -> Option<Seq<char>>;

pub open spec fn params_view(params: Seq<(String, String)>) -> UrlParams {
    params.map_values(|p: (String, String)| (p.0@, p.1@))
}

/// Relies on reqwest::Url::parse_with_params (from the url crate): it parses
/// `base` and appends the pairs to the query; the text depends on the
/// arguments alone. It fails only when `base` does not parse.
#[verifier::external_body]
fn url_with_params(base: &str, params: &Vec<(String, String)>) -> (r: Result<String, reqwest::UrlError>)
    ensures
        match r {
            Ok(url) => encoded_url(base@, params_view(params@)) == Some(url@),
            Err(_) => encoded_url(base@, params_view(params@)) is None,
        },
{
    reqwest::Url::parse_with_params(base, params.iter()).map(|url| url.into_string())
}

/// A request address could not be built.
#[derive(Clone, Copy, Debug, PartialEq, Eq, Structural)]
pub enum ProviderError {
    InvalidUrl,
}

/// What building a request address from `base` and `params` gives.
pub open spec fn url_outcome(base: Seq<char>, params: UrlParams) -> Result<Seq<char>, ProviderError> {
    match encoded_url(base, params) {
        Some(url) => Ok(url),
        None => Err(ProviderError::InvalidUrl),
    }
}

pub open spec fn outcome_view(r: Result<String, ProviderError>) -> Result<Seq<char>, ProviderError> {
    match r {
        Ok(url) => Ok(url@),
        Err(e) => Err(e),
    }
}

fn build_url(base: &str, params: &Vec<(String, String)>) -> (r: Result<String, ProviderError>)
    ensures
        outcome_view(r) == url_outcome(base@, params_view(params@)),
{
    match url_with_params(base, params) {
        Ok(url) => Ok(url),
        Err(_) => Err(ProviderError::InvalidUrl),
    }
}

fn param(name: &str, value: &str) -> (r: (String, String))
    ensures
        r.0@ == name@,
        r.1@ == value@,
{
    (name.to_owned(), value.to_owned())
}

// ---------------------------------------------------------------------------
// AerisWeather: https://www.aerisweather.com/support/docs/api/reference/endpoints/forecasts/
// ---------------------------------------------------------------------------

pub struct AerisWeather {
    pub client_id: String,
    pub client_secret: String,
}

pub open spec fn aeris_base(query: QueryKey) -> Seq<char> {
    "https://api.aerisapi.com/forecasts/"@ + query.1 + ","@ + query.0
}

impl AerisWeather {
    pub fn new(client_id: String, client_secret: String) -> (r: Self)
        ensures
            r.client_id@ == client_id@,
            r.client_secret@ == client_secret@,
    {
        Self { client_id, client_secret }
    }

    pub open spec fn url_params(&self) -> UrlParams {
        seq![
            ("limit"@, "5"@),
            ("filter"@, "precise"@),
            ("client_id"@, self.client_id@),
            ("client_secret"@, self.client_secret@),
        ]
    }

    /// The forecast address for a query: the city and country in the path,
    /// five precise periods, and the client credentials.
    pub fn make_url(&self, query: &WeatherQuery) -> (r: Result<String, ProviderError>)
        ensures
            outcome_view(r) == url_outcome(aeris_base(query@), self.url_params()),
    {
        let mut base = "https://api.aerisapi.com/forecasts/".to_owned();
        base.append(query.city().as_str());
        base.append(",");
        base.append(query.country().as_str());
        let params = vec![
            param("limit", "5"),
            param("filter", "precise"),
            param("client_id", self.client_id.as_str()),
            param("client_secret", self.client_secret.as_str()),
        ];
        assert(params_view(params@) =~= self.url_params());
        build_url(base.as_str(), &params)
    }

    /// The readings of a response: its periods when it reports success,
    /// nothing otherwise.
    pub fn forecast_points(success: bool, periods: Vec<RawPoint>) -> (r: Vec<RawPoint>)
        ensures
            r@ == if success {
                periods@
            } else {
                Seq::<RawPoint>::empty()
            },
    {
        if success {
            periods
        } else {
            Vec::new()
        }
    }
}

// ---------------------------------------------------------------------------
// Apixu: https://www.apixu.com/doc/forecast.aspx
// ---------------------------------------------------------------------------

pub struct Apixu {
    pub key: String,
}

/// How many days ahead Apixu is asked for.
pub const MAX_DAYS: &'static str = "7";

impl Apixu {
    pub fn new(key: String) -> (r: Self)
        ensures
            r.key@ == key@,
    {
        Self { key }
    }

    pub open spec fn url_params(&self, query: QueryKey) -> UrlParams {
        seq![("days"@, MAX_DAYS@), ("q"@, query.1), ("key"@, self.key@)]
    }

    /// The forecast address for a query: seven days for the city, and the key.
    pub fn make_url(&self, query: &WeatherQuery) -> (r: Result<String, ProviderError>)
        ensures
            outcome_view(r) == url_outcome(
                "https://api.apixu.com/v1/forecast.json"@,
                self.url_params(query@),
            ),
    {
        let params = vec![
            param("days", MAX_DAYS),
            param("q", query.city().as_str()),
            param("key", self.key.as_str()),
        ];
        assert(params_view(params@) =~= self.url_params(query@));
        build_url("https://api.apixu.com/v1/forecast.json", &params)
    }
}

// ---------------------------------------------------------------------------
// OpenWeatherMap: https://openweathermap.org/forecast5
// ---------------------------------------------------------------------------

pub struct OpenWeatherMap {
    pub app_id: String,
}

impl OpenWeatherMap {
    pub fn new(app_id: String) -> (r: Self)
        ensures
            r.app_id@ == app_id@,
    {
        Self { app_id }
    }

    pub open spec fn url_params(&self, query: QueryKey) -> UrlParams {
        seq![("units"@, "metric"@), ("q"@, query.1), ("APPID"@, self.app_id@)]
    }

    /// The forecast address for a query: metric units, the city, and the key.
    pub fn make_url(&self, query: &WeatherQuery) -> (r: Result<String, ProviderError>)
        ensures
            outcome_view(r) == url_outcome(
                "https://api.openweathermap.org/data/2.5/forecast"@,
                self.url_params(query@),
            ),
    {
        let params = vec![
            param("units", "metric"),
            param("q", query.city().as_str()),
            param("APPID", self.app_id.as_str()),
        ];
        assert(params_view(params@) =~= self.url_params(query@));
        build_url("https://api.openweathermap.org/data/2.5/forecast", &params)
    }
}

// ---------------------------------------------------------------------------
// WeatherBit: https://www.weatherbit.io/api/weather-forecast-16-day
// ---------------------------------------------------------------------------

pub struct WeatherBit {
    pub key: String,
}

impl WeatherBit {
    pub fn new(key: String) -> (r: Self)
        ensures
            r.key@ == key@,
    {
        Self { key }
    }

    pub open spec fn url_params(&self, query: QueryKey) -> UrlParams {
        seq![("key"@, self.key@), ("city"@, query.1), ("country"@, query.0)]
    }

    /// The daily forecast address for a query: the key, the city and the country.
    pub fn make_url(&self, query: &WeatherQuery) -> (r: Result<String, ProviderError>)
        ensures
            outcome_view(r) == url_outcome(
                "https://api.weatherbit.io/v2.0/forecast/daily"@,
                self.url_params(query@),
            ),
    {
        let params = vec![
            param("key", self.key.as_str()),
            param("city", query.city().as_str()),
            param("country", query.country().as_str()),
        ];
        assert(params_view(params@) =~= self.url_params(query@));
        build_url("https://api.weatherbit.io/v2.0/forecast/daily", &params)
    }
}

} // verus!
