use chrono::Datelike;
use vstd::prelude::*;

use crate::series::{item_at, item_count, weather_items, WeatherData, WeatherDataVec};

verus! {

/// How many days a weekly forecast reports.
pub const WEEK_DAYS: usize = 5;

/// Days from 0001-01-01 (day 1 of the common era) to 1970-01-01.
pub const EPOCH_DAYS_FROM_CE: i64 = 719163;

/// What parsing `text` as a `%Y-%m-%d` date gives: the date as days from the
/// common era (0001-01-01 is day 1), or the parser's description of the error.
pub uninterp spec fn date_parse(text: Seq<char>) -> Result<int, Seq<char>>;

/// The `%Y-%m-%d` text of the date `days` days from the common era, when
/// that date can be represented.
pub uninterp spec fn date_text(days: int) -> Option<Seq<char>>;

/// Relies on chrono::NaiveDate::parse_from_str with the `%Y-%m-%d` format:
/// the date, counted as `Datelike::num_days_from_ce` counts it, or the
/// parse error's text.
#[verifier::external_body]
fn parse_iso_date(text: &str) -> (r: Result<i32, String>)
    ensures
        match r {
            Ok(days) => date_parse(text@) == Ok::<int, Seq<char>>(days as int),
            Err(msg) => date_parse(text@) == Err::<int, Seq<char>>(msg@),
        },
{
    chrono::NaiveDate::parse_from_str(text, "%Y-%m-%d").map(|d| d.num_days_from_ce()).map_err(
        |e| e.to_string(),
    )
}

/// Relies on chrono::NaiveDate::from_num_days_from_ce_opt and its `%Y-%m-%d`
/// formatting: `None` for a day chrono cannot represent.
#[verifier::external_body]
fn format_iso_date(days: i32) -> (r: Option<String>)
    ensures
        match r {
            Some(text) => date_text(days as int) == Some(text@),
            None => date_text(days as int) is None,
        },
{
    chrono::NaiveDate::from_num_days_from_ce_opt(days).map(|d| d.format("%Y-%m-%d").to_string())
}

/// Why a forecast request could not be answered.
pub enum APIError {
    /// The requested day is not a date; holds the parser's reason.
    InvalidDate(String),
    /// The request's parameters could not be read; holds the reason.
    BadRequest(String),
    /// The series has no entry for the requested day; holds the day as text.
    NotFound(String),
    /// The series holds fewer days than a weekly forecast reports.
    InsufficientData,
    /// The aggregation engine itself failed; holds its reason, which is
    /// logged but never shown.
    UnexpectedError(String),
}

/// The text that a client is shown for an error.
pub open spec fn public_message(e: APIError) -> Seq<char> {
    match e {
        APIError::InvalidDate(reason) => "failed to parse date - "@ + reason@,
        APIError::BadRequest(reason) => "invalid parameters - "@ + reason@,
        APIError::NotFound(day) => "weather data not found for given day - "@ + day@,
        APIError::InsufficientData => "insufficient weather data for full weekly forecast"@,
        APIError::UnexpectedError(_) => "An internal error occurred. Please try again later."@,
    }
}

impl APIError {
    /// The HTTP status the error is answered with: 400 for a malformed
    /// request, 404 for a missing day, 503 for too little data, 500 for an
    /// engine failure.
    pub fn status_code(&self) -> (code: u16)
        ensures
            code == match self {
                APIError::InvalidDate(_) | APIError::BadRequest(_) => 400u16,
                APIError::NotFound(_) => 404u16,
                APIError::InsufficientData => 503u16,
                APIError::UnexpectedError(_) => 500u16,
            },
    {
        match self {
            APIError::InvalidDate(_) | APIError::BadRequest(_) => 400,
            APIError::NotFound(_) => 404,
            APIError::InsufficientData => 503,
            APIError::UnexpectedError(_) => 500,
        }
    }

    /// The text a client is shown; an engine failure is reported without
    /// its details.
    pub fn message(&self) -> (r: String)
        ensures
            r@ == public_message(*self),
    {
        match self {
            APIError::InvalidDate(reason) => "failed to parse date - ".to_owned().concat(
                reason.as_str(),
            ),
            APIError::BadRequest(reason) => "invalid parameters - ".to_owned().concat(
                reason.as_str(),
            ),
            APIError::NotFound(day) => "weather data not found for given day - ".to_owned().concat(
                day.as_str(),
            ),
            APIError::InsufficientData => "insufficient weather data for full weekly forecast".to_owned(),
            APIError::UnexpectedError(_) => "An internal error occurred. Please try again later.".to_owned(),
        }
    }
}

/// The calendar day (days since 1970-01-01) a date request names.
pub open spec fn requested_day(text: Seq<char>) -> Result<int, Seq<char>> {
    match date_parse(text) {
        Ok(days) => Ok(days - EPOCH_DAYS_FROM_CE),
        Err(msg) => Err(msg),
    }
}

/// Reads a `%Y-%m-%d` date as a calendar day counted from 1970-01-01.
pub fn parse_day(text: &str) -> (r: Result<i64, APIError>)
    ensures
        match r {
            Ok(day) => requested_day(text@) == Ok::<int, Seq<char>>(day as int),
            Err(e) => (e matches APIError::InvalidDate(reason) && requested_day(text@) == Err::<
                int,
                Seq<char>,
            >(reason@)),
        },
{
    match parse_iso_date(text) {
        Ok(days) => Ok(days as i64 - EPOCH_DAYS_FROM_CE),
        Err(msg) => Err(APIError::InvalidDate(msg)),
    }
}

/// The `%Y-%m-%d` text of a calendar day, or `fallback` when chrono cannot
/// represent the day.
pub open spec fn day_label(day: int, fallback: Seq<char>) -> Seq<char> {
    if i32::MIN <= day + EPOCH_DAYS_FROM_CE <= i32::MAX {
        match date_text(day + EPOCH_DAYS_FROM_CE) {
            Some(text) => text,
            None => fallback,
        }
    } else {
        fallback
    }
}

fn label_day(day: i64, fallback: &str) -> (r: String)
    ensures
        r@ == day_label(day as int, fallback@),
{
    if day >= i32::MIN as i64 - EPOCH_DAYS_FROM_CE && day <= i32::MAX as i64 - EPOCH_DAYS_FROM_CE {
        match format_iso_date((day + EPOCH_DAYS_FROM_CE) as i32) {
            Some(text) => text,
            None => fallback.to_owned(),
        }
    } else {
        fallback.to_owned()
    }
}

/// The forecast for exactly `day`: the first entry of the series with that
/// date, or `NotFound` naming the day as `%Y-%m-%d` (as `text` when chrono
/// cannot represent it).
pub fn forecast_for_day(series: &WeatherDataVec, day: i64, text: &str) -> (r: Result<
    WeatherData,
    APIError,
>)
    ensures
        match r {
            Ok(found) => exists|i: int|
                0 <= i < weather_items(*series).len() && weather_items(*series)[i] == found
                    && found.date == day && forall|j: int|
                    0 <= j < i ==> (#[trigger] weather_items(*series)[j]).date != day,
            Err(e) => (e matches APIError::NotFound(label) && label@ == day_label(
                day as int,
                text@,
            )) && forall|j: int|
                0 <= j < weather_items(*series).len() ==> (#[trigger] weather_items(
                    *series,
                )[j]).date != day,
        },
{
    let n = item_count(series);
    let mut i: usize = 0;
    while i < n
        invariant
            n == weather_items(*series).len(),
            i <= n,
            forall|j: int| 0 <= j < i ==> (#[trigger] weather_items(*series)[j]).date != day,
        decreases n - i,
    {
        let entry = item_at(series, i);
        if entry.date == day {
            return Ok(entry);
        }
        i = i + 1;
    }
    Err(APIError::NotFound(label_day(day, text)))
}

/// Answers a daily request for a `%Y-%m-%d` date from a series: the date
/// must parse, and the series must hold an entry for it.
pub fn daily_forecast(series: &WeatherDataVec, text: &str) -> (r: Result<WeatherData, APIError>)
    ensures
        match requested_day(text@) {
            Err(msg) => r matches Err(APIError::InvalidDate(reason)) && reason@ == msg,
            Ok(day) => match r {
                Ok(found) => exists|i: int|
                    0 <= i < weather_items(*series).len() && weather_items(*series)[i] == found
                        && found.date == day && forall|j: int|
                        0 <= j < i ==> (#[trigger] weather_items(*series)[j]).date != day,
                Err(e) => (e matches APIError::NotFound(label) && label@ == day_label(
                    day,
                    text@,
                )) && forall|j: int|
                    0 <= j < weather_items(*series).len() ==> (#[trigger] weather_items(
                        *series,
                    )[j]).date != day,
            },
        },
{
    match parse_day(text) {
        Ok(day) => forecast_for_day(series, day, text),
        Err(e) => Err(e),
    }
}

/// The first five days of a series, or `InsufficientData` when it holds fewer.
pub fn weekly_forecast(series: &WeatherDataVec) -> (r: Result<[WeatherData; 5], APIError>)
    ensures
        match r {
            Ok(week) => weather_items(*series).len() >= WEEK_DAYS && week@ == weather_items(
                *series,
            ).take(WEEK_DAYS as int),
            Err(e) => e is InsufficientData && weather_items(*series).len() < WEEK_DAYS,
        },
{
    if item_count(series) < WEEK_DAYS {
        return Err(APIError::InsufficientData);
    }
    let week = [
        item_at(series, 0),
        item_at(series, 1),
        item_at(series, 2),
        item_at(series, 3),
        item_at(series, 4),
    ];
    assert(week@ =~= weather_items(*series).take(WEEK_DAYS as int));
    Ok(week)
}

} // verus!
