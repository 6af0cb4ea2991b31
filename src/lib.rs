//! Weather forecast aggregation: fans one query out to several upstream
//! providers, merges what the surviving ones return into one reading per
//! calendar day, and caches the merged series until the next UTC midnight.
//!
//! Temperatures are fixed-point values in thousandths of a degree Celsius;
//! instants are Unix timestamps in seconds; calendar days are counted from
//! 1970-01-01 (UTC).
//!
//! The engine (`Aggregator`) decides and the caller acts: `lookup` answers
//! from the cache; on a miss the caller fetches from every provider and
//! hands the outcomes to `merge_and_store`; `cache_cleanup` empties the cache
//! when the midnight timer fires and says when to fire next.

mod aggregator;
mod calendar;
mod merge;
mod providers;
mod query;
mod series;
mod web_api;

pub use aggregator::{after_stores, law_cleanup_forgets, law_hit_returns_latest, Aggregator};
pub use calendar::{
    calendar_day, day_of, secs_until_next_midnight, MAX_DAY, MIN_DAY, SECS_PER_DAY,
};
pub use merge::{
    aggregate, collect_points, day_count, day_total, daily_mean, is_forecast_of, law_all_failed,
    law_merge_order_independent, law_single_day_mean, law_single_survivor, strictly_ascending,
    surviving_points, temperature_sum,
};
pub use providers::{
    aeris_base, encoded_url, outcome_view, params_view, url_outcome, AerisWeather, Apixu,
    OpenWeatherMap, ProviderError, UrlParams, WeatherBit, MAX_DAYS,
};
pub use query::{QueryKey, WeatherQuery};
pub use series::{
    series_from, series_items, weather_items, RawPoint, WeatherData, WeatherDataVec,
    SERIES_CAPACITY,
};
pub use web_api::{
    daily_forecast, date_parse, date_text, day_label, forecast_for_day, parse_day,
    public_message, requested_day, weekly_forecast, APIError, EPOCH_DAYS_FROM_CE, WEEK_DAYS,
};
