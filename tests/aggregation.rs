use chrono::{Datelike, NaiveDate, Utc};
use forecast::{
    aggregate, calendar_day, collect_points, secs_until_next_midnight, series_items, Aggregator,
    RawPoint, WeatherData, WeatherQuery, EPOCH_DAYS_FROM_CE,
};

const DAY: i64 = 86400;
const HOUR: i64 = 3600;

fn point(timestamp: i64, temperature: i64) -> RawPoint {
    RawPoint { timestamp, temperature }
}

fn day_of_month(day: i64) -> u32 {
    NaiveDate::from_num_days_from_ce_opt((day + EPOCH_DAYS_FROM_CE) as i32)
        .expect("day in range")
        .day()
}

#[test]
fn aggregates_results() {
    let now = Utc::now().timestamp();
    let later = now + 2 * DAY;

    let results = vec![point(now, 1000), point(now, 2000), point(later, 6000), point(later, 10000)];

    let aggregated = series_items(&aggregate(&results));

    assert_eq!(aggregated.len(), 2);
    assert_eq!(aggregated[0].temperature, 1500);
    assert_eq!(aggregated[1].temperature, 8000);
}

#[test]
fn aggregates_responses() {
    let mut now = Utc::now();
    let mut entries = Vec::new();

    for _ in 0..40 {
        now = now + chrono::Duration::hours(3);
        entries.push(point(now.timestamp(), now.day() as i64 * 1000));
    }

    let weather_data_vec = series_items(&aggregate(&entries));

    assert!(weather_data_vec.len() == 5 || weather_data_vec.len() == 6);

    for entry in weather_data_vec {
        assert_eq!(entry.temperature, day_of_month(entry.date) as i64 * 1000);
    }
}

#[test]
fn three_providers_one_failing() {
    let day1 = 19000 * DAY;
    let day2 = day1 + DAY;
    let a = vec![point(day1 + 6 * HOUR, 10000), point(day2 + 6 * HOUR, 20000)];
    let b = vec![point(day1 + 12 * HOUR, 14000)];
    let results = vec![Some(a), Some(b), None];

    let mut engine: Aggregator<u8> = Aggregator::new();
    let series = series_items(&engine.merge_and_store(WeatherQuery::new("UK".to_string(), "London".to_string()), &results));

    assert_eq!(
        series,
        vec![
            WeatherData { temperature: 12000, date: 19000 },
            WeatherData { temperature: 20000, date: 19001 },
        ]
    );
}

#[test]
fn same_provider_same_day_points_merge() {
    let day1 = 19000 * DAY;
    let results = vec![Some(vec![point(day1 + 8 * HOUR, 10000), point(day1 + 20 * HOUR, 12000)])];

    let series = series_items(&aggregate(&collect_points(&results)));

    assert_eq!(series, vec![WeatherData { temperature: 11000, date: 19000 }]);
}

#[test]
fn single_survivor_gives_its_own_averages() {
    let only = vec![point(5 * DAY + HOUR, 3000), point(5 * DAY + 2 * HOUR, 4000), point(3 * DAY, -500)];
    let results = vec![None, Some(only.clone()), None, None];

    let merged = series_items(&aggregate(&collect_points(&results)));
    let own = series_items(&aggregate(&only));

    assert_eq!(merged, own);
    assert_eq!(
        merged,
        vec![
            WeatherData { temperature: -500, date: 3 },
            WeatherData { temperature: 3500, date: 5 },
        ]
    );
}

#[test]
fn all_providers_failing_gives_empty_cached_series() {
    let results: Vec<Option<Vec<RawPoint>>> = vec![None, None, None];
    let query = WeatherQuery::new("UK".to_string(), "London".to_string());

    let mut engine: Aggregator<u8> = Aggregator::new();
    let series = engine.merge_and_store(query.duplicate(), &results);

    assert!(series_items(&series).is_empty());
    let cached = engine.lookup(&query).expect("empty series is cached");
    assert!(series_items(&cached).is_empty());
}

#[test]
fn cache_hit_returns_latest_merge() {
    let london = WeatherQuery::new("UK".to_string(), "London".to_string());
    let paris = WeatherQuery::new("FR".to_string(), "Paris".to_string());
    let mut engine: Aggregator<u8> = Aggregator::new().add_api(1).add_api(2);

    assert!(engine.lookup(&london).is_none());

    let first = engine.merge_and_store(london.duplicate(), &vec![Some(vec![point(0, 1000)])]);
    let second = engine.merge_and_store(london.duplicate(), &vec![Some(vec![point(0, 3000)])]);
    engine.merge_and_store(paris.duplicate(), &vec![Some(vec![point(DAY, 7000)])]);

    let hit = engine.lookup(&london).expect("cached");
    assert_ne!(series_items(&hit), series_items(&first));
    assert_eq!(series_items(&hit), series_items(&second));
    assert_eq!(series_items(&hit), vec![WeatherData { temperature: 3000, date: 0 }]);
    assert_eq!(engine.weather_apis(), &vec![1, 2]);
}

#[test]
fn cache_key_is_verbatim() {
    let mut engine: Aggregator<u8> = Aggregator::new();
    engine.merge_and_store(
        WeatherQuery::new("UK".to_string(), "London".to_string()),
        &vec![Some(vec![point(0, 1000)])],
    );

    assert!(engine.lookup(&WeatherQuery::new("uk".to_string(), "London".to_string())).is_none());
    assert!(engine.lookup(&WeatherQuery::new("UK".to_string(), "London ".to_string())).is_none());
    assert!(engine.lookup(&WeatherQuery::new("UK".to_string(), "London".to_string())).is_some());
}

#[test]
fn midnight_cleanup_forgets_cached_keys() {
    let london = WeatherQuery::new("UK".to_string(), "London".to_string());
    let mut engine: Aggregator<u8> = Aggregator::new();
    engine.merge_and_store(london.duplicate(), &vec![Some(vec![point(0, 1000)])]);
    assert!(engine.lookup(&london).is_some());

    let wait = engine.cache_cleanup(DAY - 10);

    assert_eq!(wait, 10);
    assert!(engine.lookup(&london).is_none());
}

#[test]
fn merge_is_order_independent() {
    let pts = vec![
        point(2 * DAY + 1, 5000),
        point(HOUR, 1000),
        point(2 * DAY + 7 * HOUR, 6000),
        point(3 * HOUR, 2000),
        point(5 * HOUR, 4000),
    ];
    let mut reversed = pts.clone();
    reversed.reverse();
    let split = vec![Some(pts[3..].to_vec()), None, Some(pts[..3].to_vec())];

    let a = series_items(&aggregate(&pts));
    let b = series_items(&aggregate(&reversed));
    let c = series_items(&aggregate(&collect_points(&split)));

    assert_eq!(a, b);
    assert_eq!(a, c);
    assert_eq!(
        a,
        vec![
            WeatherData { temperature: 2333, date: 0 },
            WeatherData { temperature: 5500, date: 2 },
        ]
    );
}

#[test]
fn merged_series_is_sorted_without_duplicates() {
    let pts = vec![
        point(9 * DAY, 1),
        point(-DAY, 2),
        point(4 * DAY, 3),
        point(9 * DAY + 5, 4),
        point(-DAY + 5, 5),
        point(0, 6),
    ];

    let dates: Vec<i64> = series_items(&aggregate(&pts)).iter().map(|w| w.date).collect();

    assert_eq!(dates, vec![-1, 0, 4, 9]);
}

#[test]
fn negative_means_round_down() {
    let pts = vec![point(0, -1), point(1, -2), point(DAY, -1000), point(DAY + 1, -2000)];

    let series = series_items(&aggregate(&pts));

    assert_eq!(series[0].temperature, -2);
    assert_eq!(series[1].temperature, -1500);
}

#[test]
fn empty_input_merges_to_empty_series() {
    assert!(series_items(&aggregate(&Vec::new())).is_empty());
}

#[test]
fn extreme_temperatures_do_not_overflow() {
    let pts = vec![point(0, i64::MAX), point(1, i64::MAX), point(DAY, i64::MIN), point(DAY, i64::MIN)];

    let series = series_items(&aggregate(&pts));

    assert_eq!(series[0].temperature, i64::MAX);
    assert_eq!(series[1].temperature, i64::MIN);
}

#[test]
fn timestamps_project_to_utc_days() {
    assert_eq!(calendar_day(0), 0);
    assert_eq!(calendar_day(DAY - 1), 0);
    assert_eq!(calendar_day(DAY), 1);
    assert_eq!(calendar_day(-1), -1);
    assert_eq!(calendar_day(-DAY), -1);
    assert_eq!(calendar_day(-DAY - 1), -2);
    assert_eq!(calendar_day(i64::MIN), i64::MIN / DAY - 1);
}

#[test]
fn seconds_until_next_midnight() {
    assert_eq!(secs_until_next_midnight(0), 86400);
    assert_eq!(secs_until_next_midnight(DAY - 1), 1);
    assert_eq!(secs_until_next_midnight(-1), 1);
    assert_eq!(secs_until_next_midnight(12 * HOUR), 43200);
    let engine: Aggregator<u8> = Aggregator::new();
    assert_eq!(engine.started(DAY + 3 * HOUR), 21 * 3600);
}

/// Resolves a query the way the server does: answer from the cache, or ask
/// every provider, counting the calls, and hand their outcomes to the engine.
fn resolve(
    engine: &mut Aggregator<fn(&WeatherQuery) -> Option<Vec<RawPoint>>>,
    query: &WeatherQuery,
    calls: &mut usize,
) -> Vec<WeatherData> {
    if let Some(hit) = engine.lookup(query) {
        return series_items(&hit);
    }
    let results: Vec<Option<Vec<RawPoint>>> = engine
        .weather_apis()
        .iter()
        .map(|fetch| {
            *calls += 1;
            fetch(query)
        })
        .collect();
    series_items(&engine.merge_and_store(query.duplicate(), &results))
}

fn provider_a(_: &WeatherQuery) -> Option<Vec<RawPoint>> {
    Some(vec![point(HOUR, 10000), point(DAY + HOUR, 20000)])
}

fn provider_b(_: &WeatherQuery) -> Option<Vec<RawPoint>> {
    Some(vec![point(2 * HOUR, 14000)])
}

fn provider_down(_: &WeatherQuery) -> Option<Vec<RawPoint>> {
    None
}

#[test]
fn cache_hit_invokes_no_provider() {
    let mut engine: Aggregator<fn(&WeatherQuery) -> Option<Vec<RawPoint>>> = Aggregator::new()
        .add_api(provider_a as fn(&WeatherQuery) -> Option<Vec<RawPoint>>)
        .add_api(provider_b)
        .add_api(provider_down);
    let query = WeatherQuery::new("UK".to_string(), "London".to_string());
    let mut calls = 0;

    let first = resolve(&mut engine, &query, &mut calls);
    assert_eq!(calls, 3);
    assert_eq!(
        first,
        vec![WeatherData { temperature: 12000, date: 0 }, WeatherData { temperature: 20000, date: 1 }]
    );

    let second = resolve(&mut engine, &query, &mut calls);
    assert_eq!(calls, 3);
    assert_eq!(second, first);
}

#[test]
fn midnight_crossing_fetches_again() {
    let mut engine: Aggregator<fn(&WeatherQuery) -> Option<Vec<RawPoint>>> =
        Aggregator::new().add_api(provider_a as fn(&WeatherQuery) -> Option<Vec<RawPoint>>);
    let query = WeatherQuery::new("UK".to_string(), "London".to_string());
    let mut calls = 0;

    resolve(&mut engine, &query, &mut calls);
    resolve(&mut engine, &query, &mut calls);
    assert_eq!(calls, 1);

    let wait = engine.cache_cleanup(DAY + 23 * HOUR);
    assert_eq!(wait, 3600);
    assert!(engine.lookup(&query).is_none());

    resolve(&mut engine, &query, &mut calls);
    assert_eq!(calls, 2);
}
