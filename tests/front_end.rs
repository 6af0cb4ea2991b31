use chrono::Utc;
use forecast::{
    calendar_day, daily_forecast, parse_day, series_from, weekly_forecast, APIError, AerisWeather,
    Apixu, OpenWeatherMap, RawPoint, WeatherBit, WeatherData, WeatherQuery,
};

fn today_series(count: usize) -> Vec<WeatherData> {
    let today = calendar_day(Utc::now().timestamp());
    (0..count).map(|_| WeatherData { temperature: 10000, date: today }).collect()
}

fn is_client_error(e: &APIError) -> bool {
    (400..500).contains(&e.status_code())
}

fn is_server_error(e: &APIError) -> bool {
    (500..600).contains(&e.status_code())
}

#[test]
fn normal_path() {
    let series = series_from(&today_series(5));
    let now = Utc::now().format("%Y-%m-%d").to_string();

    let data = match daily_forecast(&series, &now) {
        Ok(data) => data,
        Err(e) => panic!("request failed with status {}", e.status_code()),
    };
    assert_eq!(data.temperature, 10000);

    let data = match weekly_forecast(&series) {
        Ok(data) => data,
        Err(e) => panic!("request failed with status {}", e.status_code()),
    };
    assert_eq!(data[0].temperature, 10000);
    assert_eq!(data[4].temperature, 10000);
}

#[test]
fn error_path() {
    let series = series_from(&today_series(5));

    let error = daily_forecast(&series, "invalid-date").err().expect("invalid date is refused");
    assert!(is_client_error(&error));
    assert_eq!(error.message(), "failed to parse date - input contains invalid characters");

    let error = daily_forecast(&series, "2077-01-01").err().expect("day is missing");
    assert!(is_client_error(&error));
    assert_eq!(error.message(), "weather data not found for given day - 2077-01-01");
}

#[test]
fn empty_data() {
    let series = series_from(&Vec::new());

    let error = weekly_forecast(&series).err().expect("too little data");
    assert!(is_server_error(&error));
    assert_eq!(error.message(), "insufficient weather data for full weekly forecast");
}

#[test]
fn failing_actor() {
    let error = APIError::UnexpectedError("test".to_string());

    assert!(is_server_error(&error));
    assert_eq!(error.message(), "An internal error occurred. Please try again later.");
}

#[test]
fn status_codes_by_error() {
    assert_eq!(APIError::InvalidDate("x".to_string()).status_code(), 400);
    assert_eq!(APIError::BadRequest("x".to_string()).status_code(), 400);
    assert_eq!(APIError::NotFound("2020-01-01".to_string()).status_code(), 404);
    assert_eq!(APIError::InsufficientData.status_code(), 503);
    assert_eq!(APIError::UnexpectedError("x".to_string()).status_code(), 500);
    assert_eq!(APIError::BadRequest("missing city".to_string()).message(), "invalid parameters - missing city");
}

#[test]
fn dates_are_read_as_days_since_epoch() {
    assert_eq!(parse_day("1970-01-01").ok(), Some(0));
    assert_eq!(parse_day("1970-01-02").ok(), Some(1));
    assert_eq!(parse_day("1969-12-31").ok(), Some(-1));
    assert_eq!(parse_day("2000-03-01").ok(), Some(11017));
    assert!(matches!(parse_day("2000-13-01"), Err(APIError::InvalidDate(_))));
}

#[test]
fn daily_forecast_picks_the_requested_day() {
    let series = series_from(&vec![
        WeatherData { temperature: 1000, date: 0 },
        WeatherData { temperature: 2000, date: 1 },
        WeatherData { temperature: 3000, date: 2 },
    ]);

    assert_eq!(daily_forecast(&series, "1970-01-02").ok(), Some(WeatherData { temperature: 2000, date: 1 }));
    match daily_forecast(&series, "1970-01-04") {
        Err(APIError::NotFound(day)) => assert_eq!(day, "1970-01-04"),
        _ => panic!("expected a missing day"),
    }
}

#[test]
fn weekly_forecast_takes_the_first_five_days() {
    let items: Vec<WeatherData> = (0..7).map(|d| WeatherData { temperature: d * 100, date: d }).collect();
    let week = weekly_forecast(&series_from(&items)).ok().expect("enough days");
    assert_eq!(week.to_vec(), items[..5].to_vec());

    assert!(matches!(weekly_forecast(&series_from(&items[..4].to_vec())), Err(APIError::InsufficientData)));
}

fn london() -> WeatherQuery {
    WeatherQuery::new("UK".to_string(), "London".to_string())
}

#[test]
fn aeris_weather_url() {
    let api = AerisWeather::new("id".to_string(), "secret".to_string());
    assert_eq!(
        api.make_url(&london()).ok(),
        Some("https://api.aerisapi.com/forecasts/London,UK?limit=5&filter=precise&client_id=id&client_secret=secret".to_string())
    );
}

#[test]
fn apixu_url() {
    let api = Apixu::new("k".to_string());
    assert_eq!(
        api.make_url(&WeatherQuery::new("US".to_string(), "New York".to_string())).ok(),
        Some("https://api.apixu.com/v1/forecast.json?days=7&q=New+York&key=k".to_string())
    );
}

#[test]
fn open_weather_map_url() {
    let api = OpenWeatherMap::new("app".to_string());
    assert_eq!(
        api.make_url(&london()).ok(),
        Some("https://api.openweathermap.org/data/2.5/forecast?units=metric&q=London&APPID=app".to_string())
    );
}

#[test]
fn weather_bit_url() {
    let api = WeatherBit::new("key".to_string());
    assert_eq!(
        api.make_url(&london()).ok(),
        Some("https://api.weatherbit.io/v2.0/forecast/daily?key=key&city=London&country=UK".to_string())
    );
}

#[test]
fn aeris_failure_reports_nothing() {
    let periods = vec![RawPoint { timestamp: 0, temperature: 1000 }];
    assert_eq!(AerisWeather::forecast_points(true, periods.clone()), periods);
    assert!(AerisWeather::forecast_points(false, periods).is_empty());
}

#[test]
fn query_keeps_country_and_city() {
    let q = london();
    assert_eq!(q.country(), "UK");
    assert_eq!(q.city(), "London");
    assert!(q.same_as(&q.duplicate()));
    assert!(!q.same_as(&WeatherQuery::new("UK".to_string(), "Leeds".to_string())));
}

#[test]
fn missing_day_is_named_in_canonical_form() {
    let series = series_from(&today_series(1));

    match daily_forecast(&series, "2077-1-1") {
        Err(APIError::NotFound(day)) => assert_eq!(day, "2077-01-01"),
        _ => panic!("expected a missing day"),
    }
}
