use exchange_rates::calendar::Day;
use exchange_rates::ecb::{
    ecb_csv_url, ecb_currency_url, load_year_into, year_request, year_request_on, EcbRow,
};
use exchange_rates::rates::{Rate, RateCache};

const HEADER: &str = "KEY,FREQ,CURRENCY,CURRENCY_DENOM,EXR_TYPE,EXR_SUFFIX,TIME_PERIOD,OBS_VALUE\n";

fn row(date: &str, value: f64) -> Result<EcbRow, String> {
    Ok(EcbRow {
        time_period: date.to_string(),
        obs_value_bits: value.to_bits(),
        obs_value_text: value.to_string(),
    })
}

fn day(y: i32, m: u32, d: u32) -> Day {
    Day::from_ymd(y, m, d).unwrap()
}

fn usd() -> String {
    "USD".to_string()
}

fn rate(value: f64) -> Rate {
    Rate::from_bits(value.to_bits()).unwrap()
}

#[test]
fn currency_url_is_the_ecb_series() {
    assert_eq!(
        ecb_currency_url("USD"),
        "https://data-api.ecb.europa.eu/service/data/EXR/D.USD.EUR.SP00.A"
    );
}

#[test]
fn csv_url_asks_for_one_day() {
    assert_eq!(
        ecb_csv_url("GBP", day(2025, 1, 2)),
        "https://data-api.ecb.europa.eu/service/data/EXR/D.GBP.EUR.SP00.A\
         ?startPeriod=2025-01-02&endPeriod=2025-01-02&format=csvdata"
    );
}

#[test]
fn year_request_covers_jan1_to_dec31_of_past_year() {
    let req = year_request_on(2024, day(2025, 3, 1), "http://base").ok().unwrap();
    assert_eq!(req.year(), 2024);
    assert_eq!(req.jan1(), day(2024, 1, 1));
    assert_eq!(req.end(), day(2024, 12, 31));
    assert_eq!(
        req.url(),
        "http://base?startPeriod=2024-01-01&endPeriod=2024-12-31&format=csvdata"
    );
}

#[test]
fn year_request_of_current_year_ends_today() {
    let req = year_request_on(2025, day(2025, 3, 1), "http://base").ok().unwrap();
    assert_eq!(req.end(), day(2025, 3, 1));
    assert_eq!(req.today(), day(2025, 3, 1));
    assert_eq!(
        req.url(),
        "http://base?startPeriod=2025-01-01&endPeriod=2025-03-01&format=csvdata"
    );
}

#[test]
fn future_year_is_rejected_before_any_request() {
    let err = year_request_on(2026, day(2025, 12, 31), "http://base").err().unwrap();
    assert_eq!(err.message(), "No exchange rate data available for future year 2026");
}

#[test]
fn invalid_year_is_rejected() {
    let err = year_request_on(400000, day(2025, 12, 31), "http://base").err().unwrap();
    assert_eq!(err.message(), "Invalid year 400000");
}

#[test]
fn today_not_cached_as_none_before_ecb_publishes() {
    let today = day(2025, 1, 6);
    let req = year_request_on(2025, today, "http://base").ok().unwrap();
    let body = format!(
        "{HEADER}EXR.D.USD.EUR.SP00.A,D,USD,EUR,SP00,A,2025-01-02,1.0321\n\
         EXR.D.USD.EUR.SP00.A,D,USD,EUR,SP00,A,2025-01-03,1.0299\n"
    );
    let rows = vec![row("2025-01-02", 1.0321), row("2025-01-03", 1.0299)];
    let mut rates = RateCache::new();
    load_year_into(&req, "USD", &body, &rows, &mut rates).ok().unwrap();
    assert_ne!(rates.get(&usd(), today), Some(None));
    assert_eq!(rates.get(&usd(), today), None);
    assert_eq!(rates.get(&usd(), day(2025, 1, 5)), Some(None));
}

#[test]
fn header_only_response_does_not_error() {
    let req = year_request_on(2025, day(2025, 1, 1), "http://base").ok().unwrap();
    let rows: Vec<Result<EcbRow, String>> = Vec::new();
    let mut rates = RateCache::new();
    assert!(load_year_into(&req, "USD", HEADER, &rows, &mut rates).is_ok());
}

#[test]
fn empty_response_is_an_error() {
    let req = year_request_on(2025, day(2025, 2, 1), "http://base").ok().unwrap();
    let rows: Vec<Result<EcbRow, String>> = Vec::new();
    let mut rates = RateCache::new();
    let err = load_year_into(&req, "usd", "", &rows, &mut rates).err().unwrap();
    assert_eq!(err.message(), "No exchange rate data available for usd in year 2025");
    assert_eq!(rates.get(&usd(), day(2025, 1, 1)), None);
}

#[test]
fn wrong_year_in_csv_is_rejected() {
    let req = year_request_on(2025, day(2025, 6, 1), "http://base").ok().unwrap();
    let body = format!("{HEADER}EXR.D.USD.EUR.SP00.A,D,USD,EUR,SP00,A,2024-12-31,1.0389\n");
    let rows = vec![row("2024-12-31", 1.0389)];
    let mut rates = RateCache::new();
    let err = load_year_into(&req, "USD", &body, &rows, &mut rates).err().unwrap();
    let text = err.message();
    assert!(text.contains("outside requested year"), "unexpected error: {text}");
    assert_eq!(text, "ECB returned date '2024-12-31' outside requested year 2025");
}

#[test]
fn invalid_rates_are_rejected() {
    let req = year_request_on(2025, day(2025, 6, 1), "http://base").ok().unwrap();
    for bad in [0.0, -1.5, f64::NAN, f64::INFINITY] {
        let rows = vec![row("2025-01-02", 1.0321), row("2025-01-03", bad)];
        let mut rates = RateCache::new();
        let err = load_year_into(&req, "USD", "x", &rows, &mut rates).err().unwrap();
        assert_eq!(
            err.message(),
            format!("ECB returned invalid rate {bad} for 2025-01-03")
        );
        // Rows before the bad one stay stored; no day is marked as having no rate.
        assert_eq!(rates.get(&usd(), day(2025, 1, 2)), Some(Some(rate(1.0321))));
        assert_eq!(rates.get(&usd(), day(2025, 1, 1)), None);
    }
}

#[test]
fn invalid_row_date_is_rejected() {
    let req = year_request_on(2025, day(2025, 6, 1), "http://base").ok().unwrap();
    let rows = vec![row("2025-13-02", 1.0321)];
    let mut rates = RateCache::new();
    let err = load_year_into(&req, "USD", "x", &rows, &mut rates).err().unwrap();
    assert!(err.message().starts_with("Invalid date '2025-13-02' from ECB: "));
}

#[test]
fn csv_reader_error_stops_the_load() {
    let req = year_request_on(2025, day(2025, 6, 1), "http://base").ok().unwrap();
    let rows = vec![row("2025-01-02", 1.0321), Err("CSV error: record 2".to_string())];
    let mut rates = RateCache::new();
    let err = load_year_into(&req, "USD", "x", &rows, &mut rates).err().unwrap();
    assert_eq!(err.message(), "CSV error: record 2");
    assert_eq!(rates.get(&usd(), day(2025, 1, 2)), Some(Some(rate(1.0321))));
    assert_eq!(rates.get(&usd(), day(2025, 1, 4)), None);
}

#[test]
fn dec31_non_trading_day_is_backfilled() {
    // Dec 31 2023 was a Sunday: the ECB published no rate for it.
    let req = year_request_on(2023, day(2025, 6, 1), "http://base").ok().unwrap();
    let rows = vec![row("2023-12-28", 1.1114), row("2023-12-29", 1.1050)];
    let mut rates = RateCache::new();
    load_year_into(&req, "USD", "x", &rows, &mut rates).ok().unwrap();
    assert_eq!(
        rates.get(&usd(), day(2023, 12, 31)),
        Some(None),
        "Dec 31 2023 (Sunday) must be cached as None, not left absent"
    );
}

#[test]
fn non_trading_days_marked_none() {
    let req = year_request_on(2025, day(2025, 3, 1), "http://base").ok().unwrap();
    let rows = vec![row("2025-01-02", 1.0321), row("2025-01-03", 1.0299)];
    let mut rates = RateCache::new();
    load_year_into(&req, "usd", "x", &rows, &mut rates).ok().unwrap();
    let get = |m, d| rates.get(&usd(), day(2025, m, d)).unwrap();
    assert_eq!(get(1, 1), None);
    assert_eq!(get(1, 4), None);
    assert_eq!(get(1, 5), None);
    assert!(get(1, 2).is_some());
    assert!(get(1, 3).is_some());
    assert_eq!(f64::from_bits(get(1, 2).unwrap().bits()), 1.0321);
    // Every day before today has an entry; today (the end of the request) does not.
    assert_eq!(get(2, 28), None);
    assert_eq!(rates.get(&usd(), day(2025, 3, 1)), None);
}

#[test]
fn loaded_entries_are_keyed_by_upper_case_currency() {
    let req = year_request_on(2025, day(2025, 3, 1), "http://base").ok().unwrap();
    let rows = vec![row("2025-01-02", 1.0321)];
    let mut rates = RateCache::new();
    load_year_into(&req, "usd", "x", &rows, &mut rates).ok().unwrap();
    assert!(rates.get(&"usd".to_string(), day(2025, 1, 2)).is_none());
    assert!(rates.get(&usd(), day(2025, 1, 2)).is_some());
}

#[test]
fn year_request_reads_the_clock() {
    let err = year_request(2099, "http://base").err().unwrap();
    assert_eq!(err.message(), "No exchange rate data available for future year 2099");
    let req = year_request(2020, "http://base").ok().unwrap();
    assert_eq!(req.end(), day(2020, 12, 31));
    assert!(req.today().number() > day(2025, 1, 1).number());
}
