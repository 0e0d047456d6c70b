use exchange_rates::calendar::Day;
use exchange_rates::ecb::{ecb_currency_url, load_year_into, year_request_on, EcbRow};
use exchange_rates::rates::{DayLookup, Rate, RateCache};
use exchange_rates::server::{Lookback, LookbackStep};

fn day(y: i32, m: u32, d: u32) -> Day {
    Day::from_ymd(y, m, d).unwrap()
}

fn row(date: &str, value: f64) -> Result<EcbRow, String> {
    Ok(EcbRow {
        time_period: date.to_string(),
        obs_value_bits: value.to_bits(),
        obs_value_text: value.to_string(),
    })
}

/// ECB reference rates around the turn of 2024/2025, as the ECB publishes them.
fn ecb_rows(currency: &str, year: i32) -> Vec<Result<EcbRow, String>> {
    match (currency, year) {
        ("USD", 2024) => vec![row("2024-12-30", 1.0444), row("2024-12-31", 1.0389)],
        ("USD", 2025) => vec![row("2025-01-02", 1.0321), row("2025-01-03", 1.0299)],
        ("GBP", 2025) => vec![row("2025-01-02", 0.82900), row("2025-01-03", 0.83208)],
        _ => Vec::new(),
    }
}

/// A rate source over the fixture: the cache answers, and a missing
/// (currency, year) is loaded into a fresh cache and merged, as the service does.
struct Source {
    cache: RateCache,
    today: Day,
    fetches: usize,
}

impl Source {
    fn new() -> Source {
        Source { cache: RateCache::new(), today: day(2025, 6, 30), fetches: 0 }
    }

    fn rate_for_day(&mut self, date: Day, currency: &str) -> Option<Rate> {
        match self.cache.rate_for_day(date, currency) {
            DayLookup::Cached(v) => v,
            DayLookup::Missing { currency, year } => {
                self.fetches += 1;
                let url = ecb_currency_url(&currency);
                let req = year_request_on(year, self.today, &url).ok().unwrap();
                let mut fetched = RateCache::new();
                load_year_into(&req, &currency, "body", &ecb_rows(&currency, year), &mut fetched)
                    .ok()
                    .unwrap();
                self.cache.extend(fetched);
                self.cache.rate_after_fetch(date, &currency)
            }
        }
    }
}

fn rate_for(source: &mut Source, date: &str, currency: &str) -> (Day, f64) {
    let (mut search, mut candidate) = Lookback::start_on(date, source.today).ok().unwrap();
    loop {
        let answer = source.rate_for_day(candidate, currency);
        match search.step(answer) {
            LookbackStep::Found(d, r) => return (d, f64::from_bits(r.bits())),
            LookbackStep::Check(next) => candidate = next,
            LookbackStep::Exhausted => panic!("no rate found for {date}"),
        }
    }
}

#[test]
fn trading_day_jan_2() {
    let mut src = Source::new();
    let (date, rate) = rate_for(&mut src, "2025-01-02", "USD");
    assert_eq!(date, day(2025, 1, 2));
    assert_eq!(rate, 1.0321);
}

#[test]
fn trading_day_jan_3() {
    let mut src = Source::new();
    let (date, rate) = rate_for(&mut src, "2025-01-03", "USD");
    assert_eq!(date, day(2025, 1, 3));
    assert_eq!(rate, 1.0299);
}

#[test]
fn new_years_day_falls_back_to_dec_31() {
    let mut src = Source::new();
    let (date, rate) = rate_for(&mut src, "2025-01-01", "USD");
    assert_eq!(date, day(2024, 12, 31));
    assert_eq!(rate, 1.0389);
    // One fetch for 2025 (Jan 1 has no rate), one for 2024.
    assert_eq!(src.fetches, 2);
}

#[test]
fn saturday_falls_back_to_friday() {
    let mut src = Source::new();
    let (date, rate) = rate_for(&mut src, "2025-01-04", "USD");
    assert_eq!(date, day(2025, 1, 3));
    assert_eq!(rate, 1.0299);
}

#[test]
fn sunday_falls_back_to_friday() {
    let mut src = Source::new();
    let (date, rate) = rate_for(&mut src, "2025-01-05", "USD");
    assert_eq!(date, day(2025, 1, 3));
    assert_eq!(rate, 1.0299);
}

#[test]
fn non_trading_day_returns_none() {
    let mut src = Source::new();
    assert_eq!(src.rate_for_day(day(2025, 1, 1), "USD"), None);
}

#[test]
fn gbp_rate_is_fetched_independently() {
    let mut src = Source::new();
    let _ = rate_for(&mut src, "2025-01-02", "USD");
    let (date, rate) = rate_for(&mut src, "2025-01-02", "GBP");
    assert_eq!(date, day(2025, 1, 2));
    assert!(rate > 0.5 && rate < 1.5, "unexpected GBP rate: {rate}");
    assert_eq!(src.fetches, 2);
}

#[test]
fn loaded_year_is_served_without_another_fetch() {
    let mut src = Source::new();
    let _ = rate_for(&mut src, "2025-01-02", "USD");
    assert_eq!(src.fetches, 1);
    for d in 1..=31 {
        let _ = src.rate_for_day(day(2025, 1, d), "usd");
    }
    assert_eq!(src.fetches, 1);
}

#[test]
fn lookback_gives_up_after_ten_days() {
    let today = day(2025, 6, 30);
    let (mut search, mut candidate) = Lookback::start_on("2025-03-20", today).ok().unwrap();
    let mut asked = vec![candidate];
    loop {
        match search.step(None) {
            LookbackStep::Check(next) => {
                candidate = next;
                asked.push(candidate);
            }
            LookbackStep::Exhausted => break,
            LookbackStep::Found(..) => panic!("found a rate without one"),
        }
    }
    assert_eq!(asked.len(), 11);
    assert_eq!(asked[10], day(2025, 3, 10));
    assert_eq!(
        search.no_data_error().message(),
        "No exchange rate data available for 2025-03-20 or the 10 preceding days"
    );
}

#[test]
fn lookback_refuses_bad_and_future_dates() {
    let today = day(2025, 6, 30);
    let err = Lookback::start_on("2025-06-31", today).err().unwrap();
    assert!(err.message().starts_with("Invalid date format '2025-06-31': "));
    let err = Lookback::start_on("2025-07-01", today).err().unwrap();
    assert_eq!(err.message(), "Exchange rates are not available for future date 2025-07-01");
    assert!(Lookback::start_on("2025-06-30", today).is_ok());
}

#[test]
fn cache_read_gives_back_write_and_extend_overrides() {
    let mut a = RateCache::new();
    let usd = "USD".to_string();
    let r1 = Rate::from_bits(1.5f64.to_bits()).unwrap();
    let r2 = Rate::from_bits(2.5f64.to_bits()).unwrap();
    a.insert(&usd, day(2025, 1, 2), Some(r1));
    a.insert_if_absent(&usd, day(2025, 1, 2), None);
    a.insert_if_absent(&usd, day(2025, 1, 4), None);
    assert_eq!(a.get(&usd, day(2025, 1, 2)), Some(Some(r1)));
    assert_eq!(a.get(&usd, day(2025, 1, 4)), Some(None));
    let mut b = RateCache::new();
    b.insert(&usd, day(2025, 1, 2), Some(r2));
    b.insert(&"GBP".to_string(), day(2025, 1, 2), Some(r1));
    a.extend(b);
    assert_eq!(a.get(&usd, day(2025, 1, 2)), Some(Some(r2)));
    assert_eq!(a.get(&usd, day(2025, 1, 4)), Some(None));
    assert_eq!(a.get(&"GBP".to_string(), day(2025, 1, 2)), Some(Some(r1)));
    assert_eq!(a.rate_after_fetch(day(2025, 1, 9), &usd), None);
}

#[test]
fn rate_bits_must_be_positive_and_finite() {
    assert!(Rate::from_bits(1.0321f64.to_bits()).is_some());
    assert!(Rate::from_bits(f64::MIN_POSITIVE.to_bits()).is_some());
    assert!(Rate::from_bits(f64::MAX.to_bits()).is_some());
    assert!(Rate::from_bits(0.0f64.to_bits()).is_none());
    assert!(Rate::from_bits((-0.0f64).to_bits()).is_none());
    assert!(Rate::from_bits((-1.0f64).to_bits()).is_none());
    assert!(Rate::from_bits(f64::INFINITY.to_bits()).is_none());
    assert!(Rate::from_bits(f64::NAN.to_bits()).is_none());
}

#[test]
fn missing_lookup_names_the_year_to_fetch() {
    let cache = RateCache::new();
    match cache.rate_for_day(day(2024, 12, 31), "gbp") {
        DayLookup::Missing { currency, year } => {
            assert_eq!(currency, "GBP");
            assert_eq!(year, 2024);
        }
        DayLookup::Cached(_) => panic!("empty cache answered"),
    }
}
