use exchange_rates::server::validate_currency;

#[test]
fn unsupported_currency_is_rejected() {
    let err = validate_currency("XYZ").unwrap_err();
    let text = err.message();
    assert!(text.contains("XYZ"), "unexpected error: {text}");
}

#[test]
fn supported_currency_is_accepted() {
    assert_eq!(validate_currency("usd").ok().unwrap(), "USD");
    assert_eq!(validate_currency("GBP").ok().unwrap(), "GBP");
    assert_eq!(validate_currency("jpy").ok().unwrap(), "JPY");
}

use exchange_rates::server::{
    plan_conversion, rate_request_currency, supported_currencies, ConversionPlan, GetRateParams,
    RequestError,
};
use exchange_rates::calendar::Day;
use exchange_rates::server::Lookback;

#[test]
fn future_date_is_rejected() {
    let err = Lookback::start("2099-01-01").err().unwrap();
    let text = err.message();
    assert!(text.contains("future"), "unexpected error: {text}");
    // The same date is refused on any given day before it.
    let today = Day::from_ymd(2025, 6, 30).unwrap();
    assert!(Lookback::start_on("2099-01-01", today).is_err());
}

#[test]
fn eur_is_rejected_in_get_exchange_rate() {
    let params = GetRateParams { date: "2025-01-02".to_string(), currency: "EUR".to_string() };
    let err = params.rate_currency().err().unwrap();
    let text = err.message();
    assert!(text.contains("base currency"), "unexpected error: {text}");
}

#[test]
fn rate_currency_is_upper_cased_and_checked() {
    assert_eq!(rate_request_currency("gbp").ok().unwrap(), "GBP");
    assert!(matches!(rate_request_currency("eur"), Err(RequestError::EurRate)));
    assert!(matches!(
        rate_request_currency("XYZ"),
        Err(RequestError::UnsupportedCurrency { .. })
    ));
}

#[test]
fn unsupported_currency_message_lists_supported_codes() {
    let err = validate_currency("xyz").unwrap_err();
    let text = err.message();
    assert!(text.starts_with("Unsupported currency 'xyz'. Supported: EUR, AUD, BGN, "));
    assert!(text.ends_with("TRY, USD, ZAR"));
    assert_eq!(supported_currencies().len(), 31);
}

#[test]
fn conversions_need_eur_on_exactly_one_side() {
    match plan_conversion("eur", "usd") {
        Ok(ConversionPlan::FromEur { foreign }) => assert_eq!(foreign, "USD"),
        _ => panic!("EUR to USD is a conversion from EUR"),
    }
    match plan_conversion("USD", "EUR") {
        Ok(ConversionPlan::ToEur { foreign }) => assert_eq!(foreign, "USD"),
        _ => panic!("USD to EUR is a conversion to EUR"),
    }
    let err = plan_conversion("gbp", "GBP").err().unwrap();
    assert_eq!(err.message(), "At least one of 'from' or 'to' must be EUR");
    let err = plan_conversion("EUR", "eur").err().unwrap();
    assert!(err.message().contains("converting EUR to EUR is not meaningful"));
    let err = plan_conversion("USD", "GBP").err().unwrap();
    assert_eq!(err.message(), "At least one of 'from' or 'to' must be EUR");
    let err = plan_conversion("USD", "XXX").err().unwrap();
    assert!(err.message().starts_with("Unsupported currency 'XXX'"));
}
