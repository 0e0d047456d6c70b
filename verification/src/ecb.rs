//! The ECB data API: request URLs, the plan of a one-year request, and the
//! loading of the rows of an ECB CSV response into the rate cache.
//!
//! ECB CSV response format (one row per trading day, non-trading days omitted):
//!
//! ```text
//! KEY,FREQ,CURRENCY,CURRENCY_DENOM,EXR_TYPE,EXR_SUFFIX,TIME_PERIOD,OBS_VALUE,...
//! EXR.D.USD.EUR.SP00.A,D,USD,EUR,SP00,A,2024-12-30,1.0444,...
//! EXR.D.USD.EUR.SP00.A,D,USD,EUR,SP00,A,2024-12-31,1.0389,...
//! EXR.D.USD.EUR.SP00.A,D,USD,EUR,SP00,A,2025-01-02,1.0321,...
//! ```

use crate::calendar::{
    berlin_today, clock_view, ClockDay, chrono_date_text, calendar_day, chrono_parse_iso_date, chrono_year,
    is_calendar_date, is_day_number, year_contains, Day,
};
use crate::rates::{
    cached_entry, holds_positive_rates, is_positive_finite_bits, rate_entry_ok, CacheKey, Rate,
    RateCache,
};
use crate::text::{append_i32, decimal_text, std_uppercase, uppercase};
use vstd::prelude::*;

verus! {

/// The ECB series URL of the daily EUR/`currency` reference rate.
pub open spec fn currency_url_text(currency: Seq<char>) -> Seq<char> {
    "https://data-api.ecb.europa.eu/service/data/EXR/D."@ + currency + ".EUR.SP00.A"@
}

/// The query that asks for the CSV data of the days `start..=end`.
pub open spec fn period_query_text(start: Seq<char>, end: Seq<char>) -> Seq<char> {
    "?startPeriod="@ + start + "&endPeriod="@ + end + "&format=csvdata"@
}

/// The ECB series URL of the daily EUR/`currency` reference rate.
pub fn ecb_currency_url(currency: &str) -> (url: String)
    ensures
        url@ == currency_url_text(currency@),
{
    let mut url = String::from_str("https://data-api.ecb.europa.eu/service/data/EXR/D.");
    url.append(currency);
    url.append(".EUR.SP00.A");
    url
}

/// `base` followed by the query for the CSV data of the days `start..=end`.
fn period_url(base: &str, start: Day, end: Day) -> (url: String)
    ensures
        url@ == base@ + period_query_text(chrono_date_text(start@), chrono_date_text(end@)),
{
    let mut url = String::from_str(base);
    url.append("?startPeriod=");
    url.append(start.text().as_str());
    url.append("&endPeriod=");
    url.append(end.text().as_str());
    url.append("&format=csvdata");
    url
}

/// The URL of the CSV data of EUR/`currency` on the single day `date`.
pub fn ecb_csv_url(currency: &str, date: Day) -> (url: String)
    ensures
        url@ == currency_url_text(currency@) + period_query_text(
            chrono_date_text(date@),
            chrono_date_text(date@),
        ),
{
    let base = ecb_currency_url(currency);
    period_url(base.as_str(), date, date)
}

/// Why a year of ECB data could not be loaded.
#[derive(Debug)]
pub enum EcbError {
    /// chrono has no January 1 of the year.
    InvalidYear { year: i32 },
    /// The year starts after today; `clock` is the clock reading that today
    /// came from, when it came from the clock.
    FutureYear { year: i32, clock: Option<ClockDay> },
    /// The ECB answered with an empty body.
    EmptyResponse { currency: String, year: i32 },
    /// The CSV reader failed on a row; `message` is its error text.
    Csv { message: String },
    /// A row's `TIME_PERIOD` is not a `%Y-%m-%d` date; `reason` is chrono's error text.
    InvalidDate { text: String, reason: String },
    /// A row's date lies outside the requested year.
    OutsideYear { text: String, year: i32 },
    /// A row's `OBS_VALUE` is not a positive finite number.
    InvalidRate { value: String, period: String },
}

/// The text of an error, as the service reports it.
pub open spec fn ecb_error_text(e: EcbError) -> Seq<char> {
    match e {
        EcbError::InvalidYear { year } => "Invalid year "@ + decimal_text(year as int),
        EcbError::FutureYear { year, .. } => "No exchange rate data available for future year "@
            + decimal_text(year as int),
        EcbError::EmptyResponse { currency, year } => "No exchange rate data available for "@
            + currency@ + " in year "@ + decimal_text(year as int),
        EcbError::Csv { message } => message@,
        EcbError::InvalidDate { text, reason } => "Invalid date '"@ + text@ + "' from ECB: "@
            + reason@,
        EcbError::OutsideYear { text, year } => "ECB returned date '"@ + text@
            + "' outside requested year "@ + decimal_text(year as int),
        EcbError::InvalidRate { value, period } => "ECB returned invalid rate "@ + value@ + " for "@
            + period@,
    }
}

impl EcbError {
    /// The text of this error.
    pub fn message(&self) -> (s: String)
        ensures
            s@ == ecb_error_text(*self),
    {
        match self {
            EcbError::InvalidYear { year } => {
                let mut s = String::from_str("Invalid year ");
                append_i32(&mut s, *year);
                s
            },
            EcbError::FutureYear { year, .. } => {
                let mut s = String::from_str("No exchange rate data available for future year ");
                append_i32(&mut s, *year);
                s
            },
            EcbError::EmptyResponse { currency, year } => {
                let mut s = String::from_str("No exchange rate data available for ");
                s.append(currency.as_str());
                s.append(" in year ");
                append_i32(&mut s, *year);
                s
            },
            EcbError::Csv { message } => message.clone(),
            EcbError::InvalidDate { text, reason } => {
                let mut s = String::from_str("Invalid date '");
                s.append(text.as_str());
                s.append("' from ECB: ");
                s.append(reason.as_str());
                s
            },
            EcbError::OutsideYear { text, year } => {
                let mut s = String::from_str("ECB returned date '");
                s.append(text.as_str());
                s.append("' outside requested year ");
                append_i32(&mut s, *year);
                s
            },
            EcbError::InvalidRate { value, period } => {
                let mut s = String::from_str("ECB returned invalid rate ");
                s.append(value.as_str());
                s.append(" for ");
                s.append(period.as_str());
                s
            },
        }
    }
}

/// The plan of a request for one calendar year of ECB data: the days
/// `jan1..=end` with `end` the earlier of December 31 and today.
#[derive(Debug)]
pub struct YearRequest {
    year: i32,
    jan1: Day,
    end: Day,
    today: Day,
    url: String,
    clock: Option<ClockDay>,
}

impl YearRequest {
    #[verifier::type_invariant]
    spec fn ends_by_today(self) -> bool {
        &&& self.end@ <= self.today@
        &&& self.jan1@ <= self.today@
    }

    pub closed spec fn spec_year(self) -> int {
        self.year as int
    }

    pub closed spec fn spec_jan1(self) -> int {
        self.jan1@
    }

    pub closed spec fn spec_end(self) -> int {
        self.end@
    }

    pub closed spec fn spec_today(self) -> int {
        self.today@
    }

    pub closed spec fn spec_url(self) -> Seq<char> {
        self.url@
    }

    /// The clock reading the request was planned on, when it was planned on the clock.
    pub closed spec fn spec_clock(self) -> Option<int> {
        clock_view(self.clock)
    }

    /// The requested year.
    pub fn year(&self) -> (y: i32)
        ensures
            y == self.spec_year(),
    {
        self.year
    }

    /// The URL to fetch.
    pub fn url(&self) -> (u: &String)
        ensures
            u@ == self.spec_url(),
    {
        &self.url
    }

    /// The first day of the requested year.
    pub fn jan1(&self) -> (d: Day)
        ensures
            d@ == self.spec_jan1(),
            d@ <= self.spec_today(),
    {
        proof {
            use_type_invariant(self);
        }
        self.jan1
    }

    /// The last requested day.
    pub fn end(&self) -> (d: Day)
        ensures
            d@ == self.spec_end(),
            d@ <= self.spec_today(),
    {
        proof {
            use_type_invariant(self);
        }
        self.end
    }

    /// The day the request was planned on.
    pub fn today(&self) -> (d: Day)
        ensures
            d@ == self.spec_today(),
    {
        self.today
    }
}

/// Plans the request for `year` of the series at `base_url`, today (the
/// current date in Frankfurt, where the ECB publishes, read from the clock).
/// It is the plan `year_request_on` makes for the day the clock gives: the
/// request's today is that reading, so its last day never lies after it.
/// Fails, before any request is made, on a year chrono cannot hold and on a
/// year that starts after the clock's day.
pub fn year_request(year: i32, base_url: &str) -> (res: Result<YearRequest, EcbError>)
    ensures
        match res {
            Ok(r) => {
                &&& r.spec_clock() == Some(r.spec_today())
                &&& is_calendar_date(year as int, 1, 1)
                &&& calendar_day(year as int, 1, 1) == Some(r.spec_jan1())
                &&& r.spec_jan1() <= r.spec_today()
                &&& r.spec_year() == year
                &&& calendar_day(year as int, 12, 31) matches Some(dec31)
                &&& r.spec_end() == (if dec31 <= r.spec_today() { dec31 } else { r.spec_today() })
                &&& r.spec_url() == base_url@ + period_query_text(
                    chrono_date_text(r.spec_jan1()),
                    chrono_date_text(r.spec_end()),
                )
            },
            Err(e) => if !is_calendar_date(year as int, 1, 1) {
                e matches EcbError::InvalidYear { year: y } && y == year
            } else {
                &&& e matches EcbError::FutureYear { year: y, clock: Some(c) } && y == year
                    && calendar_day(year as int, 1, 1)->0 > c@
            },
        },
{
    let clock = berlin_today();
    plan_year(year, clock.day(), Some(clock), base_url)
}

/// Plans the request for `year` of the series at `base_url`, on day `today`.
/// Fails on a year chrono cannot hold and on a year that starts after today.
pub fn year_request_on(year: i32, today: Day, base_url: &str) -> (res: Result<YearRequest, EcbError>)
    ensures
        match res {
            Ok(r) => {
                &&& is_calendar_date(year as int, 1, 1)
                &&& calendar_day(year as int, 1, 1) == Some(r.spec_jan1())
                &&& r.spec_jan1() <= today@
                &&& r.spec_year() == year
                &&& r.spec_today() == today@
                &&& r.spec_clock() is None
                &&& calendar_day(year as int, 12, 31) matches Some(dec31)
                &&& r.spec_end() == (if dec31 <= today@ { dec31 } else { today@ })
                &&& r.spec_url() == base_url@ + period_query_text(
                    chrono_date_text(r.spec_jan1()),
                    chrono_date_text(r.spec_end()),
                )
            },
            Err(e) => if !is_calendar_date(year as int, 1, 1) {
                e matches EcbError::InvalidYear { year: y } && y == year
            } else {
                &&& e matches EcbError::FutureYear { year: y, clock: None } && y == year
                &&& calendar_day(year as int, 1, 1) matches Some(jan1) && jan1 > today@
            },
        },
{
    plan_year(year, today, None, base_url)
}

/// Plans the request for `year` on day `today`, recording the clock reading
/// `clock` that today came from, if any.
fn plan_year(year: i32, today: Day, clock: Option<ClockDay>, base_url: &str) -> (res: Result<
    YearRequest,
    EcbError,
>)
    requires
        clock_view(clock) matches Some(c) ==> c == today@,
    ensures
        match res {
            Ok(r) => {
                &&& is_calendar_date(year as int, 1, 1)
                &&& calendar_day(year as int, 1, 1) == Some(r.spec_jan1())
                &&& r.spec_jan1() <= today@
                &&& r.spec_year() == year
                &&& r.spec_today() == today@
                &&& r.spec_clock() == clock_view(clock)
                &&& calendar_day(year as int, 12, 31) matches Some(dec31)
                &&& r.spec_end() == (if dec31 <= today@ { dec31 } else { today@ })
                &&& r.spec_url() == base_url@ + period_query_text(
                    chrono_date_text(r.spec_jan1()),
                    chrono_date_text(r.spec_end()),
                )
            },
            Err(e) => if !is_calendar_date(year as int, 1, 1) {
                e matches EcbError::InvalidYear { year: y } && y == year
            } else {
                &&& e matches EcbError::FutureYear { year: y, clock: c } && y == year
                    && clock_view(c) == clock_view(clock)
                &&& calendar_day(year as int, 1, 1) matches Some(jan1) && jan1 > today@
            },
        },
{
    let jan1 = match Day::from_ymd(year, 1, 1) {
        Some(d) => d,
        None => {
            return Err(EcbError::InvalidYear { year });
        },
    };
    if jan1.number() > today.number() {
        return Err(EcbError::FutureYear { year, clock });
    }
    let dec31 = match Day::from_ymd(year, 12, 31) {
        Some(d) => d,
        None => {
            return Err(EcbError::InvalidYear { year });
        },
    };
    let end = if dec31.number() <= today.number() {
        dec31
    } else {
        today
    };
    let url = period_url(base_url, jan1, end);
    Ok(YearRequest { year, jan1, end, today, url, clock })
}

/// One row of an ECB CSV response, as the CSV reader hands it over: the
/// `TIME_PERIOD` text, and the `OBS_VALUE` number as the bit pattern of its
/// double together with that double's display text.
#[derive(Debug)]
pub struct EcbRow {
    pub time_period: String,
    pub obs_value_bits: u64,
    pub obs_value_text: String,
}

/// The (day, rate bits) that a row contributes when it is acceptable for
/// `year`: a `%Y-%m-%d` date within `year` and a positive finite rate.
pub open spec fn accepted_row(row: Result<EcbRow, String>, year: int) -> Option<(int, u64)> {
    match row {
        Ok(r) => match chrono_parse_iso_date(r.time_period@) {
            Ok(day) => if chrono_year(day) == year && is_positive_finite_bits(r.obs_value_bits) {
                Some((day, r.obs_value_bits))
            } else {
                None
            },
            Err(_) => None,
        },
        Err(_) => None,
    }
}

/// `e` is the error that the first unacceptable row `row` raises.
pub open spec fn row_error(row: Result<EcbRow, String>, year: int, e: EcbError) -> bool {
    match row {
        Err(message) => e matches EcbError::Csv { message: m } && m@ == message@,
        Ok(r) => match chrono_parse_iso_date(r.time_period@) {
            Err(reason) => e matches EcbError::InvalidDate { text, reason: why } && text@
                == r.time_period@ && why@ == reason,
            Ok(day) => if chrono_year(day) != year {
                e matches EcbError::OutsideYear { text, year: y } && text@ == r.time_period@ && y
                    == year
            } else {
                e matches EcbError::InvalidRate { value, period } && value@ == r.obs_value_text@
                    && period@ == r.time_period@
            },
        },
    }
}

/// Every row is acceptable for `year`.
pub open spec fn all_rows_accepted(rows: Seq<Result<EcbRow, String>>, year: int) -> bool {
    forall|i: int| 0 <= i < rows.len() ==> (#[trigger] accepted_row(rows[i], year)) is Some
}

/// `m` after inserting, row by row, the rate of each acceptable row for `code` on its day.
pub open spec fn with_rows(
    m: Map<CacheKey, Option<Rate>>,
    code: Seq<char>,
    rows: Seq<Result<EcbRow, String>>,
    year: int,
) -> Map<CacheKey, Option<Rate>>
    decreases rows.len(),
{
    if rows.len() == 0 {
        m
    } else {
        let prev = with_rows(m, code, rows.drop_last(), year);
        match accepted_row(rows.last(), year) {
            Some((day, bits)) => prev.insert((code, day), Some(Rate::with_bits(bits))),
            None => prev,
        }
    }
}

/// `m` with "no rate" entries for `code` on every day of `first..=last`
/// other than `today` that `m` does not hold yet.
pub open spec fn with_backfill(
    m: Map<CacheKey, Option<Rate>>,
    code: Seq<char>,
    first: int,
    last: int,
    today: int,
) -> Map<CacheKey, Option<Rate>> {
    Map::new(
        |k: CacheKey| m.contains_key(k) || (k.0 == code && first <= k.1 <= last && k.1 != today),
        |k: CacheKey| if m.contains_key(k) {
            m[k]
        } else {
            None
        },
    )
}

/// `m` with "no rate" entries for `code` on the days `first <= n < bound` it does not hold.
spec fn with_range(m: Map<CacheKey, Option<Rate>>, code: Seq<char>, first: int, bound: int) -> Map<
    CacheKey,
    Option<Rate>,
> {
    Map::new(
        |k: CacheKey| m.contains_key(k) || (k.0 == code && first <= k.1 < bound),
        |k: CacheKey| if m.contains_key(k) {
            m[k]
        } else {
            None
        },
    )
}

/// Checks a row whose date has been parsed, `date_year` being the year of
/// that date, for the requested `year`: the date must lie in that year and
/// the rate must be positive and finite.
pub fn check_row(row: &EcbRow, date_year: i32, year: i32) -> (res: Result<Rate, EcbError>)
    ensures
        if date_year != year {
            res matches Err(EcbError::OutsideYear { text, year: y }) && text@ == row.time_period@
                && y == year
        } else if !is_positive_finite_bits(row.obs_value_bits) {
            res matches Err(EcbError::InvalidRate { value, period }) && value@
                == row.obs_value_text@ && period@ == row.time_period@
        } else {
            res == Ok::<Rate, EcbError>(Rate::with_bits(row.obs_value_bits))
        },
{
    if date_year != year {
        return Err(EcbError::OutsideYear { text: row.time_period.clone(), year });
    }
    match Rate::from_bits(row.obs_value_bits) {
        Some(r) => Ok(r),
        None => Err(
            EcbError::InvalidRate {
                value: row.obs_value_text.clone(),
                period: row.time_period.clone(),
            },
        ),
    }
}

/// The load stopped at row `i`, the first unacceptable one, with its error
/// `e`, after storing the rows before it: `m` became `post`.
pub open spec fn stopped_at(
    rows: Seq<Result<EcbRow, String>>,
    year: int,
    i: int,
    e: EcbError,
    code: Seq<char>,
    m: Map<CacheKey, Option<Rate>>,
    post: Map<CacheKey, Option<Rate>>,
) -> bool {
    &&& 0 <= i < rows.len()
    &&& all_rows_accepted(rows.take(i), year)
    &&& accepted_row(rows[i], year) is None
    &&& row_error(rows[i], year, e)
    &&& post == with_rows(m, code, rows.take(i), year)
}

/// Loads the ECB response for the year of `request` into `rates`: `body` is
/// the response text, `rows` what the CSV reader read from it, in order
/// (ending with the reader's error, if it failed). The rows are taken as the
/// caller hands them over: nothing here relates them to `body`.
///
/// An empty body is an error. Otherwise each row, in order, must have a
/// `%Y-%m-%d` date within the year and a positive finite rate; its rate is
/// stored for the upper-cased currency on that day, and the first row that
/// fails stops the load with its error (rows before it stay stored). When
/// every row passes, every day of `jan1..=end` except today that has no entry
/// gets an explicit "no rate" entry; today stays absent until the ECB has
/// published its rate.
pub fn load_year_into(
    request: &YearRequest,
    currency: &str,
    body: &str,
    rows: &Vec<Result<EcbRow, String>>,
    rates: &mut RateCache,
) -> (res: Result<(), EcbError>)
    ensures
        holds_positive_rates(old(rates)@) ==> holds_positive_rates(final(rates)@),
        ({
            let code = std_uppercase(currency@);
            let year = request.spec_year();
            match res {
                Ok(()) => {
                    &&& body@.len() > 0
                    &&& all_rows_accepted(rows@, year)
                    &&& final(rates)@ == with_backfill(
                        with_rows(old(rates)@, code, rows@, year),
                        code,
                        request.spec_jan1(),
                        request.spec_end(),
                        request.spec_today(),
                    )
                    &&& forall|i: int|
                        #![trigger accepted_row(rows@[i], year as int)]
                        last_row_for_its_day(rows@, year as int, i) ==> {
                            let (day, bits) = accepted_row(rows@[i], year as int).unwrap();
                            &&& final(rates)@.contains_key((code, day))
                            &&& final(rates)@[(code, day)] == Some(Rate::with_bits(bits))
                        }
                    &&& forall|n: int|
                        #![trigger final(rates)@[(code, n)]]
                        request.spec_jan1() <= n <= request.spec_end() && n != request.spec_today()
                            && !old(rates)@.contains_key((code, n)) && (forall|i: int|
                            0 <= i < rows@.len() && (#[trigger] accepted_row(rows@[i], year as int))
                                is Some ==> accepted_row(rows@[i], year as int).unwrap().0 != n)
                            ==> final(rates)@.contains_key((code, n)) && final(rates)@[(code, n)]
                            is None
                    &&& forall|k: CacheKey|
                        k.0 != code ==> (#[trigger] final(rates)@.contains_key(k)
                            == old(rates)@.contains_key(k) && (old(rates)@.contains_key(k)
                            ==> final(rates)@[k] == old(rates)@[k]))
                },
                Err(e) => if body@.len() == 0 {
                    &&& e matches EcbError::EmptyResponse { currency: c, year: y }
                    &&& c@ == currency@ && y == year
                    &&& final(rates)@ == old(rates)@
                } else {
                    exists|i: int|
                        #[trigger] stopped_at(rows@, year, i, e, code, old(rates)@, final(rates)@)
                },
            }
        }),
{
    let year = request.year();
    if body.is_empty() {
        return Err(EcbError::EmptyResponse { currency: String::from_str(currency), year });
    }
    let code = uppercase(currency);
    let ghost pre = rates@;
    let ghost ys = year as int;
    let mut i: usize = 0;
    assert(rows@.take(0) =~= Seq::<Result<EcbRow, String>>::empty());
    while i < rows.len()
        invariant
            i <= rows.len(),
            year == request.spec_year(),
            ys == year,
            body@.len() > 0,
            pre == old(rates)@,
            code@ == std_uppercase(currency@),
            all_rows_accepted(rows@.take(i as int), ys),
            rates@ == with_rows(pre, code@, rows@.take(i as int), ys),
            holds_positive_rates(pre) ==> holds_positive_rates(rates@),
        decreases rows.len() - i,
    {
        let ghost taken = rows@.take(i as int);
        assert(rows@.take(i + 1).drop_last() =~= taken);
        match &rows[i] {
            Err(message) => {
                let e = EcbError::Csv { message: message.clone() };
                proof {
                    assert(stopped_at(rows@, ys, i as int, e, code@, pre, rates@));
                }
                return Err(e);
            },
            Ok(row) => {
                let day = match Day::parse_iso(row.time_period.as_str()) {
                    Ok(d) => d,
                    Err(reason) => {
                        let e = EcbError::InvalidDate { text: row.time_period.clone(), reason };
                        proof {
                            assert(stopped_at(rows@, ys, i as int, e, code@, pre, rates@));
                        }
                        return Err(e);
                    },
                };
                let rate = match check_row(row, day.year(), year) {
                    Ok(r) => r,
                    Err(e) => {
                        proof {
                            assert(stopped_at(rows@, ys, i as int, e, code@, pre, rates@));
                        }
                        return Err(e);
                    },
                };
                rates.insert(&code, day, Some(rate));
            },
        }
        i = i + 1;
        proof {
            assert forall|j: int| 0 <= j < rows@.take(i as int).len() implies (#[trigger] accepted_row(
                rows@.take(i as int)[j],
                ys,
            )) is Some by {
                if j < i - 1 {
                    assert(rows@.take(i as int)[j] == taken[j]);
                }
            }
        }
    }
    assert(rows@.take(rows.len() as int) =~= rows@);
    let ghost filled = rates@;
    assert(holds_positive_rates(old(rates)@) ==> holds_positive_rates(rates@));
    let first: i32 = request.jan1().number();
    let last: i32 = request.end().number();
    let today: i32 = request.today().number();
    let mut n: i32 = first;
    assert(with_range(filled, code@, first as int, n as int) =~= filled);
    while n <= last && n != today
        invariant
            first <= n,
            n <= today,
            n <= last + 1 || n == first,
            last <= today,
            last == request.spec_end(),
            first == request.spec_jan1(),
            today == request.spec_today(),
            is_day_number(last as int),
            is_day_number(first as int),
            rates@ == with_range(filled, code@, first as int, n as int),
            holds_positive_rates(old(rates)@) ==> holds_positive_rates(rates@),
        decreases last + 1 - n,
    {
        let day = Day::from_number(n).unwrap();
        rates.insert_if_absent(&code, day, None);
        n = n + 1;
        assert(rates@ =~= with_range(filled, code@, first as int, n as int));
    }
    assert(rates@ =~= with_backfill(filled, code@, first as int, last as int, today as int));
    proof {
        lemma_loaded_year_contents(pre, code@, rows@, ys, first as int, last as int, today as int);
    }
    Ok(())
}

/// Rows only ever store rates: every entry the rows add to `m` is a rate for
/// `code` on the day of an acceptable row.
pub proof fn lemma_rows_store_rates(
    m: Map<CacheKey, Option<Rate>>,
    code: Seq<char>,
    rows: Seq<Result<EcbRow, String>>,
    year: int,
)
    ensures
        forall|k: CacheKey|
            #[trigger] with_rows(m, code, rows, year).contains_key(k) && !m.contains_key(k) ==> {
                &&& k.0 == code
                &&& with_rows(m, code, rows, year)[k] is Some
                &&& rate_entry_ok(with_rows(m, code, rows, year)[k])
                &&& exists|i: int|
                    0 <= i < rows.len() && (#[trigger] accepted_row(rows[i], year)) is Some
                        && accepted_row(rows[i], year).unwrap().0 == k.1
            },
        forall|k: CacheKey| m.contains_key(k) ==> #[trigger] with_rows(m, code, rows, year).contains_key(k),
        holds_positive_rates(m) ==> holds_positive_rates(with_rows(m, code, rows, year)),
    decreases rows.len(),
{
    if rows.len() > 0 {
        let prev = rows.drop_last();
        lemma_rows_store_rates(m, code, prev, year);
        let last = rows[rows.len() - 1];
        if accepted_row(last, year) is Some {
            Rate::lemma_with_bits(accepted_row(last, year).unwrap().1);
        }
        assert forall|k: CacheKey|
            #[trigger] with_rows(m, code, rows, year).contains_key(k) && !m.contains_key(k) implies {
                &&& k.0 == code
                &&& with_rows(m, code, rows, year)[k] is Some
                &&& rate_entry_ok(with_rows(m, code, rows, year)[k])
                &&& exists|i: int|
                    0 <= i < rows.len() && (#[trigger] accepted_row(rows[i], year)) is Some
                        && accepted_row(rows[i], year).unwrap().0 == k.1
            } by {
            if accepted_row(last, year) is Some && k == (code, accepted_row(last, year).unwrap().0) {
                assert(accepted_row(rows[rows.len() - 1], year) is Some);
            } else {
                let i = choose|i: int|
                    0 <= i < prev.len() && (#[trigger] accepted_row(prev[i], year)) is Some
                        && accepted_row(prev[i], year).unwrap().0 == k.1;
                assert(prev[i] == rows[i]);
            }
        }
        if holds_positive_rates(m) {
            assert forall|k: CacheKey| #[trigger]
                with_rows(m, code, rows, year).contains_key(k) implies rate_entry_ok(
                with_rows(m, code, rows, year)[k],
            ) by {
                if !(accepted_row(last, year) is Some && k == (code, accepted_row(
                    last,
                    year,
                ).unwrap().0)) {
                    assert(with_rows(m, code, prev, year).contains_key(k));
                }
            }
        }
    }
}

/// A successful load of a year leaves an entry for the currency on every day
/// of `jan1..=end` except today, so none of those days is fetched again; it
/// removes no entry; it stores only positive finite rates; and it never marks
/// today as "no rate": when the cache held nothing for today, afterwards it
/// holds a published rate, or, when no row is dated today, still nothing, so
/// that `RateCache::rate_for_day` asks for today's year to be fetched again.
pub proof fn lemma_loaded_year(
    m: Map<CacheKey, Option<Rate>>,
    code: Seq<char>,
    rows: Seq<Result<EcbRow, String>>,
    year: int,
    jan1: int,
    end: int,
    today: int,
)
    ensures
        ({
            let post = with_backfill(with_rows(m, code, rows, year), code, jan1, end, today);
            &&& forall|n: int|
                jan1 <= n <= end && n != today ==> (#[trigger] cached_entry(post, code, n)) is Some
            &&& forall|k: CacheKey| m.contains_key(k) ==> #[trigger] post.contains_key(k)
            &&& holds_positive_rates(m) ==> holds_positive_rates(post)
            &&& cached_entry(m, code, today) is None && cached_entry(post, code, today) is Some
                ==> post[(code, today)] is Some
            &&& cached_entry(m, code, today) is None && (forall|i: int|
                0 <= i < rows.len() && (#[trigger] accepted_row(rows[i], year)) is Some
                    ==> accepted_row(rows[i], year).unwrap().0 != today) ==> cached_entry(
                post,
                code,
                today,
            ) is None
        }),
{
    lemma_rows_store_rates(m, code, rows, year);
    let post = with_backfill(with_rows(m, code, rows, year), code, jan1, end, today);
    assert forall|n: int| jan1 <= n <= end && n != today implies (#[trigger] cached_entry(
        post,
        code,
        n,
    )) is Some by {
        assert(post.contains_key((code, n)));
    }
    if holds_positive_rates(m) {
        assert forall|k: CacheKey| #[trigger] post.contains_key(k) implies rate_entry_ok(post[k]) by {
            if !with_rows(m, code, rows, year).contains_key(k) {
                assert(post[k] is None);
            }
        }
    }
}

/// Merging a successfully loaded year into a cache (`RateCache::extend`)
/// leaves the cache with an entry for the currency on every day of
/// `jan1..=end` except today, so that `RateCache::rate_for_day` answers those
/// days `Cached` without another fetch, and keeps every entry the cache had.
pub proof fn lemma_merged_year_is_cached(
    cache: Map<CacheKey, Option<Rate>>,
    m: Map<CacheKey, Option<Rate>>,
    code: Seq<char>,
    rows: Seq<Result<EcbRow, String>>,
    year: int,
    jan1: int,
    end: int,
    today: int,
)
    ensures
        ({
            let merged = cache.union_prefer_right(
                with_backfill(with_rows(m, code, rows, year), code, jan1, end, today),
            );
            &&& forall|n: int|
                jan1 <= n <= end && n != today ==> (#[trigger] cached_entry(merged, code, n)) is Some
            &&& forall|k: CacheKey| cache.contains_key(k) ==> #[trigger] merged.contains_key(k)
        }),
{
    lemma_loaded_year(m, code, rows, year, jan1, end, today);
    let post = with_backfill(with_rows(m, code, rows, year), code, jan1, end, today);
    assert forall|n: int| jan1 <= n <= end && n != today implies (#[trigger] cached_entry(
        cache.union_prefer_right(post),
        code,
        n,
    )) is Some by {
        assert(cached_entry(post, code, n) is Some);
    }
}

/// A day that the cache lacked is answered from the cache once its year has
/// been fetched and merged, unless it is today: the request for the year
/// `y` that contains the day (the year `RateCache::rate_for_day` names, on a
/// day `today` not before it) covers `jan1..=end` with `end` the earlier of
/// December 31 and today, and the merge leaves an entry on all those days
/// but today.
pub proof fn lemma_fetched_day_is_cached(
    cache: Map<CacheKey, Option<Rate>>,
    m: Map<CacheKey, Option<Rate>>,
    code: Seq<char>,
    rows: Seq<Result<EcbRow, String>>,
    y: int,
    day: int,
    today: int,
)
    requires
        year_contains(y, day),
        day < today,
    ensures
        ({
            let jan1 = calendar_day(y, 1, 1)->0;
            let dec31 = calendar_day(y, 12, 31)->0;
            let end = if dec31 <= today {
                dec31
            } else {
                today
            };
            cached_entry(
                cache.union_prefer_right(
                    with_backfill(with_rows(m, code, rows, y), code, jan1, end, today),
                ),
                code,
                day,
            ) is Some
        }),
{
    let jan1 = calendar_day(y, 1, 1)->0;
    let dec31 = calendar_day(y, 12, 31)->0;
    let end = if dec31 <= today {
        dec31
    } else {
        today
    };
    lemma_merged_year_is_cached(cache, m, code, rows, y, jan1, end, today);
}

/// Row `i` is acceptable for `year` and no later acceptable row is dated the same day.
pub open spec fn last_row_for_its_day(rows: Seq<Result<EcbRow, String>>, year: int, i: int) -> bool {
    &&& 0 <= i < rows.len()
    &&& accepted_row(rows[i], year) is Some
    &&& forall|j: int|
        i < j < rows.len() && (#[trigger] accepted_row(rows[j], year)) is Some ==> accepted_row(
            rows[j],
            year,
        ).unwrap().0 != accepted_row(rows[i], year).unwrap().0
}

/// Storing the rows: each acceptable row leaves its own rate on its day,
/// unless a later acceptable row is dated the same day; entries of other
/// currencies are left as they were.
pub proof fn lemma_row_rates_stored(
    m: Map<CacheKey, Option<Rate>>,
    code: Seq<char>,
    rows: Seq<Result<EcbRow, String>>,
    year: int,
)
    ensures
        forall|i: int|
            #![trigger accepted_row(rows[i], year)]
            last_row_for_its_day(rows, year, i) ==> {
                let (day, bits) = accepted_row(rows[i], year).unwrap();
                &&& with_rows(m, code, rows, year).contains_key((code, day))
                &&& with_rows(m, code, rows, year)[(code, day)] == Some(Rate::with_bits(bits))
            },
        forall|k: CacheKey|
            k.0 != code ==> (#[trigger] with_rows(m, code, rows, year).contains_key(k)
                == m.contains_key(k) && (m.contains_key(k) ==> with_rows(m, code, rows, year)[k]
                == m[k])),
    decreases rows.len(),
{
    if rows.len() > 0 {
        let prev = rows.drop_last();
        let n = rows.len() - 1;
        lemma_row_rates_stored(m, code, prev, year);
        assert forall|i: int|
            #![trigger accepted_row(rows[i], year)]
            last_row_for_its_day(rows, year, i) implies {
                let (day, bits) = accepted_row(rows[i], year).unwrap();
                &&& with_rows(m, code, rows, year).contains_key((code, day))
                &&& with_rows(m, code, rows, year)[(code, day)] == Some(Rate::with_bits(bits))
            } by {
            if i < n {
                assert(prev[i] == rows[i]);
                assert forall|j: int|
                    i < j < prev.len() && (#[trigger] accepted_row(prev[j], year)) is Some
                        implies accepted_row(prev[j], year).unwrap().0 != accepted_row(
                    prev[i],
                    year,
                ).unwrap().0 by {
                    assert(prev[j] == rows[j]);
                }
                assert(last_row_for_its_day(prev, year, i));
                if accepted_row(rows[n], year) is Some {
                    assert(accepted_row(rows[n], year).unwrap().0 != accepted_row(
                        rows[i],
                        year,
                    ).unwrap().0);
                }
            }
        }
    }
}

/// The cache after a successful load of a year: each acceptable row's rate
/// is on its day (unless a later row is dated the same day); every other
/// day of `jan1..=end` but today that the cache did not hold is marked
/// "no rate"; today is marked only by a row dated today; and the entries of
/// other currencies are unchanged.
pub proof fn lemma_loaded_year_contents(
    m: Map<CacheKey, Option<Rate>>,
    code: Seq<char>,
    rows: Seq<Result<EcbRow, String>>,
    year: int,
    jan1: int,
    end: int,
    today: int,
)
    ensures
        ({
            let post = with_backfill(with_rows(m, code, rows, year), code, jan1, end, today);
            &&& forall|i: int|
                #![trigger accepted_row(rows[i], year)]
                last_row_for_its_day(rows, year, i) ==> post[(
                    code,
                    accepted_row(rows[i], year).unwrap().0,
                )] == Some(Rate::with_bits(accepted_row(rows[i], year).unwrap().1))
                    && post.contains_key((code, accepted_row(rows[i], year).unwrap().0))
            &&& forall|n: int|
                #![trigger post[(code, n)]]
                jan1 <= n <= end && n != today && !m.contains_key((code, n)) && (forall|i: int|
                    0 <= i < rows.len() && (#[trigger] accepted_row(rows[i], year)) is Some
                        ==> accepted_row(rows[i], year).unwrap().0 != n) ==> post.contains_key(
                    (code, n),
                ) && post[(code, n)] is None
            &&& forall|k: CacheKey|
                k.0 != code ==> (#[trigger] post.contains_key(k) == m.contains_key(k) && (
                m.contains_key(k) ==> post[k] == m[k]))
        }),
{
    lemma_row_rates_stored(m, code, rows, year);
    lemma_rows_store_rates(m, code, rows, year);
    let w = with_rows(m, code, rows, year);
    let post = with_backfill(w, code, jan1, end, today);
    assert forall|n: int|
        #![trigger post[(code, n)]]
        jan1 <= n <= end && n != today && !m.contains_key((code, n)) && (forall|i: int|
            0 <= i < rows.len() && (#[trigger] accepted_row(rows[i], year)) is Some
                ==> accepted_row(rows[i], year).unwrap().0 != n) implies post.contains_key((code, n))
        && post[(code, n)] is None by {
        if w.contains_key((code, n)) {
            let i = choose|i: int|
                0 <= i < rows.len() && (#[trigger] accepted_row(rows[i], year)) is Some
                    && accepted_row(rows[i], year).unwrap().0 == n;
        }
    }
}

} // verus!
