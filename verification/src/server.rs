//! The decisions of the exchange-rate tools: which currencies are served,
//! which conversions are meaningful, and the look-back from a requested date
//! to the most recent day with a published rate.

use crate::calendar::{
    berlin_today, chrono_parse_iso_date, clock_view, is_day_number, ClockDay, Day,
};
use crate::rates::Rate;
use crate::text::{append_i32, decimal_text, std_uppercase, uppercase};
use vstd::prelude::*;

verus! {

/// How many days before the requested date the look-back may go.
pub const LOOKBACK_DAYS: u32 = 10u32;

/// The currency codes the service accepts, EUR first.
pub open spec fn supported_codes() -> Seq<Seq<char>> {
    seq![
        "EUR"@, "AUD"@, "BGN"@, "BRL"@, "CAD"@, "CHF"@, "CNY"@, "CZK"@, "DKK"@, "GBP"@, "HKD"@,
        "HUF"@, "IDR"@, "ILS"@, "INR"@, "ISK"@, "JPY"@, "KRW"@, "MXN"@, "MYR"@, "NOK"@, "NZD"@,
        "PHP"@, "PLN"@, "RON"@, "SEK"@, "SGD"@, "THB"@, "TRY"@, "USD"@, "ZAR"@,
    ]
}

/// `code` is one of the supported currency codes.
pub open spec fn is_supported(code: Seq<char>) -> bool {
    supported_codes().contains(code)
}

/// The service accepts exactly EUR and the thirty currencies it names, each
/// of them, the last listed (ZAR) included.
pub proof fn lemma_supported_currencies(code: Seq<char>)
    ensures
        supported_codes().len() == 31,
        is_supported(code) <==> {
            ||| code == "EUR"@
            ||| code == "AUD"@
            ||| code == "BGN"@
            ||| code == "BRL"@
            ||| code == "CAD"@
            ||| code == "CHF"@
            ||| code == "CNY"@
            ||| code == "CZK"@
            ||| code == "DKK"@
            ||| code == "GBP"@
            ||| code == "HKD"@
            ||| code == "HUF"@
            ||| code == "IDR"@
            ||| code == "ILS"@
            ||| code == "INR"@
            ||| code == "ISK"@
            ||| code == "JPY"@
            ||| code == "KRW"@
            ||| code == "MXN"@
            ||| code == "MYR"@
            ||| code == "NOK"@
            ||| code == "NZD"@
            ||| code == "PHP"@
            ||| code == "PLN"@
            ||| code == "RON"@
            ||| code == "SEK"@
            ||| code == "SGD"@
            ||| code == "THB"@
            ||| code == "TRY"@
            ||| code == "USD"@
            ||| code == "ZAR"@
        },
{
        assert(supported_codes()[0] == "EUR"@);
        assert(supported_codes()[1] == "AUD"@);
        assert(supported_codes()[2] == "BGN"@);
        assert(supported_codes()[3] == "BRL"@);
        assert(supported_codes()[4] == "CAD"@);
        assert(supported_codes()[5] == "CHF"@);
        assert(supported_codes()[6] == "CNY"@);
        assert(supported_codes()[7] == "CZK"@);
        assert(supported_codes()[8] == "DKK"@);
        assert(supported_codes()[9] == "GBP"@);
        assert(supported_codes()[10] == "HKD"@);
        assert(supported_codes()[11] == "HUF"@);
        assert(supported_codes()[12] == "IDR"@);
        assert(supported_codes()[13] == "ILS"@);
        assert(supported_codes()[14] == "INR"@);
        assert(supported_codes()[15] == "ISK"@);
        assert(supported_codes()[16] == "JPY"@);
        assert(supported_codes()[17] == "KRW"@);
        assert(supported_codes()[18] == "MXN"@);
        assert(supported_codes()[19] == "MYR"@);
        assert(supported_codes()[20] == "NOK"@);
        assert(supported_codes()[21] == "NZD"@);
        assert(supported_codes()[22] == "PHP"@);
        assert(supported_codes()[23] == "PLN"@);
        assert(supported_codes()[24] == "RON"@);
        assert(supported_codes()[25] == "SEK"@);
        assert(supported_codes()[26] == "SGD"@);
        assert(supported_codes()[27] == "THB"@);
        assert(supported_codes()[28] == "TRY"@);
        assert(supported_codes()[29] == "USD"@);
        assert(supported_codes()[30] == "ZAR"@);
    if is_supported(code) {
        let i = choose|i: int| 0 <= i < supported_codes().len() && supported_codes()[i] == code;
    }
}

/// The texts of `parts` joined by `sep`.
pub open spec fn joined(parts: Seq<Seq<char>>, sep: Seq<char>) -> Seq<char>
    decreases parts.len(),
{
    if parts.len() == 0 {
        Seq::empty()
    } else if parts.len() == 1 {
        parts[0]
    } else {
        joined(parts.drop_last(), sep) + sep + parts.last()
    }
}

/// The supported currency codes, EUR first.
pub fn supported_currencies() -> (v: Vec<String>)
    ensures
        v@.len() == supported_codes().len(),
        forall|i: int| 0 <= i < v@.len() ==> #[trigger] v@[i]@ == supported_codes()[i],
{
    let v = vec![
        String::from_str("EUR"),
        String::from_str("AUD"),
        String::from_str("BGN"),
        String::from_str("BRL"),
        String::from_str("CAD"),
        String::from_str("CHF"),
        String::from_str("CNY"),
        String::from_str("CZK"),
        String::from_str("DKK"),
        String::from_str("GBP"),
        String::from_str("HKD"),
        String::from_str("HUF"),
        String::from_str("IDR"),
        String::from_str("ILS"),
        String::from_str("INR"),
        String::from_str("ISK"),
        String::from_str("JPY"),
        String::from_str("KRW"),
        String::from_str("MXN"),
        String::from_str("MYR"),
        String::from_str("NOK"),
        String::from_str("NZD"),
        String::from_str("PHP"),
        String::from_str("PLN"),
        String::from_str("RON"),
        String::from_str("SEK"),
        String::from_str("SGD"),
        String::from_str("THB"),
        String::from_str("TRY"),
        String::from_str("USD"),
        String::from_str("ZAR"),
    ];
    v
}

/// The supported codes joined by ", ".
fn supported_list_text() -> (s: String)
    ensures
        s@ == joined(supported_codes(), ", "@),
{
    let codes = supported_currencies();
    let mut s = String::new();
    let mut i: usize = 0;
    while i < codes.len()
        invariant
            i <= codes.len(),
            codes@.len() == supported_codes().len(),
            forall|j: int| 0 <= j < codes@.len() ==> #[trigger] codes@[j]@ == supported_codes()[j],
            s@ == joined(supported_codes().take(i as int), ", "@),
        decreases codes.len() - i,
    {
        assert(supported_codes().take(i + 1).drop_last() =~= supported_codes().take(i as int));
        if i > 0 {
            s.append(", ");
        } else {
            assert(supported_codes().take(0) =~= Seq::<Seq<char>>::empty());
        }
        s.append(codes[i].as_str());
        i = i + 1;
    }
    assert(supported_codes().take(codes.len() as int) =~= supported_codes());
    s
}

/// Why a tool request was refused before any rate was looked up.
#[derive(Debug)]
pub enum RequestError {
    /// The currency, upper-cased, is not a supported code; `input` is what was given.
    UnsupportedCurrency { input: String },
    /// A rate was asked for EUR itself.
    EurRate,
    /// A conversion from EUR to EUR was asked for.
    EurToEur,
    /// A conversion with EUR on neither side was asked for.
    NoEurSide,
}

/// The text of a refusal, as the service reports it.
pub open spec fn request_error_text(e: RequestError) -> Seq<char> {
    match e {
        RequestError::UnsupportedCurrency { input } => "Unsupported currency '"@ + input@
            + "'. Supported: "@ + joined(supported_codes(), ", "@),
        RequestError::EurRate =>
            "EUR is the base currency \u{2014} get_exchange_rate requires a non-EUR currency. Use convert_currency if you want to convert amounts."@,
        RequestError::EurToEur =>
            "EUR is the base currency \u{2014} converting EUR to EUR is not meaningful. Specify a non-EUR currency on one side."@,
        RequestError::NoEurSide => "At least one of 'from' or 'to' must be EUR"@,
    }
}

impl RequestError {
    /// The text of this refusal.
    pub fn message(&self) -> (s: String)
        ensures
            s@ == request_error_text(*self),
    {
        match self {
            RequestError::UnsupportedCurrency { input } => {
                let mut s = String::from_str("Unsupported currency '");
                s.append(input.as_str());
                s.append("'. Supported: ");
                let list = supported_list_text();
                s.append(list.as_str());
                s
            },
            RequestError::EurRate => String::from_str(
                "EUR is the base currency \u{2014} get_exchange_rate requires a non-EUR currency. Use convert_currency if you want to convert amounts.",
            ),
            RequestError::EurToEur => String::from_str(
                "EUR is the base currency \u{2014} converting EUR to EUR is not meaningful. Specify a non-EUR currency on one side.",
            ),
            RequestError::NoEurSide => String::from_str(
                "At least one of 'from' or 'to' must be EUR",
            ),
        }
    }
}

/// Whether `code` is a supported currency code.
pub fn is_supported_code(code: &String) -> (b: bool)
    ensures
        b == is_supported(code@),
{
    let codes = supported_currencies();
    let mut i: usize = 0;
    while i < codes.len()
        invariant
            i <= codes.len(),
            codes@.len() == supported_codes().len(),
            forall|j: int| 0 <= j < codes@.len() ==> #[trigger] codes@[j]@ == supported_codes()[j],
            forall|j: int| 0 <= j < i ==> supported_codes()[j] != code@,
        decreases codes.len() - i,
    {
        if codes[i] == *code {
            assert(supported_codes()[i as int] == code@);
            return true;
        }
        i = i + 1;
    }
    false
}

/// Upper-cases the currency `c` and accepts it if it is a supported code.
pub fn validate_currency(c: &str) -> (res: Result<String, RequestError>)
    ensures
        match res {
            Ok(code) => code@ == std_uppercase(c@) && is_supported(std_uppercase(c@)),
            Err(e) => {
                &&& !is_supported(std_uppercase(c@))
                &&& e matches RequestError::UnsupportedCurrency { input } && input@ == c@
            },
        },
{
    let upper = uppercase(c);
    if is_supported_code(&upper) {
        Ok(upper)
    } else {
        Err(RequestError::UnsupportedCurrency { input: String::from_str(c) })
    }
}

/// The currency whose EUR rate `get_exchange_rate` is asked for: a supported
/// code other than EUR.
pub fn rate_request_currency(currency: &str) -> (res: Result<String, RequestError>)
    ensures
        match res {
            Ok(code) => code@ == std_uppercase(currency@) && is_supported(code@) && code@ != "EUR"@,
            Err(e) => if !is_supported(std_uppercase(currency@)) {
                e matches RequestError::UnsupportedCurrency { input } && input@ == currency@
            } else {
                std_uppercase(currency@) == "EUR"@ && e is EurRate
            },
        },
{
    let code = validate_currency(currency)?;
    let eur = String::from_str("EUR");
    if code == eur {
        return Err(RequestError::EurRate);
    }
    Ok(code)
}

/// The arguments of the `get_exchange_rate` tool.
#[derive(Debug)]
pub struct GetRateParams {
    /// Date in YYYY-MM-DD format (e.g. "2025-01-15").
    pub date: String,
    /// ISO 4217 code of the currency whose EUR rate is asked for (e.g. "USD", "GBP", "JPY").
    /// Returns: 1 EUR = N {currency}.
    pub currency: String,
}

impl GetRateParams {
    /// The currency these arguments ask the EUR rate of: a supported code other than EUR.
    pub fn rate_currency(&self) -> (res: Result<String, RequestError>)
        ensures
            match res {
                Ok(code) => code@ == std_uppercase(self.currency@) && is_supported(code@) && code@
                    != "EUR"@,
                Err(e) => if !is_supported(std_uppercase(self.currency@)) {
                    e matches RequestError::UnsupportedCurrency { input } && input@
                        == self.currency@
                } else {
                    std_uppercase(self.currency@) == "EUR"@ && e is EurRate
                },
            },
    {
        rate_request_currency(self.currency.as_str())
    }
}

/// How an amount is converted: exactly one side is EUR.
#[derive(Debug)]
pub enum ConversionPlan {
    /// From EUR to `foreign`: the amount is multiplied by the EUR/`foreign` rate.
    FromEur { foreign: String },
    /// From `foreign` to EUR: the amount is divided by the EUR/`foreign` rate.
    ToEur { foreign: String },
}

/// Decides how to convert from currency `from` to currency `to`: exactly one
/// side must be EUR, so EUR to EUR, and a pair with EUR on neither side
/// (the same non-EUR currency twice among them), are refused.
pub fn plan_conversion(from: &str, to: &str) -> (res: Result<ConversionPlan, RequestError>)
    ensures
        ({
            let f = std_uppercase(from@);
            let t = std_uppercase(to@);
            if !is_supported(f) {
                res matches Err(RequestError::UnsupportedCurrency { input }) && input@ == from@
            } else if !is_supported(t) {
                res matches Err(RequestError::UnsupportedCurrency { input }) && input@ == to@
            } else if f == t {
                if f == "EUR"@ {
                    res matches Err(RequestError::EurToEur)
                } else {
                    res matches Err(RequestError::NoEurSide)
                }
            } else if f == "EUR"@ {
                res matches Ok(ConversionPlan::FromEur { foreign }) && foreign@ == t
            } else if t == "EUR"@ {
                res matches Ok(ConversionPlan::ToEur { foreign }) && foreign@ == f
            } else {
                res matches Err(RequestError::NoEurSide)
            }
        }),
{
    let from_code = validate_currency(from)?;
    let to_code = validate_currency(to)?;
    let eur = String::from_str("EUR");
    if from_code == to_code {
        if from_code == eur {
            return Err(RequestError::EurToEur);
        }
        return Err(RequestError::NoEurSide);
    }
    if from_code == eur {
        Ok(ConversionPlan::FromEur { foreign: to_code })
    } else if to_code == eur {
        Ok(ConversionPlan::ToEur { foreign: from_code })
    } else {
        Err(RequestError::NoEurSide)
    }
}

/// Why no rate could be returned for a requested date.
#[derive(Debug)]
pub enum RateError {
    /// `date` is not a `%Y-%m-%d` date; `reason` is chrono's error text.
    InvalidDate { date: String, reason: String },
    /// `date` lies after today; `clock` is the clock reading that today came
    /// from, when it came from the clock.
    FutureDate { date: String, clock: Option<ClockDay> },
    /// Neither `date` nor any of the `LOOKBACK_DAYS` days before it has a rate.
    NoData { date: String },
}

/// The text of a look-back failure, as the service reports it.
pub open spec fn rate_error_text(e: RateError) -> Seq<char> {
    match e {
        RateError::InvalidDate { date, reason } => "Invalid date format '"@ + date@ + "': "@
            + reason@,
        RateError::FutureDate { date, .. } => "Exchange rates are not available for future date "@
            + date@,
        RateError::NoData { date } => "No exchange rate data available for "@ + date@ + " or the "@
            + decimal_text(LOOKBACK_DAYS as int) + " preceding days"@,
    }
}

impl RateError {
    /// The text of this failure.
    pub fn message(&self) -> (s: String)
        ensures
            s@ == rate_error_text(*self),
    {
        match self {
            RateError::InvalidDate { date, reason } => {
                let mut s = String::from_str("Invalid date format '");
                s.append(date.as_str());
                s.append("': ");
                s.append(reason.as_str());
                s
            },
            RateError::FutureDate { date, .. } => {
                let mut s = String::from_str("Exchange rates are not available for future date ");
                s.append(date.as_str());
                s
            },
            RateError::NoData { date } => {
                let mut s = String::from_str("No exchange rate data available for ");
                s.append(date.as_str());
                s.append(" or the ");
                append_i32(&mut s, LOOKBACK_DAYS as i32);
                s.append(" preceding days");
                s
            },
        }
    }
}

/// The search, from a requested date backwards, for the most recent day with
/// a published rate. The caller answers, day after day, whether that day has
/// a rate (consulting the cache and fetching a year where it has to); the
/// search says which day to ask about next, or what it found.
pub struct Lookback {
    date_text: String,
    date: Day,
    offset: u32,
    answers: Ghost<Seq<Option<Rate>>>,
    clock: Option<ClockDay>,
}

/// What the search needs next, or its outcome.
#[derive(Debug)]
pub enum LookbackStep {
    /// Ask whether this day has a rate.
    Check(Day),
    /// This day is the most recent one with a rate, and this is its rate.
    Found(Day, Rate),
    /// No day of the look-back window has a rate.
    Exhausted,
}

impl Lookback {
    #[verifier::type_invariant]
    spec fn in_window(self) -> bool {
        &&& self.offset <= LOOKBACK_DAYS
        &&& is_day_number(self.date@ - self.offset)
        &&& self.answers@.len() == self.offset
        &&& forall|j: int| 0 <= j < self.offset ==> #[trigger] self.answers@[j] is None
    }

    /// The answers taken so far, for the requested date, the day before, and so on.
    pub closed spec fn spec_answers(self) -> Seq<Option<Rate>> {
        self.answers@
    }

    /// The clock reading the search was started on, when it was started on the clock.
    pub closed spec fn spec_clock(self) -> Option<int> {
        clock_view(self.clock)
    }

    /// The requested date.
    pub closed spec fn spec_date(self) -> int {
        self.date@
    }

    /// The requested date as it was given.
    pub closed spec fn spec_date_text(self) -> Seq<char> {
        self.date_text@
    }

    /// How many days before the requested date the day now asked about lies;
    /// every later day of the window was answered without a rate.
    pub closed spec fn spec_offset(self) -> int {
        self.offset as int
    }

    /// The day now asked about.
    pub open spec fn spec_candidate(self) -> int {
        self.spec_date() - self.spec_offset()
    }

    /// Starts the search for the rate of `date` (`%Y-%m-%d`), today (the
    /// current date in Frankfurt, read from the clock): the first day to ask
    /// about is the date itself. It is the search `start_on` starts on the day
    /// the clock gives: a date that does not parse is refused, a date after
    /// the clock's day is refused as future, and any other date, today's
    /// included, is searched for.
    pub fn start(date: &str) -> (res: Result<(Lookback, Day), RateError>)
        ensures
            match chrono_parse_iso_date(date@) {
                Err(reason) => res matches Err(RateError::InvalidDate { date: d, reason: why })
                    && d@ == date@ && why@ == reason,
                Ok(day) => match res {
                    Ok((search, first)) => {
                        &&& search.spec_clock() matches Some(today) && day <= today
                        &&& search.spec_date() == day
                        &&& search.spec_offset() == 0
                        &&& search.spec_date_text() == date@
                        &&& search.spec_answers() == Seq::<Option<Rate>>::empty()
                        &&& first@ == day
                    },
                    Err(e) => e matches RateError::FutureDate { date: d, clock: Some(today) } && d@
                        == date@ && day > today@,
                },
            },
    {
        let clock = berlin_today();
        let parsed = Day::parse_iso(date);
        Lookback::begin(date, parsed, clock.day(), Some(clock))
    }

    /// Starts the search for the rate of `date` (`%Y-%m-%d`) on day `today`:
    /// the first day to ask about is the date itself. A date that does not
    /// parse, or that lies after today, is refused.
    pub fn start_on(date: &str, today: Day) -> (res: Result<(Lookback, Day), RateError>)
        ensures
            match chrono_parse_iso_date(date@) {
                Err(reason) => res matches Err(RateError::InvalidDate { date: d, reason: why })
                    && d@ == date@ && why@ == reason,
                Ok(day) => if day > today@ {
                    res matches Err(RateError::FutureDate { date: d, clock: None }) && d@ == date@
                } else {
                    res matches Ok((search, first)) && search.spec_date() == day
                        && search.spec_offset() == 0 && search.spec_date_text() == date@
                        && search.spec_answers() == Seq::<Option<Rate>>::empty() && first@ == day
                        && search.spec_clock() is None
                },
            },
    {
        let parsed = Day::parse_iso(date);
        Lookback::start_at(date, parsed, today)
    }

    /// Starts the search once `date` has been parsed into `parsed` (the day,
    /// or the parser's error text).
    pub fn start_at(date: &str, parsed: Result<Day, String>, today: Day) -> (res: Result<
        (Lookback, Day),
        RateError,
    >)
        ensures
            match parsed {
                Err(reason) => res matches Err(RateError::InvalidDate { date: d, reason: why })
                    && d@ == date@ && why == reason,
                Ok(day) => if day@ > today@ {
                    res matches Err(RateError::FutureDate { date: d, clock: None }) && d@ == date@
                } else {
                    res matches Ok((search, first)) && search.spec_date() == day@
                        && search.spec_offset() == 0 && search.spec_date_text() == date@
                        && search.spec_answers() == Seq::<Option<Rate>>::empty() && first == day
                        && search.spec_clock() is None
                },
            },
    {
        Lookback::begin(date, parsed, today, None)
    }

    /// Starts the search on day `today`, recording the clock reading `clock`
    /// that today came from, if any.
    fn begin(date: &str, parsed: Result<Day, String>, today: Day, clock: Option<ClockDay>) -> (res:
        Result<(Lookback, Day), RateError>)
        requires
            clock_view(clock) matches Some(c) ==> c == today@,
        ensures
            match parsed {
                Err(reason) => res matches Err(RateError::InvalidDate { date: d, reason: why })
                    && d@ == date@ && why == reason,
                Ok(day) => if day@ > today@ {
                    res matches Err(RateError::FutureDate { date: d, clock: c }) && d@ == date@
                        && clock_view(c) == clock_view(clock)
                } else {
                    res matches Ok((search, first)) && search.spec_date() == day@
                        && search.spec_offset() == 0 && search.spec_date_text() == date@
                        && search.spec_answers() == Seq::<Option<Rate>>::empty() && first == day
                        && search.spec_clock() == clock_view(clock)
                },
            },
    {
        let day = match parsed {
            Ok(d) => d,
            Err(reason) => {
                return Err(RateError::InvalidDate { date: String::from_str(date), reason });
            },
        };
        if day.number() > today.number() {
            return Err(RateError::FutureDate { date: String::from_str(date), clock });
        }
        Ok(
            (
                Lookback {
                    date_text: String::from_str(date),
                    date: day,
                    offset: 0,
                    answers: Ghost(Seq::empty()),
                    clock,
                },
                day,
            ),
        )
    }

    /// Takes the answer for the day now asked about: a rate ends the search;
    /// no rate moves to the day before, unless the window is used up (or the
    /// day before lies before chrono's first day).
    pub fn step(&mut self, answer: Option<Rate>) -> (res: LookbackStep)
        ensures
            final(self).spec_date() == old(self).spec_date(),
            final(self).spec_date_text() == old(self).spec_date_text(),
            final(self).spec_clock() == old(self).spec_clock(),
            old(self).spec_answers().len() == old(self).spec_offset(),
            forall|j: int|
                0 <= j < old(self).spec_offset() ==> #[trigger] old(self).spec_answers()[j] is None,
            match res {
                LookbackStep::Found(day, rate) => {
                    &&& answer == Some(rate)
                    &&& day@ == old(self).spec_candidate()
                    &&& final(self).spec_offset() == old(self).spec_offset()
                    &&& final(self).spec_answers() == old(self).spec_answers()
                },
                LookbackStep::Check(day) => {
                    &&& answer is None
                    &&& old(self).spec_offset() < LOOKBACK_DAYS
                    &&& final(self).spec_offset() == old(self).spec_offset() + 1
                    &&& final(self).spec_answers() == old(self).spec_answers().push(None)
                    &&& day@ == final(self).spec_candidate()
                },
                LookbackStep::Exhausted => {
                    &&& answer is None
                    &&& (old(self).spec_offset() == LOOKBACK_DAYS || !is_day_number(
                        old(self).spec_candidate() - 1,
                    ))
                    &&& final(self).spec_offset() == old(self).spec_offset()
                    &&& final(self).spec_answers() == old(self).spec_answers()
                },
            },
    {
        proof {
            use_type_invariant(&*self);
        }
        match answer {
            Some(rate) => {
                let day = self.date.minus_days(self.offset).unwrap();
                LookbackStep::Found(day, rate)
            },
            None => {
                if self.offset >= LOOKBACK_DAYS {
                    return LookbackStep::Exhausted;
                }
                match self.date.minus_days(self.offset + 1) {
                    Some(day) => {
                        let ghost answers = self.answers@.push(None);
                        *self = Lookback {
                            date_text: self.date_text.clone(),
                            date: self.date,
                            offset: self.offset + 1,
                            answers: Ghost(answers),
                            clock: self.clock,
                        };
                        LookbackStep::Check(day)
                    },
                    None => LookbackStep::Exhausted,
                }
            },
        }
    }

    /// The failure reported when the window holds no rate.
    pub fn no_data_error(&self) -> (e: RateError)
        ensures
            e matches RateError::NoData { date } && date@ == self.spec_date_text(),
    {
        RateError::NoData { date: self.date_text.clone() }
    }
}

} // verus!
