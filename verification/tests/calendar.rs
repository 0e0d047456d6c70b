use exchange_rates::calendar::{Day, MAX_DAY_NUMBER, MIN_DAY_NUMBER};
use exchange_rates::text::append_i32;

#[test]
fn day_numbers_follow_chrono() {
    let d = Day::from_ymd(1, 1, 1).unwrap();
    assert_eq!(d.number(), 1);
    let d = Day::from_ymd(2025, 1, 1).unwrap();
    assert_eq!(d.number(), 739252);
    assert_eq!(d.year(), 2025);
    assert_eq!(d.text(), "2025-01-01");
}

#[test]
fn invalid_calendar_dates_are_refused() {
    assert!(Day::from_ymd(2023, 2, 29).is_none());
    assert!(Day::from_ymd(2024, 2, 29).is_some());
    assert!(Day::from_ymd(2025, 13, 1).is_none());
    assert!(Day::from_ymd(2025, 4, 31).is_none());
    assert!(Day::from_ymd(400000, 1, 1).is_none());
}

#[test]
fn day_number_range_is_chronos() {
    assert!(Day::from_number(MIN_DAY_NUMBER).is_some());
    assert!(Day::from_number(MAX_DAY_NUMBER).is_some());
    assert!(Day::from_number(MIN_DAY_NUMBER - 1).is_none());
    assert!(Day::from_number(MAX_DAY_NUMBER + 1).is_none());
    assert_eq!(Day::from_number(MIN_DAY_NUMBER).unwrap().text(), "-262143-01-01");
    assert_eq!(Day::from_number(MAX_DAY_NUMBER).unwrap().text(), "+262142-12-31");
}

#[test]
fn minus_days_steps_back_over_month_and_year() {
    let d = Day::from_ymd(2025, 1, 1).unwrap();
    assert_eq!(d.minus_days(1).unwrap().text(), "2024-12-31");
    assert_eq!(d.minus_days(0).unwrap(), d);
    assert_eq!(d.minus_days(1).unwrap().year(), 2024);
    let min = Day::from_number(MIN_DAY_NUMBER).unwrap();
    assert!(min.minus_days(1).is_none());
}

#[test]
fn iso_dates_parse_and_bad_ones_are_refused() {
    let d = Day::parse_iso("2025-01-15").unwrap();
    assert_eq!(d, Day::from_ymd(2025, 1, 15).unwrap());
    assert!(Day::parse_iso("2025-02-30").is_err());
    assert!(Day::parse_iso("15/01/2025").is_err());
    assert!(!Day::parse_iso("yesterday").unwrap_err().is_empty());
}

#[test]
fn integers_render_as_display_does() {
    for n in [0, 7, 10, 2025, -5, -262143, i32::MAX, i32::MIN] {
        let mut s = String::from("y=");
        append_i32(&mut s, n);
        assert_eq!(s, format!("y={n}"));
    }
}

#[test]
fn calendar_range_ends_where_chrono_ends() {
    assert!(Day::from_ymd(262142, 12, 31).is_some());
    assert!(Day::from_ymd(262143, 1, 1).is_none());
    assert!(Day::from_ymd(-262143, 1, 1).is_some());
    assert!(Day::from_ymd(-262144, 12, 31).is_none());
    assert!(Day::from_ymd(0, 2, 29).is_some());
    assert!(Day::from_ymd(1900, 2, 29).is_none());
    assert!(Day::from_ymd(2000, 2, 29).is_some());
    assert!(Day::from_ymd(2025, 0, 1).is_none());
    assert!(Day::from_ymd(2025, 1, 0).is_none());
    assert_eq!(Day::from_ymd(262142, 12, 31).unwrap().number(), MAX_DAY_NUMBER);
    assert_eq!(Day::from_ymd(-262143, 1, 1).unwrap().number(), MIN_DAY_NUMBER);
}

#[test]
fn a_day_lies_within_its_year() {
    for n in [MIN_DAY_NUMBER, -1, 0, 1, 739251, 739252, 739616, MAX_DAY_NUMBER] {
        let d = Day::from_number(n).unwrap();
        let y = d.year();
        assert!(Day::from_ymd(y, 1, 1).unwrap().number() <= n);
        assert!(n <= Day::from_ymd(y, 12, 31).unwrap().number());
    }
}

fn gregorian_day_number(y: i64, m: i64, d: i64) -> i64 {
    let before = [0, 31, 59, 90, 120, 151, 181, 212, 243, 273, 304, 334][(m - 1) as usize];
    let leap = y.rem_euclid(4) == 0 && (y.rem_euclid(100) != 0 || y.rem_euclid(400) == 0);
    let z = y - 1;
    365 * z + z.div_euclid(4) - z.div_euclid(100) + z.div_euclid(400)
        + before
        + if m > 2 && leap { 1 } else { 0 }
        + d
}

#[test]
fn day_numbers_count_gregorian_days() {
    for y in [-262143, -401, -400, -1, 0, 1, 4, 100, 1600, 1900, 1970, 2000, 2023, 2024, 2025, 262142] {
        for (m, d) in [(1, 1), (2, 28), (3, 1), (6, 15), (12, 31)] {
            let day = Day::from_ymd(y, m, d).unwrap();
            assert_eq!(day.number() as i64, gregorian_day_number(y as i64, m as i64, d as i64));
        }
    }
}
