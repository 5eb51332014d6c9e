use market_data::calendar::{
    civil_from_days, days_from_civil, dte, is_dte_representable, parse_ymd, push_ymd,
};
use market_data::clock::{now_millis, now_secs, to_millis, to_secs};
use market_data::duration::Duration;

#[test]
fn civil_date_roundtrips_and_matches_known_epochs() {
    // Anchor days: 1970-01-01 = 0, 2000-01-01 = 10957, 2021-01-01 = 18628.
    assert_eq!(days_from_civil(1970, 1, 1), 0);
    assert_eq!(days_from_civil(2000, 1, 1), 10_957);
    assert_eq!(days_from_civil(2021, 1, 1), 18_628);
    assert_eq!(civil_from_days(0), (1970, 1, 1));
    assert_eq!(civil_from_days(18_628), (2021, 1, 1));
    // Round-trip a spread of dates.
    for z in [-1, 1, 12_000, 20_000, 25_000] {
        let (y, m, d) = civil_from_days(z);
        assert_eq!(days_from_civil(y, m, d), z);
    }
}

#[test]
fn dte_measures_calendar_distance() {
    let today = days_from_civil(2024, 3, 1);
    assert_eq!(dte("2024-03-01", today), Some(0));
    assert_eq!(dte("2024-03-31", today), Some(30));
    assert_eq!(parse_ymd("2024-13"), None); // malformed
    assert_eq!(dte("not-a-date", today), None);
}

#[test]
fn every_day_around_the_leap_rules_has_the_next_number() {
    for start in [-800_000, -719_600, -141_500, -1000, 10_900, 47_400, 146_000] {
        let mut last = civil_from_days(start);
        for z in start + 1..start + 1000 {
            let date = civil_from_days(z);
            assert!(date > last);
            assert_eq!(days_from_civil(date.0, date.1, date.2), z);
            last = date;
        }
    }
    assert_eq!(days_from_civil(2000, 3, 1) - days_from_civil(2000, 2, 28), 2);
    assert_eq!(days_from_civil(1900, 3, 1) - days_from_civil(1900, 2, 28), 1);
    assert_eq!(civil_from_days(-1), (1969, 12, 31));
    assert_eq!(days_from_civil(0, 3, 1), -719_468);
}

#[test]
fn months_beyond_the_year_follow_the_same_rule() {
    assert_eq!(days_from_civil(2024, 13, 1), days_from_civil(2024, 12, 1) + 31);
    assert_eq!(days_from_civil(2024, 0, 1), days_from_civil(2023, 3, 1) + 275);
}

#[test]
fn dates_are_read_field_by_field() {
    assert_eq!(parse_ymd("2024-03-31"), Some((2024, 3, 31)));
    assert_eq!(parse_ymd("2024-3-1"), Some((2024, 3, 1)));
    assert_eq!(parse_ymd("+2024-+3-1"), Some((2024, 3, 1)));
    assert_eq!(parse_ymd("2024-03-31-99"), Some((2024, 3, 31)));
    assert_eq!(parse_ymd("-2024-03-31"), None);
    assert_eq!(parse_ymd("2024--31"), None);
    assert_eq!(parse_ymd("2024-03-"), None);
    assert_eq!(parse_ymd("2024-03- 1"), None);
    assert_eq!(parse_ymd("2024-0x-01"), None);
    assert_eq!(parse_ymd("9223372036854775807-1-1"), Some((i64::MAX, 1, 1)));
    assert_eq!(parse_ymd("9223372036854775808-1-1"), None);
    assert_eq!(parse_ymd(""), None);
}

#[test]
fn written_dates_read_back() {
    for (date, text) in [
        ((2024, 3, 31), "2024-03-31"),
        ((7, 12, 1), "0007-12-01"),
        ((12024, 1, 10), "12024-01-10"),
        ((-5, 1, 10), "-005-01-10"),
    ] {
        let mut out = String::from("on ");
        push_ymd(&mut out, date.0, date.1, date.2);
        assert_eq!(out, format!("on {text}"));
        if date.0 >= 0 {
            assert_eq!(parse_ymd(text), Some(date));
        }
    }
}

#[test]
fn far_expirations_are_told_apart() {
    assert!(is_dte_representable("2024-03-31", 0));
    assert!(is_dte_representable("not-a-date", 0));
    assert!(!is_dte_representable("9223372036854775807-01-01", 0));
    assert!(is_dte_representable("25252734927768524-01-01", 0));
    assert!(!is_dte_representable("25252734927768524-01-01", -209));
}

#[test]
fn clock_readings_become_unix_times() {
    let reading = Some(Duration::new(1_700_000_000, 123_456_789));
    assert_eq!(to_secs(reading), 1_700_000_000);
    assert_eq!(to_millis(reading), 1_700_000_000_123);
    assert_eq!(to_secs(None), 0);
    assert_eq!(to_millis(None), 0);
    assert_eq!(to_secs(Some(Duration::from_secs(u64::MAX))), -1);
}

#[test]
fn the_clock_ticks_in_both_units() {
    let before = std::time::SystemTime::now()
        .duration_since(std::time::UNIX_EPOCH)
        .unwrap();
    let (secs, millis) = (now_secs(), now_millis());
    assert!(secs >= before.as_secs() as i64);
    assert!(secs < before.as_secs() as i64 + 20);
    assert!(millis >= before.as_millis() as i64);
    assert!(millis - secs * 1000 < 20_000);
}
