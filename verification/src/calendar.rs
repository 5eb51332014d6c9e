//! Civil dates of the proleptic Gregorian calendar, counted in days since 1970-01-01.
use crate::integer::{fits_i64, trunc_div};
use crate::text::{
    chars_of, law_numbers_read_back, law_separator_cuts, law_text_without_separator_is_one_piece,
    padded_decimal, pieces, push_padded, read_signed, signed_value, split,
};
use vstd::prelude::*;

verus! {

/// Whether `y` is a leap year.
pub open spec fn is_leap(y: int) -> bool {
    y % 4 == 0 && (y % 100 != 0 || y % 400 == 0)
}

/// The number of days in month `m` of year `y`.
pub open spec fn days_in_month(y: int, m: int) -> int {
    if m == 2 {
        if is_leap(y) {
            29
        } else {
            28
        }
    } else if m == 4 || m == 6 || m == 9 || m == 11 {
        30
    } else {
        31
    }
}

/// Whether year `y`, month `m`, day `d` is a date of the calendar.
pub open spec fn is_date(y: int, m: int, d: int) -> bool {
    1 <= m <= 12 && 1 <= d <= days_in_month(y, m)
}

/// The date after year `y`, month `m`, day `d`.
pub open spec fn next_date(y: int, m: int, d: int) -> (int, int, int) {
    if d < days_in_month(y, m) {
        (y, m, d + 1)
    } else if m < 12 {
        (y, m + 1, 1)
    } else {
        (y + 1, 1, 1)
    }
}

/// The days before March 1 of year `y`, counted from March 1 of year 0.
pub open spec fn days_to_march(y: int) -> int {
    365 * y + y / 4 - y / 100 + y / 400
}

/// The days from March 1 to the first of month `m`, January and February taken as the months
/// after December. Any other `m` is carried through the same rule.
pub open spec fn days_to_month(m: int) -> int {
    trunc_div(153 * (if m > 2 { m - 3 } else { m + 9 }) + 2, 5)
}

/// The day number of year `y`, month `m`, day `d`; day 0 is 1970-01-01.
pub open spec fn day_number(y: int, m: int, d: int) -> int {
    days_to_march(if m <= 2 { y - 1 } else { y }) + days_to_month(m) + d - 1 - 719_468
}

fn day_number_wide(y: i64, m: i64, d: i64) -> (days: i128)
    ensures
        days == day_number(y as int, m as int, d as int),
{
    let y: i128 = if m <= 2 { y as i128 - 1 } else { y as i128 };
    let m: i128 = m as i128;
    let era: i128 = (if y >= 0 { y } else { y - 399 }) / 400;
    let yoe: i128 = y - era * 400;
    assert(era == y as int / 400);
    proof {
        lemma_year_in_era(era as int, yoe as int);
    }
    let doy: i128 = (153 * (if m > 2 { m - 3 } else { m + 9 }) + 2) / 5 + d as i128 - 1;
    let doe: i128 = yoe * 365 + yoe / 4 - yoe / 100 + doy;
    era * 146_097 + doe - 719_468
}

/// Days since 1970-01-01 of the date with year `y`, month `m` and day `d`.
pub fn days_from_civil(y: i64, m: i64, d: i64) -> (days: i64)
    requires
        fits_i64(day_number(y as int, m as int, d as int)),
    ensures
        days == day_number(y as int, m as int, d as int),
{
    day_number_wide(y, m, d) as i64
}

/// The year within a cycle of 400 years, counted from March, that holds day `doe` of the cycle.
proof fn lemma_year_of_era(doe: int) -> (yoe: int)
    requires
        0 <= doe < 146_097,
    ensures
        yoe == (doe - doe / 1460 + doe / 36_524 - doe / 146_096) / 365,
        0 <= yoe < 400,
        0 <= doe - (365 * yoe + yoe / 4 - yoe / 100) <= 365,
        doe - (365 * yoe + yoe / 4 - yoe / 100) == 365 ==> is_leap(yoe + 1),
{
    let c = doe / 36_524;
    if c == 4 {
        assert(doe == 146_096);
        399
    } else {
        let r = doe - 36_524 * c;
        assert(0 <= c <= 3 && 0 <= r < 36_524);
        let k = r / 1461;
        let s = r % 1461;
        assert(0 <= k <= 24 && r == 1461 * k + s && 0 <= s <= 1460);
        assert(doe / 146_096 == 0);
        let b: int = if k + s + 24 * c >= 1460 { 1 } else { 0 };
        assert(doe / 1460 == 25 * c + k + b);
        let q: int = if s == 1460 { 3 } else { s / 365 };
        assert((s - b) / 365 == q);
        let yoe = 100 * c + 4 * k + q;
        assert((doe - doe / 1460 + doe / 36_524 - doe / 146_096) == 36_500 * c + 1460 * k + s - b);
        assert(yoe / 4 == 25 * c + k);
        assert(yoe / 100 == c);
        yoe
    }
}

/// The month, counted from March as 0, and the day of it that hold day `doy` of such a year.
proof fn lemma_month_of_year(doy: int)
    requires
        0 <= doy <= 365,
    ensures
        ({
            let mp = (5 * doy + 2) / 153;
            let d = doy - (153 * mp + 2) / 5 + 1;
            &&& 0 <= mp <= 11
            &&& 1 <= d <= 31
            &&& mp == 1 || mp == 3 || mp == 6 || mp == 8 ==> d <= 30
            &&& mp == 11 ==> d <= 29
            &&& mp == 11 && d == 29 ==> doy == 365
        }),
{
}

/// Year `yoe` of the cycle `era` is year `era * 400 + yoe`.
proof fn lemma_year_in_era(era: int, yoe: int)
    requires
        0 <= yoe < 400,
    ensures
        days_to_march(era * 400 + yoe) == era * 146_097 + 365 * yoe + yoe / 4 - yoe / 100,
        is_leap(era * 400 + yoe + 1) == is_leap(yoe + 1),
{
    let y = era * 400 + yoe;
    assert(y / 4 == era * 100 + yoe / 4);
    assert(y / 100 == era * 4 + yoe / 100);
    assert(y / 400 == era);
}

/// The date whose day number is `z`.
pub open spec fn date_of_day(z: int) -> (int, int, int) {
    choose|date: (int, int, int)|
        is_date(date.0, date.1, date.2) && #[trigger] day_number(date.0, date.1, date.2) == z
}

/// The date whose day number is `z`, as `(year, month, day)`.
pub fn civil_from_days(z: i64) -> (date: (i64, i64, i64))
    requires
        z <= i64::MAX - 719_468,
    ensures
        is_date(date.0 as int, date.1 as int, date.2 as int),
        day_number(date.0 as int, date.1 as int, date.2 as int) == z,
        (date.0 as int, date.1 as int, date.2 as int) == date_of_day(z as int),
{
    proof {
        law_every_day_has_a_date(z as int);
    }
    let ghost day = z as int;
    let z: i64 = z + 719_468;
    let era: i64 = (if z >= 0 { z } else { z - 146_096 }) / 146_097;
    let doe: i64 = z - era * 146_097;
    assert(era == z as int / 146_097);
    assert(0 <= doe < 146_097);
    let ghost year = lemma_year_of_era(doe as int);
    let yoe: i64 = (doe - doe / 1460 + doe / 36_524 - doe / 146_096) / 365;
    assert(yoe == year);
    let y: i64 = yoe + era * 400;
    let doy: i64 = doe - (365 * yoe + yoe / 4 - yoe / 100);
    let mp: i64 = (5 * doy + 2) / 153;
    let d: i64 = doy - (153 * mp + 2) / 5 + 1;
    let m: i64 = if mp < 10 { mp + 3 } else { mp - 9 };
    proof {
        lemma_month_of_year(doy as int);
        lemma_year_in_era(era as int, yoe as int);
    }
    let date: (i64, i64, i64) = (if m <= 2 { y + 1 } else { y }, m, d);
    proof {
        law_day_number_identifies_date(
            (date.0 as int, date.1 as int, date.2 as int),
            date_of_day(day),
        );
    }
    date
}

// --- Laws of the day count ---

/// Day 0 is 1970-01-01, and the date after any date has the next day number: `day_number` counts
/// the days of the calendar one by one.
pub proof fn law_day_number_counts_days(y: int, m: int, d: int)
    requires
        is_date(y, m, d),
    ensures
        day_number(1970, 1, 1) == 0,
        ({
            let (y2, m2, d2) = next_date(y, m, d);
            &&& is_date(y2, m2, d2)
            &&& day_number(y2, m2, d2) == day_number(y, m, d) + 1
        }),
{
    lemma_year_steps(y);
    lemma_year_steps(y - 1);
}

proof fn lemma_leap_steps(y: int)
    ensures
        (y + 1) / 4 == y / 4 + (if (y + 1) % 4 == 0 {
            1int
        } else {
            0int
        }),
        (y + 1) / 100 == y / 100 + (if (y + 1) % 100 == 0 {
            1int
        } else {
            0int
        }),
        (y + 1) / 400 == y / 400 + (if (y + 1) % 400 == 0 {
            1int
        } else {
            0int
        }),
        (y + 1) % 400 == 0 ==> (y + 1) % 100 == 0,
        (y + 1) % 100 == 0 ==> (y + 1) % 4 == 0,
{
}

/// Between one March 1 and the next lie 365 days, 366 when they hold a February 29.
proof fn lemma_year_steps(y: int)
    ensures
        days_to_march(y + 1) == days_to_march(y) + (if is_leap(y + 1) {
            366int
        } else {
            365int
        }),
{
    lemma_leap_steps(y);
}

/// Whether the first date comes before the second.
pub open spec fn is_earlier(first: (int, int, int), second: (int, int, int)) -> bool {
    ||| first.0 < second.0
    ||| first.0 == second.0 && first.1 < second.1
    ||| first.0 == second.0 && first.1 == second.1 && first.2 < second.2
}

proof fn lemma_within_year(y: int, m: int, d: int)
    requires
        is_date(y, m, d),
    ensures
        day_number(y, 1, 1) <= day_number(y, m, d) < day_number(y + 1, 1, 1),
{
    lemma_year_steps(y - 1);
}

proof fn lemma_years_grow(y1: int, y2: int)
    requires
        y1 <= y2,
    ensures
        day_number(y1, 1, 1) <= day_number(y2, 1, 1),
    decreases y2 - y1,
{
    if y1 < y2 {
        lemma_years_grow(y1, y2 - 1);
        lemma_year_steps(y2 - 2);
    }
}

/// Earlier dates have smaller day numbers.
pub proof fn law_day_number_orders_dates(first: (int, int, int), second: (int, int, int))
    requires
        is_date(first.0, first.1, first.2),
        is_date(second.0, second.1, second.2),
        is_earlier(first, second),
    ensures
        day_number(first.0, first.1, first.2) < day_number(second.0, second.1, second.2),
{
    lemma_within_year(first.0, first.1, first.2);
    lemma_within_year(second.0, second.1, second.2);
    if first.0 < second.0 {
        lemma_years_grow(first.0 + 1, second.0);
    } else {
        lemma_year_steps(first.0 - 1);
    }
}

/// A date is the only date with its day number.
pub proof fn law_day_number_identifies_date(first: (int, int, int), second: (int, int, int))
    requires
        is_date(first.0, first.1, first.2),
        is_date(second.0, second.1, second.2),
        day_number(first.0, first.1, first.2) == day_number(second.0, second.1, second.2),
    ensures
        first == second,
{
    if is_earlier(first, second) {
        law_day_number_orders_dates(first, second);
    } else if is_earlier(second, first) {
        law_day_number_orders_dates(second, first);
    }
}

/// Every day number belongs to a date, and the date leads back to the number.
pub proof fn law_every_day_has_a_date(z: int)
    ensures
        ({
            let (y, m, d) = date_of_day(z);
            is_date(y, m, d) && day_number(y, m, d) == z
        }),
{
    let day = z + 719_468;
    let era = day / 146_097;
    let doe = day % 146_097;
    let yoe = lemma_year_of_era(doe);
    let doy = doe - (365 * yoe + yoe / 4 - yoe / 100);
    lemma_month_of_year(doy);
    lemma_year_in_era(era, yoe);
    let mp = (5 * doy + 2) / 153;
    let m = if mp < 10 { mp + 3 } else { mp - 9 };
    let y = era * 400 + yoe;
    let date = (if m <= 2 { y + 1 } else { y }, m, doy - (153 * mp + 2) / 5 + 1);
    assert(is_date(date.0, date.1, date.2) && day_number(date.0, date.1, date.2) == z);
}

/// A date's day number leads back to the date.
pub proof fn law_every_date_has_a_day(y: int, m: int, d: int)
    requires
        is_date(y, m, d),
    ensures
        date_of_day(day_number(y, m, d)) == (y, m, d),
{
    let z = day_number(y, m, d);
    law_every_day_has_a_date(z);
    law_day_number_identifies_date((y, m, d), date_of_day(z));
}

// --- Dates as text ---

/// Read `YYYY-MM-DD`: the first three pieces between dashes, each a number.
pub open spec fn ymd_value(s: Seq<char>) -> Option<(i64, i64, i64)> {
    let fields = pieces(s, '-');
    if fields.len() < 3 {
        None
    } else {
        match (
            signed_value(fields[0]),
            signed_value(fields[1]),
            signed_value(fields[2]),
        ) {
            (Some(y), Some(m), Some(d)) => Some((y, m, d)),
            _ => None,
        }
    }
}

/// Parse `YYYY-MM-DD` into `(year, month, day)`; `None` on any malformed field.
pub fn parse_ymd(s: &str) -> (date: Option<(i64, i64, i64)>)
    ensures
        date == ymd_value(s@),
{
    let fields: Vec<Vec<char>> = split(&chars_of(s), '-');
    let ghost texts = pieces(s@, '-');
    assert(fields@.len() == texts.len());
    if fields.len() < 3 {
        return None;
    }
    assert(fields[0]@ == texts[0] && fields[1]@ == texts[1] && fields[2]@ == texts[2]);
    match (read_signed(&fields[0]), read_signed(&fields[1]), read_signed(&fields[2])) {
        (Some(y), Some(m), Some(d)) => Some((y, m, d)),
        _ => None,
    }
}

/// The day number of the date written in `s`, if it is one.
pub open spec fn ymd_day(s: Seq<char>) -> Option<int> {
    match ymd_value(s) {
        Some((y, m, d)) => Some(day_number(y as int, m as int, d as int)),
        None => None,
    }
}

/// Whether the date in `s`, if it is one, and its distance from day `today` fit 64 bits.
pub open spec fn dte_fits(s: Seq<char>, today: int) -> bool {
    ymd_day(s) matches Some(day) ==> fits_i64(day) && fits_i64(day - today)
}

/// The date written as `YYYY-MM-DD`.
pub open spec fn ymd_text(y: int, m: int, d: int) -> Seq<char> {
    padded_decimal(y, 4).push('-') + (padded_decimal(m, 2).push('-') + padded_decimal(d, 2))
}

/// Append a date as `YYYY-MM-DD`.
pub fn push_ymd(out: &mut String, y: i64, m: i64, d: i64)
    ensures
        final(out)@ == old(out)@ + ymd_text(y as int, m as int, d as int),
{
    proof {
        reveal_strlit("-");
    }
    push_padded(out, y, 4);
    out.append("-");
    push_padded(out, m, 2);
    out.append("-");
    push_padded(out, d, 2);
    assert(out@ =~= old(out)@ + ymd_text(y as int, m as int, d as int));
}

/// A written date reads back as itself, from year 0 on; the text of an earlier year starts with a
/// dash.
pub proof fn law_dates_read_back(y: i64, m: i64, d: i64)
    requires
        y >= 0,
        m >= 0,
        d >= 0,
    ensures
        ymd_value(ymd_text(y as int, m as int, d as int)) == Some((y, m, d)),
{
    let ty = padded_decimal(y as int, 4);
    let tm = padded_decimal(m as int, 2);
    let td = padded_decimal(d as int, 2);
    law_numbers_read_back(y as nat, 4);
    law_numbers_read_back(m as nat, 2);
    law_numbers_read_back(d as nat, 2);
    law_text_without_separator_is_one_piece(ty, '-');
    law_text_without_separator_is_one_piece(tm, '-');
    law_text_without_separator_is_one_piece(td, '-');
    law_separator_cuts(tm, td, '-');
    law_separator_cuts(ty, tm.push('-') + td, '-');
    assert(pieces(ymd_text(y as int, m as int, d as int), '-') =~= seq![ty, tm, td]);
}

/// The written date of a day reads back as that day, from year 0 on.
pub proof fn law_days_read_back(day: int)
    requires
        0 <= date_of_day(day).0 <= i64::MAX,
    ensures
        ({
            let (y, m, d) = date_of_day(day);
            ymd_day(ymd_text(y, m, d)) == Some(day)
        }),
{
    law_every_day_has_a_date(day);
    let (y, m, d) = date_of_day(day);
    law_dates_read_back(y as i64, m as i64, d as i64);
}

/// Whether the date in `expiration`, if it is one, and its distance from day `today_days` fit 64
/// bits, as [`dte`] asks.
pub fn is_dte_representable(expiration: &str, today_days: i64) -> (r: bool)
    ensures
        r == dte_fits(expiration@, today_days as int),
{
    match parse_ymd(expiration) {
        Some((y, m, d)) => {
            let day: i128 = day_number_wide(y, m, d);
            let left: i128 = day - today_days as i128;
            let (low, high): (i128, i128) = (i64::MIN as i128, i64::MAX as i128);
            low <= day && day <= high && low <= left && left <= high
        },
        None => true,
    }
}

/// Days to expiry of a `YYYY-MM-DD` expiration, seen from day `today_days`.
pub fn dte(expiration: &str, today_days: i64) -> (days: Option<i64>)
    requires
        dte_fits(expiration@, today_days as int),
    ensures
        match ymd_day(expiration@) {
            Some(day) => days == Some((day - today_days) as i64),
            None => days is None,
        },
{
    match parse_ymd(expiration) {
        Some((y, m, d)) => Some(days_from_civil(y, m, d) - today_days),
        None => None,
    }
}

// --- Laws of the calendar in numbers ---

/// The day count goes by the calendar: day 0 is 1970-01-01, each day counts one, and each month
/// has its days, February one more in a year that 4 divides, unless 100 does and 400 does not.
pub proof fn law_months_have_their_days(y: int, m: int, d: int)
    ensures
        day_number(1970, 1, 1) == 0,
        day_number(y, m, d + 1) == day_number(y, m, d) + 1,
        m == 1 || m == 3 || m == 5 || m == 7 || m == 8 || m == 10 ==> day_number(y, m + 1, d)
            == day_number(y, m, d) + 31,
        m == 4 || m == 6 || m == 9 || m == 11 ==> day_number(y, m + 1, d) == day_number(y, m, d)
            + 30,
        m == 2 && y % 4 == 0 && (y % 100 != 0 || y % 400 == 0) ==> day_number(y, m + 1, d)
            == day_number(y, m, d) + 29,
        m == 2 && !(y % 4 == 0 && (y % 100 != 0 || y % 400 == 0)) ==> day_number(y, m + 1, d)
            == day_number(y, m, d) + 28,
        m == 12 ==> day_number(y + 1, 1, d) == day_number(y, m, d) + 31,
{
    lemma_year_steps(y - 1);
}

/// A month that no year has is counted from March as the months of a year are: the days before it
/// are 153 for each five months, to the nearest whole day toward zero.
pub proof fn law_other_months_follow_the_rule(y: int, m: int)
    ensures
        ({
            let k = if m > 2 {
                m - 3
            } else {
                m + 9
            };
            let march = day_number(
                if m > 2 {
                    y
                } else {
                    y - 1
                },
                3,
                1,
            );
            let days = day_number(y, m, 1) - march;
            &&& 153 * k + 2 >= 0 ==> 5 * days <= 153 * k + 2 < 5 * days + 5
            &&& 153 * k + 2 < 0 ==> 5 * days - 5 < 153 * k + 2 <= 5 * days
        }),
{
}

/// The dates of the calendar are the days from 1 on of its twelve months.
pub proof fn law_dates_of_the_calendar(y: int, m: int, d: int)
    ensures
        is_date(y, m, d) <==> {
            &&& 1 <= m <= 12
            &&& 1 <= d
            &&& d <= day_number(
                if m < 12 {
                    y
                } else {
                    y + 1
                },
                if m < 12 {
                    m + 1
                } else {
                    1
                },
                1,
            ) - day_number(y, m, 1)
        },
{
    law_months_have_their_days(y, m, 1);
}

/// A date is read from the numbers before the first dash, between it and the second, and after it
/// up to a third if there is one.
pub proof fn law_date_is_its_first_three_fields(
    y: Seq<char>,
    m: Seq<char>,
    d: Seq<char>,
    rest: Seq<char>,
)
    requires
        !y.contains('-'),
        !m.contains('-'),
        !d.contains('-'),
    ensures
        ymd_value(y + seq!['-'] + m + seq!['-'] + d) == (match (
            signed_value(y),
            signed_value(m),
            signed_value(d),
        ) {
            (Some(y), Some(m), Some(d)) => Some((y, m, d)),
            _ => None,
        }),
        ymd_value(y + seq!['-'] + m + seq!['-'] + d + seq!['-'] + rest) == ymd_value(
            y + seq!['-'] + m + seq!['-'] + d,
        ),
{
    law_text_without_separator_is_one_piece(y, '-');
    law_text_without_separator_is_one_piece(m, '-');
    law_text_without_separator_is_one_piece(d, '-');
    law_separator_cuts(m, d, '-');
    law_separator_cuts(y, m.push('-') + d, '-');
    assert(y + seq!['-'] + m + seq!['-'] + d =~= y.push('-') + (m.push('-') + d));
    assert(pieces(y + seq!['-'] + m + seq!['-'] + d, '-') =~= seq![y, m, d]);
    let tail = d.push('-') + rest;
    law_separator_cuts(d, rest, '-');
    law_separator_cuts(m, tail, '-');
    law_separator_cuts(y, m.push('-') + tail, '-');
    assert(y + seq!['-'] + m + seq!['-'] + d + seq!['-'] + rest =~= y.push('-') + (m.push('-')
        + tail));
    assert(pieces(y + seq!['-'] + m + seq!['-'] + d + seq!['-'] + rest, '-') =~= seq![y, m, d]
        + pieces(rest, '-'));
}

/// Text with fewer than two dashes is no date.
pub proof fn law_two_fields_are_no_date(first: Seq<char>, second: Seq<char>)
    requires
        !first.contains('-'),
        !second.contains('-'),
    ensures
        ymd_value(first) is None,
        ymd_value(first + seq!['-'] + second) is None,
{
    law_text_without_separator_is_one_piece(first, '-');
    law_text_without_separator_is_one_piece(second, '-');
    law_separator_cuts(first, second, '-');
    assert(first + seq!['-'] + second =~= first.push('-') + second);
}

/// The day of a text is that of the date it is read as, and there is one exactly when it is read.
pub proof fn law_day_is_that_of_the_date(s: Seq<char>)
    ensures
        match ymd_value(s) {
            Some((y, m, d)) => ymd_day(s) == Some(day_number(y as int, m as int, d as int)),
            None => ymd_day(s) is None,
        },
{
}

/// Days to expiry are out of reach only where the day or the difference is beyond 64 bits.
pub proof fn law_reach_of_day_counts(s: Seq<char>, today: int)
    ensures
        !dte_fits(s, today) <==> (ymd_day(s) matches Some(day) && !(-0x8000_0000_0000_0000 <= day
            <= 0x7fff_ffff_ffff_ffff && -0x8000_0000_0000_0000 <= day - today
            <= 0x7fff_ffff_ffff_ffff)),
{
}

/// A date is written as its year in at least four characters, its month and its day in at least
/// two, a dash between them.
pub proof fn law_date_is_written_in_three_fields(y: int, m: int, d: int)
    ensures
        ymd_text(y, m, d) == padded_decimal(y, 4) + seq!['-'] + padded_decimal(m, 2) + seq!['-']
            + padded_decimal(d, 2),
{
    assert(ymd_text(y, m, d) =~= padded_decimal(y, 4) + seq!['-'] + padded_decimal(m, 2)
        + seq!['-'] + padded_decimal(d, 2));
}

} // verus!
