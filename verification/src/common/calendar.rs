//! Calendar arithmetic and date-time text, both from `chrono`.
use crate::common::text::{decimal, zero_padded};
use chrono::Datelike;
use vstd::prelude::*;

verus! {

/// Whether `y` is a leap year of the proleptic Gregorian calendar.
pub open spec fn is_leap_year(y: int) -> bool {
    (y % 4 == 0 && y % 100 != 0) || y % 400 == 0
}

/// The number of days of month `m` (1 to 12) in year `y`.
pub open spec fn days_in_month(y: int, m: int) -> int {
    if m == 2 {
        if is_leap_year(y) { 29 } else { 28 }
    } else if m == 4 || m == 6 || m == 9 || m == 11 {
        30
    } else {
        31
    }
}

/// `(y, m, d)` is a date that `chrono::NaiveDate` accepts from 1900 on.
pub open spec fn is_valid_date(y: int, m: int, d: int) -> bool {
    1900 <= y <= 262142 && 1 <= m <= 12 && 1 <= d <= days_in_month(y, m)
}

/// The number of days from 1970-01-01 to the valid date `(y, m, d)` of the
/// proleptic Gregorian calendar (negative before it).
pub open spec fn day_number(y: int, m: int, d: int) -> int {
    let yy = if m <= 2 { y - 1 } else { y };
    let era = yy / 400;
    let yoe = yy - era * 400;
    let mp = if m > 2 { m - 3 } else { m + 9 };
    let doy = (153 * mp + 2) / 5 + d - 1;
    let doe = yoe * 365 + yoe / 4 - yoe / 100 + doy;
    era * 146097 + doe - 719468
}

/// The date that `chrono` reaches by adding `offset` days to `(y, m, d)`.
pub uninterp spec fn date_after(y: int, m: int, d: int, offset: int) -> (int, int, int);

/// Adds `offset` days to a date with `chrono` (`NaiveDate + TimeDelta::days`)
/// and reads the date back with `Datelike`. The contract names the result
/// `date_after` of the arguments and claims what chrono documents of it: a
/// valid date lying `offset` days after the start.
/// `requires` keeps the result within `NaiveDate`'s range (up to
/// 262142-12-31), beyond which chrono panics.
#[verifier::external_body]
pub(crate) fn date_plus_days(y: i32, m: u32, d: u32, offset: i64) -> (r: (i32, u32, u32))
    requires
        is_valid_date(y as int, m as int, d as int),
        0 <= offset,
        day_number(y as int, m as int, d as int) + offset <= day_number(262142, 12, 31),
    ensures
        (r.0 as int, r.1 as int, r.2 as int) == date_after(y as int, m as int, d as int, offset as int),
        is_valid_date(r.0 as int, r.1 as int, r.2 as int),
        day_number(r.0 as int, r.1 as int, r.2 as int) == day_number(y as int, m as int, d as int) + offset,
{
    let start = chrono::NaiveDate::from_ymd_opt(y, m, d).unwrap();
    let date = start + chrono::TimeDelta::days(offset);
    (date.year(), date.month(), date.day())
}

/// The `%Y` field of chrono's formatting for a year from 1900 on: four
/// digits up to 9999, a `+` and the digits above.
pub open spec fn year_text(y: int) -> Seq<char> {
    if y <= 9999 {
        zero_padded(y as nat, 4)
    } else {
        seq!['+'] + decimal(y as nat)
    }
}

/// The text `YYYY-MM-DD hh:mm:ss` of a date and time of day.
pub open spec fn date_time_text(y: int, m: int, d: int, hh: int, mm: int, ss: int) -> Seq<char> {
    year_text(y) + seq!['-'] + zero_padded(m as nat, 2) + seq!['-'] + zero_padded(d as nat, 2)
        + seq![' '] + zero_padded(hh as nat, 2) + seq![':'] + zero_padded(mm as nat, 2)
        + seq![':'] + zero_padded(ss as nat, 2)
}

/// Builds a `chrono::NaiveDateTime` from the parts and formats it with
/// `"%Y-%m-%d %H:%M:%S"`. The contract claims the text that chrono's
/// formatting code writes for these fields: a zero-padded four-digit year
/// (a `+` and the digits above 9999) and zero-padded two-digit others.
/// `requires` keeps the parts to a valid date and time, which `chrono`'s
/// constructors accept.
#[verifier::external_body]
pub(crate) fn format_date_time(y: i32, m: u32, d: u32, hh: u32, mm: u32, ss: u32) -> (s: String)
    requires
        is_valid_date(y as int, m as int, d as int),
        hh < 24,
        mm < 60,
        ss < 60,
    ensures
        s@ == date_time_text(y as int, m as int, d as int, hh as int, mm as int, ss as int),
{
    let date = chrono::NaiveDate::from_ymd_opt(y, m, d).unwrap();
    let time = chrono::NaiveTime::from_hms_opt(hh, mm, ss).unwrap();
    date.and_time(time).format("%Y-%m-%d %H:%M:%S").to_string()
}

} // verus!
