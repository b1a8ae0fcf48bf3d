//! Timestamp parsing for the transcript's fixed `YYYY/MM/DD HH:MM:SS` local
//! format, at a configured fixed UTC offset. Unparseable strings yield no
//! timestamp, and the reconciler then skips the dependent insert.
use vstd::prelude::*;

verus! {

/// Leap years of the proleptic Gregorian calendar.
pub open spec fn is_leap_year(y: int) -> bool {
    (y % 4 == 0 && y % 100 != 0) || y % 400 == 0
}

/// Days in the given year.
pub open spec fn days_in_year(y: int) -> int {
    if is_leap_year(y) {
        366
    } else {
        365
    }
}

/// Days in the given month of the given year; zero outside 1..=12.
pub open spec fn days_in_month(y: int, m: int) -> int {
    if m == 1 {
        31
    } else if m == 2 {
        if is_leap_year(y) {
            29
        } else {
            28
        }
    } else if m == 3 {
        31
    } else if m == 4 {
        30
    } else if m == 5 {
        31
    } else if m == 6 {
        30
    } else if m == 7 {
        31
    } else if m == 8 {
        31
    } else if m == 9 {
        30
    } else if m == 10 {
        31
    } else if m == 11 {
        30
    } else if m == 12 {
        31
    } else {
        0
    }
}

/// Days from the unix epoch to the first day of the given year; negative for
/// years before 1970.
pub open spec fn days_before_year(y: int) -> int
    decreases
            if y >= 1970 {
                y - 1970
            } else {
                1970 - y
            },
{
    if y == 1970 {
        0
    } else if y > 1970 {
        days_before_year(y - 1) + days_in_year(y - 1)
    } else {
        days_before_year(y + 1) - days_in_year(y)
    }
}

/// Days from the first of January to the first day of the given month.
pub open spec fn days_before_month(y: int, m: int) -> int
    decreases m,
{
    if m <= 1 {
        0
    } else {
        days_before_month(y, m - 1) + days_in_month(y, m - 1)
    }
}

/// Days from the unix epoch to the given civil date.
pub open spec fn days_from_epoch(y: int, m: int, d: int) -> int {
    days_before_year(y) + days_before_month(y, m) + (d - 1)
}

/// Unix timestamp of a civil datetime read at the given fixed UTC offset (the
/// local clock is ahead of UTC by `offset` seconds).
pub open spec fn civil_to_unix(
    y: int,
    m: int,
    d: int,
    h: int,
    mi: int,
    s: int,
    offset: int,
) -> int {
    days_from_epoch(y, m, d) * 86400 + h * 3600 + mi * 60 + s - offset
}

/// ASCII decimal digit.
pub open spec fn is_digit(b: u8) -> bool {
    48 <= b <= 57
}

/// Numeric value of an ASCII digit.
pub open spec fn digit_val(b: u8) -> int {
    b - 48
}

/// Two-digit field starting at `i`.
pub open spec fn two_digits(b: Seq<u8>, i: int) -> int {
    digit_val(b[i]) * 10 + digit_val(b[i + 1])
}

/// Year field of a date string.
pub open spec fn year_of(b: Seq<u8>) -> int {
    digit_val(b[0]) * 1000 + digit_val(b[1]) * 100 + digit_val(b[2]) * 10 + digit_val(b[3])
}

/// Month field of a date string.
pub open spec fn month_of(b: Seq<u8>) -> int {
    two_digits(b, 5)
}

/// Day field of a date string.
pub open spec fn day_of(b: Seq<u8>) -> int {
    two_digits(b, 8)
}

/// Hour field of a date string.
pub open spec fn hour_of(b: Seq<u8>) -> int {
    two_digits(b, 11)
}

/// Minute field of a date string.
pub open spec fn minute_of(b: Seq<u8>) -> int {
    two_digits(b, 14)
}

/// Second field of a date string.
pub open spec fn second_of(b: Seq<u8>) -> int {
    two_digits(b, 17)
}

/// The bytes spell a calendar-valid `YYYY/MM/DD HH:MM:SS` datetime: exactly
/// nineteen bytes, zero-padded decimal fields, the literal separators, a real
/// month and day (leap years included) and a real time of day.
pub open spec fn valid_datetime(b: Seq<u8>) -> bool {
    &&& b.len() == 19
    &&& is_digit(b[0]) && is_digit(b[1]) && is_digit(b[2]) && is_digit(b[3])
    &&& b[4] == 47u8
    &&& is_digit(b[5]) && is_digit(b[6])
    &&& b[7] == 47u8
    &&& is_digit(b[8]) && is_digit(b[9])
    &&& b[10] == 32u8
    &&& is_digit(b[11]) && is_digit(b[12])
    &&& b[13] == 58u8
    &&& is_digit(b[14]) && is_digit(b[15])
    &&& b[16] == 58u8
    &&& is_digit(b[17]) && is_digit(b[18])
    &&& 1 <= month_of(b) <= 12
    &&& 1 <= day_of(b) <= days_in_month(year_of(b), month_of(b))
    &&& hour_of(b) <= 23
    &&& minute_of(b) <= 59
    &&& second_of(b) <= 59
}

/// Epoch distance grows by at most 366 days per year in either direction.
proof fn lemma_days_before_year_bounds(y: int)
    requires
        0 <= y <= 10000,
    ensures
        y >= 1970 ==> 365 * (y - 1970) <= days_before_year(y) <= 366 * (y - 1970),
        y < 1970 ==> -366 * (1970 - y) <= days_before_year(y) <= -365 * (1970 - y),
    decreases
            if y >= 1970 {
                y - 1970
            } else {
                1970 - y
            },
{
    if y > 1970 {
        lemma_days_before_year_bounds(y - 1);
    } else if y < 1970 {
        lemma_days_before_year_bounds(y + 1);
    }
}

/// Each month contributes at most 31 days to the offset into the year.
proof fn lemma_days_before_month_bounds(y: int, m: int)
    requires
        1 <= m <= 13,
    ensures
        0 <= days_before_month(y, m) <= 31 * (m - 1),
    decreases m,
{
    if m > 1 {
        lemma_days_before_month_bounds(y, m - 1);
    }
}

/// Days in a year of the transcript's four-digit range stay within the range
/// an `i64` computation of seconds can carry.
pub proof fn lemma_days_from_epoch_bounds(y: int, m: int, d: int)
    requires
        0 <= y <= 9999,
        1 <= m <= 12,
        1 <= d <= 31,
    ensures
        -721100 <= days_from_epoch(y, m, d) <= 2940000,
{
    lemma_days_before_year_bounds(y);
    lemma_days_before_month_bounds(y, m);
}

/// Parse a `YYYY/MM/DD HH:MM:SS` local datetime at a fixed UTC offset given
/// in seconds. Returns the unix timestamp exactly when the bytes spell a
/// calendar-valid datetime in that fixed format, and nothing otherwise.
pub fn str_to_timestamp(value: &Vec<u8>, offset: i32) -> (r: Option<i64>)
    ensures
        r is Some <==> valid_datetime(value@),
        r matches Some(t) ==> t as int == civil_to_unix(
            year_of(value@),
            month_of(value@),
            day_of(value@),
            hour_of(value@),
            minute_of(value@),
            second_of(value@),
            offset as int,
        ),
{
    if value.len() != 19 {
        return None;
    }
    // Separators.
    if value[4] != 47 || value[7] != 47 || value[10] != 32 || value[13] != 58 || value[16] != 58 {
        return None;
    }
    // Digits.
    let mut i: usize = 0;
    while i < 19
        invariant
            i <= 19,
            value@.len() == 19,
            forall|j: int|
                0 <= j < i && j != 4 && j != 7 && j != 10 && j != 13 && j != 16 ==> is_digit(
                    #[trigger] value@[j],
                ),
        decreases 19 - i,
    {
        if i != 4 && i != 7 && i != 10 && i != 13 && i != 16 {
            let b = value[i];
            if b < 48 || b > 57 {
                return None;
            }
        }
        i = i + 1;
    }
    let y: i64 = (value[0] - 48) as i64 * 1000 + (value[1] - 48) as i64 * 100 + (value[2]
        - 48) as i64 * 10 + (value[3] - 48) as i64;
    let m: i64 = (value[5] - 48) as i64 * 10 + (value[6] - 48) as i64;
    let d: i64 = (value[8] - 48) as i64 * 10 + (value[9] - 48) as i64;
    let h: i64 = (value[11] - 48) as i64 * 10 + (value[12] - 48) as i64;
    let mi: i64 = (value[14] - 48) as i64 * 10 + (value[15] - 48) as i64;
    let s: i64 = (value[17] - 48) as i64 * 10 + (value[18] - 48) as i64;
    if m < 1 || m > 12 {
        return None;
    }
    let dim = days_in_month_exec(y, m);
    if d < 1 || d > dim {
        return None;
    }
    if h > 23 || mi > 59 || s > 59 {
        return None;
    }
    let days = days_from_epoch_exec(y, m, d);
    proof {
        lemma_days_from_epoch_bounds(y as int, m as int, d as int);
    }
    Some(days * 86400 + h * 3600 + mi * 60 + s - (offset as i64))
}

/// Whether the year is a leap year.
fn is_leap_year_exec(y: i64) -> (r: bool)
    requires
        0 <= y,
    ensures
        r == is_leap_year(y as int),
{
    (y % 4 == 0 && y % 100 != 0) || y % 400 == 0
}

/// Days in the given month.
fn days_in_month_exec(y: i64, m: i64) -> (r: i64)
    requires
        0 <= y,
    ensures
        r as int == days_in_month(y as int, m as int),
{
    if m == 2 {
        if is_leap_year_exec(y) {
            29
        } else {
            28
        }
    } else if m == 4 || m == 6 || m == 9 || m == 11 {
        30
    } else if 1 <= m && m <= 12 {
        31
    } else {
        0
    }
}

/// Days in the given year.
fn days_in_year_exec(y: i64) -> (r: i64)
    requires
        0 <= y,
    ensures
        r as int == days_in_year(y as int),
{
    if is_leap_year_exec(y) {
        366
    } else {
        365
    }
}

/// Days from the unix epoch to the given civil date, for four-digit years.
fn days_from_epoch_exec(y: i64, m: i64, d: i64) -> (r: i64)
    requires
        0 <= y <= 9999,
        1 <= m <= 12,
        1 <= d <= 31,
    ensures
        r as int == days_from_epoch(y as int, m as int, d as int),
{
    let mut acc: i64 = 0;
    if y >= 1970 {
        let mut cur: i64 = 1970;
        while cur < y
            invariant
                1970 <= cur <= y,
                y <= 9999,
                acc == days_before_year(cur as int),
                0 <= acc <= 366 * (cur - 1970),
            decreases y - cur,
        {
            acc = acc + days_in_year_exec(cur);
            cur = cur + 1;
        }
    } else {
        let mut cur: i64 = 1970;
        while cur > y
            invariant
                y <= cur <= 1970,
                0 <= y,
                acc == days_before_year(cur as int),
                -366 * (1970 - cur) <= acc <= 0,
            decreases cur - y,
        {
            acc = acc - days_in_year_exec(cur - 1);
            cur = cur - 1;
        }
    }
    let mut mm: i64 = 1;
    let mut macc: i64 = 0;
    while mm < m
        invariant
            1 <= mm <= m,
            m <= 12,
            0 <= y <= 9999,
            macc == days_before_month(y as int, mm as int),
            0 <= macc <= 31 * (mm - 1),
        decreases m - mm,
    {
        proof {
            lemma_days_before_month_bounds(y as int, mm as int + 1);
        }
        macc = macc + days_in_month_exec(y, mm);
        mm = mm + 1;
    }
    proof {
        lemma_days_before_year_bounds(y as int);
    }
    acc + macc + (d - 1)
}

} // verus!
