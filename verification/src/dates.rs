//! Calendar dates as plain values: strict `YYYY-MM-DD` parsing, validity
//! (month lengths, leap years), and conversion to unix seconds at midnight
//! UTC via the civil-calendar day number.

use vstd::prelude::*;
use crate::decimal::{spec_all_digits, spec_digits_value, spec_is_digit, spec_digit_val};

verus! {

#[derive(Clone, Copy, PartialEq, Eq, Structural)]
pub struct Date {
    pub year: i64,
    pub month: i64,
    pub day: i64,
}

pub open spec fn spec_is_leap_year(y: int) -> bool {
    (y % 4 == 0 && y % 100 != 0) || y % 400 == 0
}

pub open spec fn spec_days_in_month(y: int, m: int) -> int {
    if m == 2 {
        if spec_is_leap_year(y) { 29 } else { 28 }
    } else if m == 4 || m == 6 || m == 9 || m == 11 {
        30
    } else {
        31
    }
}

pub open spec fn spec_valid_date(y: int, m: int, d: int) -> bool {
    &&& 0 <= y <= 9999
    &&& 1 <= m <= 12
    &&& 1 <= d <= spec_days_in_month(y, m)
}

impl Date {
    pub open spec fn valid(self) -> bool {
        spec_valid_date(self.year as int, self.month as int, self.day as int)
    }
}

/// Day number of a civil date, with day 0 at 1970-01-01.
pub open spec fn spec_days_from_civil(y: int, m: int, d: int) -> int {
    let yy = if m <= 2 { y - 1 } else { y };
    let era = (yy + 400) / 400 - 1;
    let yoe = yy - era * 400;
    let mp = if m > 2 { m - 3 } else { m + 9 };
    let doy = (153 * mp + 2) / 5 + d - 1;
    let doe = yoe * 365 + yoe / 4 - yoe / 100 + doy;
    era * 146097 + doe - 719468
}

/// Unix seconds at 00:00:00 UTC of the given date.
pub open spec fn spec_date_timestamp(y: int, m: int, d: int) -> int {
    86400 * spec_days_from_civil(y, m, d)
}

pub fn days_in_month(year: i64, month: i64) -> (r: i64)
    requires
        0 <= year,
        1 <= month <= 12,
    ensures
        r == spec_days_in_month(year as int, month as int),
{
    if month == 2 {
        let y: u64 = year as u64;
        if (y % 4 == 0 && y % 100 != 0) || y % 400 == 0 { 29 } else { 28 }
    } else if month == 4 || month == 6 || month == 9 || month == 11 {
        30
    } else {
        31
    }
}

/// Day number of a valid date (day 0 = 1970-01-01).
pub fn days_from_civil(date: Date) -> (r: i64)
    requires
        date.valid(),
    ensures
        r == spec_days_from_civil(date.year as int, date.month as int, date.day as int),
        -800000 <= r <= 4000000,
{
    let y = date.year;
    let m = date.month;
    let d = date.day;
    let yy: i64 = if m <= 2 { y - 1 } else { y };
    let era: i64 = ((yy + 400) as u64 / 400) as i64 - 1;
    let yoe: i64 = yy - era * 400;
    assert(0 <= yoe < 400) by {
        vstd::arithmetic::div_mod::lemma_fundamental_div_mod((yy + 400) as int, 400);
        vstd::arithmetic::div_mod::lemma_mod_bound((yy + 400) as int, 400);
    };
    let mp: i64 = if m > 2 { m - 3 } else { m + 9 };
    let doy: i64 = ((153 * mp + 2) as u64 / 5) as i64 + d - 1;
    let doe: i64 = yoe * 365 + (yoe as u64 / 4) as i64 - (yoe as u64 / 100) as i64 + doy;
    era * 146097 + doe - 719468
}

/// Unix seconds at midnight UTC of a valid date.
pub fn date_unix_timestamp(date: Date) -> (r: i64)
    requires
        date.valid(),
    ensures
        r == spec_date_timestamp(date.year as int, date.month as int, date.day as int),
{
    let days = days_from_civil(date);
    86400 * days
}

/// Shape test for the strict `YYYY-MM-DD` form.
pub open spec fn spec_date_format(s: Seq<char>) -> bool {
    &&& s.len() == 10
    &&& s[4] == '-'
    &&& s[7] == '-'
    &&& spec_all_digits(s.subrange(0, 4))
    &&& spec_all_digits(s.subrange(5, 7))
    &&& spec_all_digits(s.subrange(8, 10))
}

/// The date a well-shaped `YYYY-MM-DD` string denotes.
pub open spec fn spec_date_of_str(s: Seq<char>) -> Date {
    Date {
        year: spec_digits_value(s.subrange(0, 4)) as i64,
        month: spec_digits_value(s.subrange(5, 7)) as i64,
        day: spec_digits_value(s.subrange(8, 10)) as i64,
    }
}

fn digit_at(s: &str, i: usize) -> (r: Option<i64>)
    requires
        i < s@.len(),
    ensures
        match r {
            Some(d) => spec_is_digit(s@[i as int]) && d == spec_digit_val(s@[i as int]) && 0 <= d <= 9,
            None => !spec_is_digit(s@[i as int]),
        },
{
    let c = s.get_char(i);
    match c {
        '0' => Some(0),
        '1' => Some(1),
        '2' => Some(2),
        '3' => Some(3),
        '4' => Some(4),
        '5' => Some(5),
        '6' => Some(6),
        '7' => Some(7),
        '8' => Some(8),
        '9' => Some(9),
        _ => None,
    }
}

proof fn lemma_value4(s: Seq<char>, lo: int)
    requires
        0 <= lo,
        lo + 4 <= s.len(),
    ensures
        spec_digits_value(s.subrange(lo, lo + 4)) ==
            ((spec_digit_val(s[lo]) * 10 + spec_digit_val(s[lo + 1])) * 10
                + spec_digit_val(s[lo + 2])) * 10 + spec_digit_val(s[lo + 3]),
{
    let s4 = s.subrange(lo, lo + 4);
    let s3 = s.subrange(lo, lo + 3);
    let s2 = s.subrange(lo, lo + 2);
    let s1 = s.subrange(lo, lo + 1);
    assert(s4.drop_last() =~= s3);
    assert(s3.drop_last() =~= s2);
    assert(s2.drop_last() =~= s1);
    assert(s1.drop_last() =~= Seq::<char>::empty());
    assert(spec_digits_value(Seq::<char>::empty()) == 0);
    assert(spec_digits_value(s1) == spec_digit_val(s[lo]));
    assert(spec_digits_value(s2) == spec_digits_value(s1) * 10 + spec_digit_val(s[lo + 1]));
    assert(spec_digits_value(s3) == spec_digits_value(s2) * 10 + spec_digit_val(s[lo + 2]));
    assert(spec_digits_value(s4) == spec_digits_value(s3) * 10 + spec_digit_val(s[lo + 3]));
}

proof fn lemma_value2(s: Seq<char>, lo: int)
    requires
        0 <= lo,
        lo + 2 <= s.len(),
    ensures
        spec_digits_value(s.subrange(lo, lo + 2)) ==
            spec_digit_val(s[lo]) * 10 + spec_digit_val(s[lo + 1]),
{
    let s2 = s.subrange(lo, lo + 2);
    let s1 = s.subrange(lo, lo + 1);
    assert(s2.drop_last() =~= s1);
    assert(s1.drop_last() =~= Seq::<char>::empty());
    assert(spec_digits_value(Seq::<char>::empty()) == 0);
    assert(spec_digits_value(s1) == spec_digit_val(s[lo]));
    assert(spec_digits_value(s2) == spec_digits_value(s1) * 10 + spec_digit_val(s[lo + 1]));
}

/// Parse a strict `YYYY-MM-DD` string into a calendar-valid date.
pub fn date_from_str(s: &str) -> (r: Option<Date>)
    ensures
        r == if spec_date_format(s@) && spec_date_of_str(s@).valid() {
            Some(spec_date_of_str(s@))
        } else {
            None::<Date>
        },
{
    let n = s.unicode_len();
    if n != 10 {
        return None;
    }
    if s.get_char(4) != '-' || s.get_char(7) != '-' {
        return None;
    }
    let y0 = digit_at(s, 0);
    let y1 = digit_at(s, 1);
    let y2 = digit_at(s, 2);
    let y3 = digit_at(s, 3);
    let m0 = digit_at(s, 5);
    let m1 = digit_at(s, 6);
    let d0 = digit_at(s, 8);
    let d1 = digit_at(s, 9);
    match (y0, y1, y2, y3, m0, m1, d0, d1) {
        (Some(y0), Some(y1), Some(y2), Some(y3), Some(m0), Some(m1), Some(d0), Some(d1)) => {
            let year: i64 = ((y0 * 10 + y1) * 10 + y2) * 10 + y3;
            let month: i64 = m0 * 10 + m1;
            let day: i64 = d0 * 10 + d1;
            proof {
                lemma_value4(s@, 0);
                lemma_value2(s@, 5);
                lemma_value2(s@, 8);
                assert forall|i: int| 0 <= i < 4 implies spec_is_digit(#[trigger] s@.subrange(0, 4)[i]) by {}
                assert forall|i: int| 0 <= i < 2 implies spec_is_digit(#[trigger] s@.subrange(5, 7)[i]) by {}
                assert forall|i: int| 0 <= i < 2 implies spec_is_digit(#[trigger] s@.subrange(8, 10)[i]) by {}
                assert(spec_date_format(s@));
                assert(spec_date_of_str(s@) == Date { year, month, day });
            }
            let date = Date { year, month, day };
            if month < 1 || month > 12 {
                return None;
            }
            if day < 1 || day > days_in_month(year, month) {
                return None;
            }
            Some(date)
        },
        _ => {
            proof {
                if spec_date_format(s@) {
                    assert(spec_is_digit(s@.subrange(0, 4)[0]));
                    assert(spec_is_digit(s@.subrange(0, 4)[1]));
                    assert(spec_is_digit(s@.subrange(0, 4)[2]));
                    assert(spec_is_digit(s@.subrange(0, 4)[3]));
                    assert(spec_is_digit(s@.subrange(5, 7)[0]));
                    assert(spec_is_digit(s@.subrange(5, 7)[1]));
                    assert(spec_is_digit(s@.subrange(8, 10)[0]));
                    assert(spec_is_digit(s@.subrange(8, 10)[1]));
                    assert(false);
                }
            }
            None
        },
    }
}

/// The unix timestamp (seconds, midnight UTC) a strict `YYYY-MM-DD` string
/// denotes; `None` when the string is not well-shaped or not a real date.
pub fn parse_date_yyyy_mm_dd(date: &str) -> (r: Option<i64>)
    ensures
        r == if spec_date_format(date@) && spec_date_of_str(date@).valid() {
            Some(spec_date_timestamp(
                spec_date_of_str(date@).year as int,
                spec_date_of_str(date@).month as int,
                spec_date_of_str(date@).day as int,
            ) as i64)
        } else {
            None::<i64>
        },
{
    match date_from_str(date) {
        Some(d) => Some(date_unix_timestamp(d)),
        None => None,
    }
}

} // verus!
