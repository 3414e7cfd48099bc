//! Calendar arithmetic on `YYYY-MM-DD` strings.
//!
//! No date library and no clock: the caller passes in today's date and its
//! own UTC offset, and everything here is plain arithmetic on the proleptic
//! Gregorian calendar (Howard Hinnant's day-count formulas).

use vstd::prelude::*;

use crate::text::{
    chars_of, is_digit, lemma_padded_reads_back, lemma_split_joined,
    lemma_split_without_separator, parse_i64, parse_i64_chars, push_signed_padded, signed_padded,
    split_chars, split_on, string_of,
};

verus! {

/// Day counts further than this from the epoch are not treated as dates.
/// It keeps every sum and difference of two day counts inside `i64`.
pub const DAY_LIMIT: i64 = 0x2000_0000_0000_0000;

/// Days since 1970-01-01 of a year, month and day (floor division throughout).
pub open spec fn days_from_civil(year: int, month: int, day: int) -> int {
    let y = if month <= 2 {
        year - 1
    } else {
        year
    };
    let era = y / 400;
    let year_of_era = y - era * 400;
    let shifted_month = if month > 2 {
        month - 3
    } else {
        month + 9
    };
    let day_of_year = (153 * shifted_month + 2) / 5 + day - 1;
    let day_of_era = year_of_era * 365 + year_of_era / 4 - year_of_era / 100 + day_of_year;
    era * 146_097 + day_of_era - 719_468
}

/// The year, month and day of a day count: the inverse of `days_from_civil`.
pub open spec fn civil_from_days(days: int) -> (int, int, int) {
    let z = days + 719_468;
    let era = z / 146_097;
    let day_of_era = z - era * 146_097;
    let year_of_era = (day_of_era - day_of_era / 1460 + day_of_era / 36_524 - day_of_era
        / 146_096) / 365;
    let y = year_of_era + era * 400;
    let day_of_year = day_of_era - (365 * year_of_era + year_of_era / 4 - year_of_era / 100);
    let mp = (5 * day_of_year + 2) / 153;
    let day = day_of_year - (153 * mp + 2) / 5 + 1;
    let month = if mp < 10 {
        mp + 3
    } else {
        mp - 9
    };
    (
        if month <= 2 {
            y + 1
        } else {
            y
        },
        month,
        day,
    )
}

/// The three `-`-separated fields of a date, when it has exactly three that
/// read as numbers naming a day that exists: the month in 1..=12 and the day
/// within that month.
pub open spec fn date_fields(s: Seq<char>) -> Option<(int, int, int)> {
    let fields = split_on(s, '-');
    if fields.len() == 3 {
        match (parse_i64(fields[0]), parse_i64(fields[1]), parse_i64(fields[2])) {
            (Some(y), Some(m), Some(d)) => if 1 <= m <= 12 && 1 <= d <= days_in_month(y, m) {
                Some((y, m, d))
            } else {
                None
            },
            _ => None,
        }
    } else {
        None
    }
}

/// Within one 400-year era, the year of the era and the March-based day of
/// the year that `civil_from_days` derives from a day of the era.
proof fn lemma_day_of_era(doe: int)
    requires
        0 <= doe <= 146_096,
    ensures
        ({
            let yoe = (doe - doe / 1460 + doe / 36_524 - doe / 146_096) / 365;
            let doy = doe - (365 * yoe + yoe / 4 - yoe / 100);
            &&& 0 <= yoe <= 399
            &&& 0 <= doy <= 364 + if is_leap(yoe + 1) {
                1int
            } else {
                0int
            }
        }),
{
}

/// A leap year of the Gregorian calendar.
pub open spec fn is_leap(year: int) -> bool {
    (year % 4 == 0 && year % 100 != 0) || year % 400 == 0
}

/// The days in a month of a year.
pub open spec fn days_in_month(year: int, month: int) -> int {
    if month == 2 {
        if is_leap(year) {
            29
        } else {
            28
        }
    } else if month == 4 || month == 6 || month == 9 || month == 11 {
        30
    } else {
        31
    }
}

/// A day of the March-based year `yoe` of an era, within that year's
/// length, reads back as that year and day.
proof fn lemma_year_of_era_inverse(yoe: int, doy: int)
    requires
        0 <= yoe <= 399,
        0 <= doy,
        doy <= 364 + if is_leap(yoe + 1) {
            1int
        } else {
            0int
        },
    ensures
        ({
            let doe = 365 * yoe + yoe / 4 - yoe / 100 + doy;
            &&& 0 <= doe <= 146_096
            &&& (doe - doe / 1460 + doe / 36_524 - doe / 146_096) / 365 == yoe
        }),
{
}

/// Within a March-based year, a day of a month reads back as that month and
/// day: `mp` counts months from March.
proof fn lemma_month_inverse(mp: int, d: int, leap: bool)
    requires
        0 <= mp <= 11,
        1 <= d,
        d <= if mp == 11 {
            if leap {
                29int
            } else {
                28int
            }
        } else if mp == 1 || mp == 3 || mp == 6 || mp == 8 {
            30int
        } else {
            31int
        },
    ensures
        ({
            let doy = (153 * mp + 2) / 5 + d - 1;
            &&& 0 <= doy <= 364 + if leap {
                1int
            } else {
                0int
            }
            &&& (5 * doy + 2) / 153 == mp
            &&& doy - (153 * mp + 2) / 5 + 1 == d
        }),
{
}

/// `civil_from_days` undoes `days_from_civil` on real dates: the day count
/// of a year, month and day that exist reads back as that year, month and day.
pub proof fn lemma_dates_round_trip(year: int, month: int, day: int)
    requires
        1 <= month <= 12,
        1 <= day <= days_in_month(year, month),
    ensures
        civil_from_days(days_from_civil(year, month, day)) == (year, month, day),
{
    let y = if month <= 2 {
        year - 1
    } else {
        year
    };
    let era = y / 400;
    vstd::arithmetic::div_mod::lemma_fundamental_div_mod(y, 400);
    let yoe = y - era * 400;
    let mp = if month > 2 {
        month - 3
    } else {
        month + 9
    };
    lemma_leap_periodic(y + 1, era);
    assert(yoe + 1 == (y + 1) - 400 * era);
    let leap = is_leap(yoe + 1);
    assert(month <= 2 ==> leap == is_leap(year));
    lemma_month_inverse(mp, day, leap);
    let doy = (153 * mp + 2) / 5 + day - 1;
    lemma_year_of_era_inverse(yoe, doy);
    lemma_civil_from_parts(era, yoe, mp, day);
}

/// Leap years repeat every 400 years.
proof fn lemma_leap_periodic(a: int, k: int)
    ensures
        is_leap(a - 400 * k) == is_leap(a),
{
    vstd::arithmetic::div_mod::lemma_mod_multiples_vanish(-100 * k, a, 4);
    vstd::arithmetic::div_mod::lemma_mod_multiples_vanish(-4 * k, a, 100);
    vstd::arithmetic::div_mod::lemma_mod_multiples_vanish(-k, a, 400);
    assert(4 * (-100 * k) + a == a - 400 * k);
    assert(100 * (-4 * k) + a == a - 400 * k);
    assert(400 * (-k) + a == a - 400 * k);
}

/// The day count built from an era, a year of it, a month counted from
/// March and a day reads back as them, when the day lies in that month
/// and the month's days in that year.
proof fn lemma_civil_from_parts(era: int, yoe: int, mp: int, d: int)
    requires
        0 <= yoe <= 399,
        0 <= mp <= 11,
        ({
            let doy = (153 * mp + 2) / 5 + d - 1;
            let doe = 365 * yoe + yoe / 4 - yoe / 100 + doy;
            &&& 0 <= doe <= 146_096
            &&& (doe - doe / 1460 + doe / 36_524 - doe / 146_096) / 365 == yoe
            &&& (5 * doy + 2) / 153 == mp
            &&& doy - (153 * mp + 2) / 5 + 1 == d
        }),
    ensures
        ({
            let y = yoe + era * 400;
            let month = if mp < 10 {
                mp + 3
            } else {
                mp - 9
            };
            let year = if month <= 2 {
                y + 1
            } else {
                y
            };
            &&& days_from_civil(year, month, d) == era * 146_097 + 365 * yoe + yoe / 4 - yoe / 100
                + (153 * mp + 2) / 5 + d - 1 - 719_468
            &&& civil_from_days(days_from_civil(year, month, d)) == (year, month, d)
        }),
{
    let doy = (153 * mp + 2) / 5 + d - 1;
    let doe = 365 * yoe + yoe / 4 - yoe / 100 + doy;
    let y = yoe + era * 400;
    vstd::arithmetic::div_mod::lemma_fundamental_div_mod_converse(y, 400, era, yoe);
    vstd::arithmetic::div_mod::lemma_fundamental_div_mod_converse(era * 146_097 + doe, 146_097, era, doe);
}

/// A day of a March-based year falls within its month: `mp` counts months
/// from March, and February has its 29th only in a year of 366 days.
proof fn lemma_month_of_day(doy: int, leap: bool)
    requires
        0 <= doy <= 364 + if leap {
            1int
        } else {
            0int
        },
    ensures
        ({
            let mp = (5 * doy + 2) / 153;
            let d = doy - (153 * mp + 2) / 5 + 1;
            &&& 0 <= mp <= 11
            &&& 1 <= d
            &&& d <= if mp == 11 {
                if leap {
                    29int
                } else {
                    28int
                }
            } else if mp == 1 || mp == 3 || mp == 6 || mp == 8 {
                30int
            } else {
                31int
            }
        }),
{
}

/// `days_from_civil` undoes `civil_from_days`: every day count is the day
/// count of the year, month and day that `civil_from_days` gives for it, and
/// that month and day are in range.
pub proof fn lemma_days_round_trip(n: int)
    ensures
        ({
            let (y, m, d) = civil_from_days(n);
            &&& 1 <= m <= 12
            &&& 1 <= d <= days_in_month(y, m)
            &&& days_from_civil(y, m, d) == n
            &&& n >= -719_528 ==> 0 <= y <= n + 719_868
        }),
{
    let z = n + 719_468;
    let era = z / 146_097;
    vstd::arithmetic::div_mod::lemma_fundamental_div_mod(z, 146_097);
    let doe = z - era * 146_097;
    assert(0 <= doe <= 146_096);
    lemma_day_of_era(doe);
    let yoe = (doe - doe / 1460 + doe / 36_524 - doe / 146_096) / 365;
    let doy = doe - (365 * yoe + yoe / 4 - yoe / 100);
    let y = yoe + era * 400;
    lemma_month_of_day(doy, is_leap(yoe + 1));
    let mp = (5 * doy + 2) / 153;
    let day = doy - (153 * mp + 2) / 5 + 1;
    lemma_leap_periodic(y + 1, era);
    assert(yoe + 1 == (y + 1) - 400 * era);
    let month = if mp < 10 {
        mp + 3
    } else {
        mp - 9
    };
    assert(y / 400 == era);
    if n >= -719_528 {
        if z >= 0 {
            assert(era >= 0);
            assert(era * 400 <= era * 146_097);
        } else {
            assert(era == -1);
            assert(yoe == 399);
            assert(mp >= 10);
        }
    }
    assert(civil_from_days(n) == (if month <= 2 {
        y + 1
    } else {
        y
    }, month, day));
}

/// `civil_days` reads back every date that `civil_date` writes: from
/// 0000-01-01 on, as far as `DAY_LIMIT`, the text of a day count is the text
/// of a date whose day count is that number.
pub proof fn lemma_civil_round_trip(n: int)
    requires
        -719_528 <= n <= DAY_LIMIT,
    ensures
        civil_days_of(civil_date_of(n)) == Some(n as i64),
{
    reveal(civil_days_of);
    lemma_days_round_trip(n);
    let (y, m, d) = civil_from_days(n);
    let ys = signed_padded(y, 4);
    let ms = signed_padded(m, 2);
    let ds = signed_padded(d, 2);
    lemma_padded_reads_back(y, 4);
    lemma_padded_reads_back(m, 2);
    lemma_padded_reads_back(d, 2);
    assert forall|i: int| 0 <= i < ys.len() implies ys[i] != '-' by {
        assert(is_digit(ys[i]));
    }
    assert forall|i: int| 0 <= i < ms.len() implies ms[i] != '-' by {
        assert(is_digit(ms[i]));
    }
    assert forall|i: int| 0 <= i < ds.len() implies ds[i] != '-' by {
        assert(is_digit(ds[i]));
    }
    lemma_split_without_separator(ys, '-');
    lemma_split_without_separator(ms, '-');
    lemma_split_without_separator(ds, '-');
    lemma_split_joined(ys, ms, '-');
    lemma_split_joined(ys + seq!['-'] + ms, ds, '-');
    let text = civil_date_of(n);
    assert(text =~= (ys + seq!['-'] + ms) + seq!['-'] + ds);
    assert(split_on(text, '-') =~= seq![ys, ms, ds]);
    assert(date_fields(text) == Some((y, m, d)));
}

/// A date that exists, written out, reads as its day count, and that day
/// count writes back the same text: from year 0 on, as far as `DAY_LIMIT`.
pub proof fn lemma_date_text_round_trip(year: int, month: int, day: int)
    requires
        0 <= year,
        1 <= month <= 12,
        1 <= day <= days_in_month(year, month),
        days_from_civil(year, month, day) <= DAY_LIMIT,
    ensures
        civil_days_of(date_text(year, month, day)) == Some(days_from_civil(year, month, day) as i64),
        civil_date_of(days_from_civil(year, month, day)) == date_text(year, month, day),
{
    let n = days_from_civil(year, month, day);
    lemma_dates_round_trip(year, month, day);
    assert(n >= -719_528) by {
        let y = if month <= 2 {
            year - 1
        } else {
            year
        };
        vstd::arithmetic::div_mod::lemma_fundamental_div_mod(y, 400);
        let era = y / 400;
        if y < 0 {
            assert(era == -1);
        }
    }
    lemma_civil_round_trip(n);
}

/// What `civil_days` returns for a string.
#[verifier::opaque]
pub open spec fn civil_days_of(s: Seq<char>) -> Option<i64> {
    match date_fields(s) {
        Some((y, m, d)) => {
            let n = days_from_civil(y, m, d);
            if -DAY_LIMIT <= n <= DAY_LIMIT {
                Some(n as i64)
            } else {
                None
            }
        },
        None => None,
    }
}

/// Every day count `civil_days` hands out lies within `DAY_LIMIT`.
pub proof fn lemma_civil_days_bounded(s: Seq<char>)
    ensures
        civil_days_of(s) matches Some(n) ==> -DAY_LIMIT <= n <= DAY_LIMIT,
{
    reveal(civil_days_of);
}

/// A date as `civil_date` writes one: `{year:04}-{month:02}-{day:02}`.
pub open spec fn date_text(year: int, month: int, day: int) -> Seq<char> {
    signed_padded(year, 4) + seq!['-'] + signed_padded(month, 2) + seq!['-'] + signed_padded(day, 2)
}

/// A date that exists, written the way `civil_date` writes it, in the
/// years 1 to 9998.
pub open spec fn plain_date(s: Seq<char>) -> bool {
    exists|y: int, m: int, d: int|
        1 <= y <= 9998 && 1 <= m <= 12 && 1 <= d <= days_in_month(y, m) && #[trigger] date_text(y, m, d)
            == s
}

/// The text `civil_date` writes for a day count.
pub open spec fn civil_date_of(days: int) -> Seq<char> {
    let (y, m, d) = civil_from_days(days);
    date_text(y, m, d)
}

/// Whether a year is a leap year.
fn leap_year(year: i64) -> (r: bool)
    ensures
        r == is_leap(year as int),
{
    let by4 = year.checked_rem_euclid(4);
    let by100 = year.checked_rem_euclid(100);
    let by400 = year.checked_rem_euclid(400);
    match (by4, by100, by400) {
        (Some(a), Some(b), Some(c)) => (a == 0 && b != 0) || c == 0,
        _ => false,
    }
}

/// The days in a month of a year.
fn month_length(year: i64, month: i64) -> (r: i64)
    ensures
        r == days_in_month(year as int, month as int),
{
    if month == 2 {
        if leap_year(year) {
            29
        } else {
            28
        }
    } else if month == 4 || month == 6 || month == 9 || month == 11 {
        30
    } else {
        31
    }
}

/// Days since the Unix epoch for a `YYYY-MM-DD` date.
///
/// `None` unless the text is exactly three `-`-separated numbers naming a day
/// that exists (a month of 1 to 12, a day within that month), and the day
/// count is within `DAY_LIMIT`.
pub fn civil_days(date: &str) -> (r: Option<i64>)
    ensures
        r == civil_days_of(date@),
{
    reveal(civil_days_of);
    let v = chars_of(date);
    let fields = split_chars(v.as_slice(), '-');
    if fields.len() != 3 {
        return None;
    }
    let year = match parse_i64_chars(fields[0].as_slice()) {
        Some(y) => y,
        None => return None,
    };
    let month = match parse_i64_chars(fields[1].as_slice()) {
        Some(m) => m,
        None => return None,
    };
    let day = match parse_i64_chars(fields[2].as_slice()) {
        Some(d) => d,
        None => return None,
    };
    if !(1 <= month && month <= 12) || !(1 <= day && day <= month_length(year, month)) {
        return None;
    }
    let y: i128 = if month <= 2 {
        (year as i128) - 1
    } else {
        year as i128
    };
    let era: i128 = match y.checked_div_euclid(400) {
        Some(e) => e,
        None => return None,
    };
    proof {
        vstd::arithmetic::div_mod::lemma_fundamental_div_mod(y as int, 400);
    }
    let year_of_era: i128 = y - era * 400;
    let shifted: i128 = if month > 2 {
        (month - 3) as i128
    } else {
        (month + 9) as i128
    };
    let day_of_year: i128 = match (153 * shifted + 2).checked_div_euclid(5) {
        Some(q) => q + (day as i128) - 1,
        None => return None,
    };
    let q4: i128 = match year_of_era.checked_div_euclid(4) {
        Some(q) => q,
        None => return None,
    };
    let q100: i128 = match year_of_era.checked_div_euclid(100) {
        Some(q) => q,
        None => return None,
    };
    let day_of_era: i128 = year_of_era * 365 + q4 - q100 + day_of_year;
    let n: i128 = era * 146_097 + day_of_era - 719_468;
    if n < -(DAY_LIMIT as i128) || n > DAY_LIMIT as i128 {
        return None;
    }
    Some(n as i64)
}

/// The inverse: a `YYYY-MM-DD` date from days since the epoch.
#[verifier::rlimit(40)]
pub fn civil_date(days: i64) -> (s: String)
    ensures
        s@ == civil_date_of(days as int),
{
    let z: i128 = (days as i128) + 719_468;
    let era: i128 = match z.checked_div_euclid(146_097) {
        Some(e) => e,
        None => 0,
    };
    proof {
        vstd::arithmetic::div_mod::lemma_fundamental_div_mod(z as int, 146_097);
    }
    let day_of_era: i128 = z - era * 146_097;
    let a: i128 = match day_of_era.checked_div_euclid(1460) {
        Some(q) => q,
        None => 0,
    };
    let b: i128 = match day_of_era.checked_div_euclid(36_524) {
        Some(q) => q,
        None => 0,
    };
    let c: i128 = match day_of_era.checked_div_euclid(146_096) {
        Some(q) => q,
        None => 0,
    };
    proof {
        assert(0 <= a <= day_of_era) by (nonlinear_arith)
            requires
                0 <= day_of_era < 146_097,
                a == day_of_era / 1460,
        ;
        assert(0 <= b <= day_of_era) by (nonlinear_arith)
            requires
                0 <= day_of_era < 146_097,
                b == day_of_era / 36_524,
        ;
        assert(0 <= c <= day_of_era) by (nonlinear_arith)
            requires
                0 <= day_of_era < 146_097,
                c == day_of_era / 146_096,
        ;
    }
    let year_of_era: i128 = match (day_of_era - a + b - c).checked_div_euclid(365) {
        Some(q) => q,
        None => 0,
    };
    proof {
        let t = day_of_era - a + b - c;
        assert(0 <= year_of_era <= t) by (nonlinear_arith)
            requires
                0 <= t < 300_000,
                year_of_era == t / 365,
        ;
    }
    let y: i128 = year_of_era + era * 400;
    let q4: i128 = match year_of_era.checked_div_euclid(4) {
        Some(q) => q,
        None => 0,
    };
    let q100: i128 = match year_of_era.checked_div_euclid(100) {
        Some(q) => q,
        None => 0,
    };
    proof {
        assert(0 <= q4 <= year_of_era) by (nonlinear_arith)
            requires
                0 <= year_of_era,
                q4 == year_of_era / 4,
        ;
        assert(0 <= q100 <= year_of_era) by (nonlinear_arith)
            requires
                0 <= year_of_era,
                q100 == year_of_era / 100,
        ;
    }
    let day_of_year: i128 = day_of_era - (365 * year_of_era + q4 - q100);
    let mp: i128 = match (5 * day_of_year + 2).checked_div_euclid(153) {
        Some(q) => q,
        None => 0,
    };
    proof {
        let t = 5 * day_of_year + 2;
        assert(-1_000_000_000 <= mp <= 1_000_000_000) by (nonlinear_arith)
            requires
                -1_000_000_000 <= t <= 1_000_000_000,
                mp == t / 153,
        ;
    }
    let back: i128 = match (153 * mp + 2).checked_div_euclid(5) {
        Some(q) => q,
        None => 0,
    };
    proof {
        let t = 153 * mp + 2;
        assert(-1_000_000_000_000 <= back <= 1_000_000_000_000) by (nonlinear_arith)
            requires
                -1_000_000_000_000 <= t <= 1_000_000_000_000,
                back == t / 5,
        ;
    }
    let day: i128 = day_of_year - back + 1;
    let month: i128 = if mp < 10 {
        mp + 3
    } else {
        mp - 9
    };
    let year: i128 = if month <= 2 {
        y + 1
    } else {
        y
    };
    let mut out: Vec<char> = Vec::new();
    push_signed_padded(&mut out, year, 4);
    out.push('-');
    push_signed_padded(&mut out, month, 2);
    out.push('-');
    push_signed_padded(&mut out, day, 2);
    proof {
        assert(out@ =~= civil_date_of(days as int));
    }
    string_of(out.as_slice())
}

/// Whole days from `from` to `to`.
pub fn days_between(from: &str, to: &str) -> (r: Option<i64>)
    ensures
        r == match (civil_days_of(from@), civil_days_of(to@)) {
            (Some(a), Some(b)) => Some((b - a) as i64),
            _ => None,
        },
{
    proof {
        lemma_civil_days_bounded(from@);
        lemma_civil_days_bounded(to@);
    }
    let b = match civil_days(to) {
        Some(b) => b,
        None => return None,
    };
    let a = match civil_days(from) {
        Some(a) => a,
        None => return None,
    };
    Some(b - a)
}

/// `i64 / i64` as Rust computes it: rounding towards zero.
pub open spec fn truncating_div(x: int, d: int) -> int {
    if x >= 0 {
        x / d
    } else {
        -((-x) / d)
    }
}

/// The local day number of a millisecond timestamp, given a UTC offset.
///
/// The timestamp is read as `i64` the way an `as` cast reads it, the seconds
/// are truncated, and the day is the floor of the local seconds.
pub open spec fn local_day(millis: u64, utc_offset_seconds: i32) -> int {
    let m = (millis as i64) as int;
    (truncating_div(m, 1000) + utc_offset_seconds) / 86_400
}

/// The local calendar date of a timestamp, given the caller's UTC offset.
pub fn local_date(millis: u64, utc_offset_seconds: i32) -> (s: String)
    ensures
        s@ == civil_date_of(local_day(millis, utc_offset_seconds)),
{
    let m: i64 = millis as i64;
    let seconds_utc: i64 = match m.checked_div(1000) {
        Some(q) => q,
        None => 0,
    };
    proof {
        let x = m as int;
        if x >= 0 {
            assert(0 <= x / 1000 <= x) by (nonlinear_arith)
                requires
                    x >= 0,
            ;
        } else {
            assert(0 <= (-x) / 1000 <= -x) by (nonlinear_arith)
                requires
                    x < 0,
            ;
        }
    }
    let seconds: i64 = seconds_utc + (utc_offset_seconds as i64);
    let days: i64 = match seconds.checked_div_euclid(86_400) {
        Some(d) => d,
        None => 0,
    };
    proof {
        let x = seconds as int;
        assert(-0x8000_0000_0000_0000 <= x / 86_400 <= 0x7fff_ffff_ffff_ffff) by (nonlinear_arith)
            requires
                -0x8000_0000_0000_0000 <= x <= 0x7fff_ffff_ffff_ffff,
        ;
    }
    civil_date(days)
}

/// The date `n` days before the given one; `None` when the text is not a
/// date or the day count would leave `i64`.
pub fn days_before(date: &str, n: i64) -> (r: Option<String>)
    ensures
        match civil_days_of(date@) {
            Some(d) => if i64::MIN <= d - n <= i64::MAX {
                r matches Some(s) && s@ == civil_date_of(d - n)
            } else {
                r is None
            },
            None => r is None,
        },
{
    match civil_days(date) {
        Some(days) => match days.checked_sub(n) {
            Some(back) => Some(civil_date(back)),
            None => None,
        },
        None => None,
    }
}

/// Day of the week, 0 = Sunday. The epoch was a Thursday.
pub open spec fn weekday_of(s: Seq<char>) -> Option<u8> {
    match civil_days_of(s) {
        Some(d) => Some(((d + 4) % 7) as u8),
        None => None,
    }
}

/// The day of the week of a date, 0 = Sunday, or `None` if it is not a date.
pub fn weekday(date: &str) -> (r: Option<u8>)
    ensures
        r == weekday_of(date@),
{
    proof {
        lemma_civil_days_bounded(date@);
    }
    match civil_days(date) {
        Some(days) => {
            let shifted: i64 = days + 4;
            match shifted.checked_rem_euclid(7) {
                Some(w) => Some(w as u8),
                None => None,
            }
        },
        None => None,
    }
}

} // verus!
