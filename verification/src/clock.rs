//! The machine's calendar and clock, read through `chrono`.
//!
//! The library otherwise takes today's date and the offset from UTC as
//! parameters. Here are the calls that stand inside its logic: the minute
//! a sync commit is stamped with, and reading and stepping `%Y-%m-%d`
//! dates.

use vstd::prelude::*;

use crate::dates::{civil_date_of, civil_days_of, plain_date};

verus! {

/// `chrono::Local::now().format("%Y-%m-%d %H:%M")`: the local date and
/// minute. It depends on the moment it is read, so no clause states it.
#[verifier::external_body]
pub(crate) fn local_minute() -> (r: String) {
    chrono::Local::now().format("%Y-%m-%d %H:%M").to_string()
}

/// What `chrono::NaiveDate::parse_from_str(text, "%Y-%m-%d")` reads from a
/// text, written back as `%Y-%m-%d`; `None` where it reads no date.
pub uninterp spec fn ymd_reading(text: Seq<char>) -> Option<Seq<char>>;

/// The day after the date `date` names (as `NaiveDate::succ_opt` gives it),
/// written as `%Y-%m-%d`; `None` where `date` names no date or the calendar
/// ends.
pub uninterp spec fn day_after(date: Seq<char>) -> Option<Seq<char>>;

/// The day before, as `NaiveDate::pred_opt` gives it.
pub uninterp spec fn day_before(date: Seq<char>) -> Option<Seq<char>>;

/// `chrono::NaiveDate::parse_from_str` with `%Y-%m-%d`, the date written
/// back in the same form. A date already written that way, in the years 1
/// to 9998, reads back as itself.
#[verifier::external_body]
pub(crate) fn read_ymd(text: &str) -> (r: Option<String>)
    ensures
        r.deep_view() == ymd_reading(text@),
        plain_date(text@) ==> r.deep_view() == Some(text@),
{
    chrono::NaiveDate::parse_from_str(text, "%Y-%m-%d").ok().map(|d| d.format("%Y-%m-%d").to_string())
}

/// `chrono::NaiveDate::succ_opt` on the date a `%Y-%m-%d` text names. On
/// a date written as `civil_date` writes one, in the years 1 to 9998, that
/// is the Gregorian calendar's next day.
#[verifier::external_body]
pub(crate) fn next_day(date: &str) -> (r: Option<String>)
    ensures
        r.deep_view() == day_after(date@),
        plain_date(date@) ==> r.deep_view() == Some(civil_date_of(civil_days_of(date@)->0 + 1)),
{
    chrono::NaiveDate::parse_from_str(date, "%Y-%m-%d")
        .ok()
        .and_then(|d| d.succ_opt())
        .map(|d| d.format("%Y-%m-%d").to_string())
}

/// `chrono::NaiveDate::pred_opt` on the date a `%Y-%m-%d` text names. On
/// a date written as `civil_date` writes one, in the years 1 to 9998, that
/// is the Gregorian calendar's day before.
#[verifier::external_body]
pub(crate) fn previous_day(date: &str) -> (r: Option<String>)
    ensures
        r.deep_view() == day_before(date@),
        plain_date(date@) ==> r.deep_view() == Some(civil_date_of(civil_days_of(date@)->0 - 1)),
{
    chrono::NaiveDate::parse_from_str(date, "%Y-%m-%d")
        .ok()
        .and_then(|d| d.pred_opt())
        .map(|d| d.format("%Y-%m-%d").to_string())
}

} // verus!
