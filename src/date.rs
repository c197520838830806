//! Calendar days as plain day numbers, and their ISO `YYYY-MM-DD` text form.

use chrono::{Datelike, NaiveDate};
use vstd::prelude::*;

verus! {

/// A calendar day of the proleptic Gregorian calendar, counted with
/// January 1 of year 1 as day 1. Day 1 is a Monday.
#[derive(Clone, Copy, Debug, PartialEq, Eq, Structural, Hash)]
pub struct Date {
    pub days: i32,
}

/// ISO weekday of day number `d`: Monday is 1, Sunday is 7.
pub open spec fn weekday_of(d: int) -> int {
    (d - 1) % 7 + 1
}

/// The day number that chrono reads from `s` in the `%Y-%m-%d` format, if it reads one.
pub uninterp spec fn iso_day(s: Seq<char>) -> Option<i32>;

/// The text that chrono writes for day number `d`, if `d` lies in chrono's range.
pub uninterp spec fn iso_text(d: i32) -> Option<Seq<char>>;

/// Relies on chrono's `NaiveDate::parse_from_str` with the `%Y-%m-%d` format, and on
/// `Datelike::num_days_from_ce` to turn the date it reads into a day number.
#[verifier::external_body]
fn parse_iso_day(s: &str) -> (r: Option<i32>)
    ensures
        r == iso_day(s@),
{
    match NaiveDate::parse_from_str(s, "%Y-%m-%d") {
        Ok(d) => Some(d.num_days_from_ce()),
        Err(_) => None,
    }
}

/// Relies on chrono's `NaiveDate::from_num_days_from_ce_opt`, which gives `None` outside
/// chrono's range, and on `NaiveDate`'s `Display`, which writes the ISO `YYYY-MM-DD` form.
#[verifier::external_body]
fn format_iso_day(d: i32) -> (r: Option<String>)
    ensures
        match r {
            Some(t) => iso_text(d) == Some(t@),
            None => iso_text(d) is None,
        },
{
    match NaiveDate::from_num_days_from_ce_opt(d) {
        Some(date) => Some(date.to_string()),
        None => None,
    }
}

impl Date {
    /// The ISO weekday of this day, Monday = 1 through Sunday = 7.
    pub fn weekday(self) -> (r: u32)
        ensures
            r as int == weekday_of(self.days as int),
            1 <= r <= 7,
    {
        let shifted: i64 = self.days as i64 - 1;
        let rem: i64 = shifted.checked_rem_euclid(7).unwrap();
        (rem + 1) as u32
    }

    /// Reads a day from its ISO `YYYY-MM-DD` text.
    pub fn parse(s: &str) -> (r: Option<Date>)
        ensures
            match r {
                Some(d) => iso_day(s@) == Some(d.days),
                None => iso_day(s@) is None,
            },
    {
        match parse_iso_day(s) {
            Some(days) => Some(Date { days }),
            None => None,
        }
    }

    /// The ISO `YYYY-MM-DD` text of this day, or `None` where the day lies outside
    /// the range of dates that can be written.
    pub fn to_iso(self) -> (r: Option<String>)
        ensures
            match r {
                Some(t) => iso_text(self.days) == Some(t@),
                None => iso_text(self.days) is None,
            },
    {
        format_iso_day(self.days)
    }
}

} // verus!
