//! Calendar dates, read with `chrono`.

use crate::error::FieldError;
use chrono::{Datelike, NaiveDate};
use vstd::prelude::*;

verus! {

/// A calendar date as year, month and day of the month.
#[derive(Clone, Copy, Debug, PartialEq, Eq, Structural)]
pub struct Date {
    pub year: i32,
    pub month: u32,
    pub day: u32,
}

/// Year, month and day of the date that `chrono` reads out of `s` under the
/// format `fmt`, or `None` where it rejects `s`.
pub uninterp spec fn chrono_date(s: Seq<char>, fmt: Seq<char>) -> Option<(i32, u32, u32)>;

/// `chrono::NaiveDate::parse_from_str`, followed by the accessors `year`,
/// `month` and `day` of the date it returns. The result depends on the two
/// texts alone; what it is for given texts is not stated here.
#[verifier::external_body]
fn parse_with_chrono(s: &str, fmt: &str) -> (r: Option<(i32, u32, u32)>)
    ensures
        r == chrono_date(s@, fmt@),
{
    match NaiveDate::parse_from_str(s, fmt) {
        Ok(date) => Some((date.year(), date.month(), date.day())),
        Err(_) => None,
    }
}

/// `<chrono::NaiveDate as Default>::default`, followed by the accessors
/// `year`, `month` and `day`: the first of January 1970.
#[verifier::external_body]
fn chrono_default_date() -> (r: (i32, u32, u32))
    ensures
        r == (1970i32, 1u32, 1u32),
{
    let date = NaiveDate::default();
    (date.year(), date.month(), date.day())
}

/// The notation in which dates stand in a column: day, month and year,
/// separated by dots.
pub open spec fn spec_date_format() -> Seq<char> {
    "%d.%m.%Y"@
}

/// The date that the text `s` of a column denotes, if it denotes one.
pub open spec fn spec_parse_date(s: Seq<char>) -> Result<Date, FieldError> {
    Date::spec_from_parsed(chrono_date(s, spec_date_format()))
}

impl Date {
    /// The date of year, month and day, or the refusal of a text that
    /// `chrono` did not take for a date.
    pub open spec fn spec_from_parsed(parsed: Option<(i32, u32, u32)>) -> Result<
        Date,
        FieldError,
    > {
        match parsed {
            Some((year, month, day)) => Ok(Date { year, month, day }),
            None => Err(FieldError::InvalidDate),
        }
    }

    /// Turns what `chrono` made of a text into a date or a field error.
    pub fn from_parsed(parsed: Option<(i32, u32, u32)>) -> (r: Result<Date, FieldError>)
        ensures
            r == Date::spec_from_parsed(parsed),
    {
        match parsed {
            Some((year, month, day)) => Ok(Date { year, month, day }),
            None => Err(FieldError::InvalidDate),
        }
    }

    /// The date that a record holds before one is parsed into it.
    pub open spec fn spec_default() -> Date {
        Date { year: 1970, month: 1, day: 1 }
    }

    /// Parses `s`, written as day, month and year with dots between them,
    /// and stores the date in `self`. A rejected text leaves `self` as it was.
    pub fn csv_parse(&mut self, s: &str) -> (r: Result<(), FieldError>)
        ensures
            match spec_parse_date(s@) {
                Ok(date) => r is Ok && *final(self) == date,
                Err(e) => r == Err::<(), FieldError>(e) && *final(self) == *old(self),
            },
    {
        match Date::from_parsed(parse_with_chrono(s, "%d.%m.%Y")) {
            Ok(date) => {
                *self = date;
                Ok(())
            },
            Err(e) => Err(e),
        }
    }
}

impl Default for Date {
    fn default() -> (r: Date)
        ensures
            r == Date::spec_default(),
    {
        let (year, month, day) = chrono_default_date();
        Date { year, month, day }
    }
}

} // verus!
