//! Calendar dates, as `time::Date` holds them: a year in `-9999..=9999`, a
//! month in `1..=12` and a day that exists in that month.

use vstd::prelude::*;

verus! {

/// Whether `y` is a leap year of the proleptic Gregorian calendar.
pub open spec fn is_leap_year(y: int) -> bool {
    y % 4 == 0 && (y % 100 != 0 || y % 400 == 0)
}

/// The number of days of month `m` (1..=12) in year `y`.
pub open spec fn days_in_month(y: int, m: int) -> int {
    if m == 2 {
        if is_leap_year(y) {
            29
        } else {
            28
        }
    } else if m == 4 || m == 6 || m == 9 || m == 11 {
        30
    } else {
        31
    }
}

/// Whether `(y, m, d)` is a date that `time::Date` can hold.
pub open spec fn valid_date(y: int, m: int, d: int) -> bool {
    &&& -9999 <= y <= 9999
    &&& 1 <= m <= 12
    &&& 1 <= d <= days_in_month(y, m)
}

/// Whether a date's value is one `time::Date` can hold.
pub open spec fn is_valid(d: DateView) -> bool {
    valid_date(d.year as int, d.month as int, d.day as int)
}

/// The abstract value of a date.
pub struct DateView {
    pub year: i32,
    pub month: u8,
    pub day: u8,
}

/// A calendar date. Every value is a date `time::Date` can hold.
pub struct Date {
    year: i32,
    month: u8,
    day: u8,
}

impl Date {
    #[verifier::type_invariant]
    spec fn inv(self) -> bool {
        valid_date(self.year as int, self.month as int, self.day as int)
    }
}

impl View for Date {
    type V = DateView;

    closed spec fn view(&self) -> DateView {
        DateView { year: self.year, month: self.month, day: self.day }
    }
}

/// Why a date could not be made.
#[derive(Debug, Clone, Copy, PartialEq, Eq, Structural)]
pub enum DateError {
    /// The year, month or day lies outside its range.
    ComponentRange,
}

#[verifier::external_type_specification]
#[verifier::external_body]
pub struct ExComponentRange(time::error::ComponentRange);

/// The date with the given year, month and day, or time's range error.
///
/// Trusted: `time::Month::try_from(u8)` (which maps 1..=12 to the months and
/// fails otherwise) and `time::Date::from_calendar_date`, whose source fails
/// exactly when the year lies outside `-9999..=9999` (the `large-dates`
/// feature is off) or the day is 0 or past the month's length in the
/// Gregorian calendar; the date's `year`, `month` and `day` give back the
/// arguments.
#[verifier::external_body]
fn calendar_date(year: i32, month: u8, day: u8) -> (r: Result<Date, time::error::ComponentRange>)
    ensures
        r is Ok <==> valid_date(year as int, month as int, day as int),
        r matches Ok(d) ==> d@ == (DateView { year, month, day }),
{
    let m = time::Month::try_from(month)?;
    let d = time::Date::from_calendar_date(year, m, day)?;
    Ok(Date { year: d.year(), month: u8::from(d.month()), day: d.day() })
}

/// Today's date in UTC.
///
/// Trusted: `time::OffsetDateTime::now_utc` and `OffsetDateTime::date`. The
/// result depends on the clock; what holds of every outcome is that it is a
/// date `time::Date` can hold.
#[verifier::external_body]
pub(crate) fn today_utc() -> (d: Date)
    ensures
        is_valid(d@),
{
    let d = time::OffsetDateTime::now_utc().date();
    Date { year: d.year(), month: u8::from(d.month()), day: d.day() }
}

impl Date {
    /// The date with the given year, month and day, if there is one.
    pub fn from_calendar_date(year: i32, month: u8, day: u8) -> (r: Result<Date, DateError>)
        ensures
            r is Ok <==> valid_date(year as int, month as int, day as int),
            r matches Ok(d) ==> d@ == (DateView { year, month, day }),
            r matches Err(e) ==> e == DateError::ComponentRange,
    {
        match calendar_date(year, month, day) {
            Ok(d) => Ok(d),
            Err(_) => Err(DateError::ComponentRange),
        }
    }

    /// The year.
    pub fn year(&self) -> (y: i32)
        ensures
            y == self@.year,
            is_valid(self@),
    {
        proof {
            use_type_invariant(self);
        }
        self.year
    }

    /// The month, 1 for January.
    pub fn month(&self) -> (m: u8)
        ensures
            m == self@.month,
            is_valid(self@),
    {
        proof {
            use_type_invariant(self);
        }
        self.month
    }

    /// The day of the month.
    pub fn day(&self) -> (d: u8)
        ensures
            d == self@.day,
            is_valid(self@),
    {
        proof {
            use_type_invariant(self);
        }
        self.day
    }

    /// A copy of this date.
    pub fn copy(&self) -> (d: Date)
        ensures
            d@ == self@,
            is_valid(d@),
    {
        proof {
            use_type_invariant(self);
        }
        Date { year: self.year, month: self.month, day: self.day }
    }
}

} // verus!
