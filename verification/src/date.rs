//! Calendar dates of the proleptic Gregorian calendar.
//!
//! A [`Date`] holds year, month and day as plain integers. Its mathematical
//! model is a [`Ymd`], and every `Date` that executable code can hold names a
//! day that exists.

use chrono::{Datelike, NaiveDate};
use vstd::prelude::*;

verus! {

/// The earliest year a [`Date`] can lie in.
pub const MIN_YEAR: i32 = -262_143;

/// The latest year a [`Date`] can lie in.
pub const MAX_YEAR: i32 = 262_142;

/// Whether `year` has a February 29.
pub open spec fn is_leap_year(year: int) -> bool {
    year % 4 == 0 && (year % 100 != 0 || year % 400 == 0)
}

/// The number of days of `month` in `year`; 0 where `month` is not a month.
pub open spec fn days_in_month(year: int, month: int) -> int {
    if month == 2 {
        if is_leap_year(year) {
            29
        } else {
            28
        }
    } else if month == 4 || month == 6 || month == 9 || month == 11 {
        30
    } else if 1 <= month <= 12 {
        31
    } else {
        0
    }
}

/// Year, month and day as mathematical integers: the model of a [`Date`].
pub struct Ymd {
    pub year: int,
    pub month: int,
    pub day: int,
}

impl Ymd {
    /// Whether this names a day that exists, in a year a [`Date`] can hold.
    pub open spec fn is_calendar_date(self) -> bool {
        &&& MIN_YEAR <= self.year <= MAX_YEAR
        &&& 1 <= self.month <= 12
        &&& 1 <= self.day <= days_in_month(self.year, self.month)
    }

    /// Whether this day comes strictly before `other`.
    pub open spec fn is_before(self, other: Ymd) -> bool {
        ||| self.year < other.year
        ||| self.year == other.year && self.month < other.month
        ||| self.year == other.year && self.month == other.month && self.day < other.day
    }

    /// The same month and day in `year`.
    pub open spec fn in_year(self, year: int) -> Ymd {
        Ymd { year, month: self.month, day: self.day }
    }
}

/// A day of the calendar.
#[derive(Clone, Copy, Debug, PartialEq, Eq, PartialOrd, Ord, Hash, Structural)]
pub struct Date {
    year: i32,
    month: u32,
    day: u32,
}

impl View for Date {
    type V = Ymd;

    closed spec fn view(&self) -> Ymd {
        Ymd { year: self.year as int, month: self.month as int, day: self.day as int }
    }
}

/// Returns whether `year` has a February 29.
pub fn leap_year(year: i32) -> (leap: bool)
    ensures
        leap == is_leap_year(year as int),
{
    year % 4 == 0 && (year % 100 != 0 || year % 400 == 0)
}

/// Returns the number of days of `month` in `year`, and 0 where `month` is
/// not a month.
pub fn month_length(year: i32, month: u32) -> (days: u32)
    ensures
        days == days_in_month(year as int, month as int),
{
    if month == 2 {
        if leap_year(year) {
            29
        } else {
            28
        }
    } else if month == 4 || month == 6 || month == 9 || month == 11 {
        30
    } else if 1 <= month && month <= 12 {
        31
    } else {
        0
    }
}

/// `chrono::NaiveDate::with_year`, on a date given and returned as year,
/// month and day.
///
/// Trusted, not proved. The contract claims what the documentation and the
/// source of `chrono` show: `NaiveDate::from_ymd_opt` makes a date of every
/// day that exists from [`MIN_YEAR`] to [`MAX_YEAR`]; `with_year` keeps month
/// and day, takes the new year, and is `None` exactly when that day does not
/// exist (February 29 in a common year) or the new year is outside that
/// range; and `year`, `month` and `day` give back what the date was made of.
#[verifier::external_body]
fn naive_with_year(year: i32, month: u32, day: u32, new_year: i32) -> (shifted: Option<
    (i32, u32, u32),
>)
    requires
        (Ymd { year: year as int, month: month as int, day: day as int }).is_calendar_date(),
    ensures
        shifted == if (Ymd {
            year: new_year as int,
            month: month as int,
            day: day as int,
        }).is_calendar_date() {
            Some((new_year, month, day))
        } else {
            None
        },
{
    let date = NaiveDate::from_ymd_opt(year, month, day)?;
    date.with_year(new_year).map(|d| (d.year(), d.month(), d.day()))
}

impl Date {
    #[verifier::type_invariant]
    spec fn exists_in_calendar(self) -> bool {
        self@.is_calendar_date()
    }

    /// The date with the same month and day in `year`, where that day exists.
    pub closed spec fn in_year(self, year: int) -> Option<Date> {
        if self@.in_year(year).is_calendar_date() {
            Some(Date { year: year as i32, month: self.month, day: self.day })
        } else {
            None
        }
    }

    /// Makes the date of `day` in `month` of `year`, or `None` where no such
    /// day exists or the year is outside [`MIN_YEAR`]`..=`[`MAX_YEAR`].
    pub fn new(year: i32, month: u32, day: u32) -> (date: Option<Date>)
        ensures
            date is Some <==> (Ymd {
                year: year as int,
                month: month as int,
                day: day as int,
            }).is_calendar_date(),
            date matches Some(d) ==> d@ == (Ymd {
                year: year as int,
                month: month as int,
                day: day as int,
            }),
    {
        if MIN_YEAR <= year && year <= MAX_YEAR && 1 <= month && month <= 12 && 1 <= day && day
            <= month_length(year, month) {
            Some(Date { year, month, day })
        } else {
            None
        }
    }

    /// Returns the year.
    pub fn year(&self) -> (year: i32)
        ensures
            year == self@.year,
            self@.is_calendar_date(),
    {
        proof {
            use_type_invariant(self);
        }
        self.year
    }

    /// Returns the month, from 1 to 12.
    pub fn month(&self) -> (month: u32)
        ensures
            month == self@.month,
            self@.is_calendar_date(),
    {
        proof {
            use_type_invariant(self);
        }
        self.month
    }

    /// Returns the day of the month, from 1.
    pub fn day(&self) -> (day: u32)
        ensures
            day == self@.day,
            self@.is_calendar_date(),
    {
        proof {
            use_type_invariant(self);
        }
        self.day
    }

    /// Returns whether this date comes strictly before `other`.
    pub fn is_before(&self, other: &Date) -> (before: bool)
        ensures
            before == self@.is_before(other@),
    {
        self.year < other.year || (self.year == other.year && (self.month < other.month || (
        self.month == other.month && self.day < other.day)))
    }

    /// Returns the date with the same month and day in `year`, or `None`
    /// where that day does not exist or `year` is outside
    /// [`MIN_YEAR`]`..=`[`MAX_YEAR`].
    pub fn with_year(&self, year: i32) -> (shifted: Option<Date>)
        ensures
            shifted == self.in_year(year as int),
            shifted is Some <==> self@.in_year(year as int).is_calendar_date(),
            shifted matches Some(date) ==> date@ == self@.in_year(year as int),
    {
        proof {
            use_type_invariant(self);
        }
        match naive_with_year(self.year, self.month, self.day, year) {
            Some((y, m, d)) => Some(Date { year: y, month: m, day: d }),
            None => None,
        }
    }

    /// What [`Date::in_year`] is, over the models: it is some date exactly
    /// when the day exists in `year`, and that date has the year changed and
    /// nothing else.
    pub proof fn lemma_in_year(self, year: int)
        ensures
            self.in_year(year) is Some <==> self@.in_year(year).is_calendar_date(),
            self.in_year(year) matches Some(d) ==> d@ == self@.in_year(year),
    {
    }

    /// Two dates with the same model are the same date.
    pub proof fn lemma_view_injective(self, other: Date)
        requires
            self@ == other@,
        ensures
            self == other,
    {
    }
}

} // verus!
