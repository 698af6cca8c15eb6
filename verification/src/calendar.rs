use vstd::prelude::*;

verus! {

/// Latest year a date may carry; the parser reads four-digit years.
pub const MAX_YEAR: u32 = 9999;

/// A calendar date in the proleptic Gregorian calendar.
#[derive(Clone, Copy, PartialEq, Eq, Structural, Debug)]
pub struct Date {
    pub year: u32,
    pub month: u32,
    pub day: u32,
}

/// A time of day on a 24-hour clock.
#[derive(Clone, Copy, PartialEq, Eq, Structural, Debug)]
pub struct Time {
    pub hour: u32,
    pub minute: u32,
}

/// A date together with a time of day.
#[derive(Clone, Copy, PartialEq, Eq, Structural, Debug)]
pub struct DateTime {
    pub date: Date,
    pub time: Time,
}

pub open spec fn is_leap_year(y: int) -> bool {
    y % 4 == 0 && (y % 100 != 0 || y % 400 == 0)
}

pub open spec fn days_in_month(y: int, m: int) -> int {
    if m == 2 {
        if is_leap_year(y) {
            29
        } else {
            28
        }
    } else if m == 4 || m == 6 || m == 9 || m == 11 {
        30
    } else {
        31
    }
}

/// The day after `d`, or `None` when `d` is invalid or the last
/// representable day.
pub open spec fn spec_next_day(d: Date) -> Option<Date> {
    if !d.valid() {
        None
    } else if d.day < days_in_month(d.year as int, d.month as int) {
        Some(Date { year: d.year, month: d.month, day: (d.day + 1) as u32 })
    } else if d.month < 12 {
        Some(Date { year: d.year, month: (d.month + 1) as u32, day: 1 })
    } else if d.year < MAX_YEAR {
        Some(Date { year: (d.year + 1) as u32, month: 1, day: 1 })
    } else {
        None
    }
}

/// The day before `d`, or `None` when `d` is invalid or the first
/// representable day.
pub open spec fn spec_prev_day(d: Date) -> Option<Date> {
    if !d.valid() {
        None
    } else if d.day > 1 {
        Some(Date { year: d.year, month: d.month, day: (d.day - 1) as u32 })
    } else if d.month > 1 {
        Some(
            Date {
                year: d.year,
                month: (d.month - 1) as u32,
                day: days_in_month(d.year as int, d.month as int - 1) as u32,
            },
        )
    } else if d.year > 0 {
        Some(Date { year: (d.year - 1) as u32, month: 12, day: 31 })
    } else {
        None
    }
}

/// Strict ordering on times of day.
pub open spec fn time_lt(a: Time, b: Time) -> bool {
    a.hour < b.hour || (a.hour == b.hour && a.minute < b.minute)
}

impl Date {
    pub open spec fn valid(self) -> bool {
        self.year <= MAX_YEAR && 1 <= self.month <= 12 && 1 <= self.day
            <= days_in_month(self.year as int, self.month as int)
    }

    /// Whether this value denotes a real calendar day.
    pub fn is_valid(&self) -> (r: bool)
        ensures
            r == self.valid(),
    {
        self.year <= MAX_YEAR && 1 <= self.month && self.month <= 12 && 1 <= self.day
            && self.day <= days_in_month_of(self.year, self.month)
    }

    /// The following calendar day, if there is one in range.
    pub fn next_day(&self) -> (r: Option<Date>)
        ensures
            r == spec_next_day(*self),
    {
        if !self.is_valid() {
            None
        } else if self.day < days_in_month_of(self.year, self.month) {
            Some(Date { year: self.year, month: self.month, day: self.day + 1 })
        } else if self.month < 12 {
            Some(Date { year: self.year, month: self.month + 1, day: 1 })
        } else if self.year < MAX_YEAR {
            Some(Date { year: self.year + 1, month: 1, day: 1 })
        } else {
            None
        }
    }

    /// The preceding calendar day, if there is one in range.
    pub fn prev_day(&self) -> (r: Option<Date>)
        ensures
            r == spec_prev_day(*self),
    {
        if !self.is_valid() {
            None
        } else if self.day > 1 {
            Some(Date { year: self.year, month: self.month, day: self.day - 1 })
        } else if self.month > 1 {
            Some(
                Date {
                    year: self.year,
                    month: self.month - 1,
                    day: days_in_month_of(self.year, self.month - 1),
                },
            )
        } else if self.year > 0 {
            Some(Date { year: self.year - 1, month: 12, day: 31 })
        } else {
            None
        }
    }
}

/// Number of days in the given month of the given year.
pub fn days_in_month_of(year: u32, month: u32) -> (r: u32)
    ensures
        r == days_in_month(year as int, month as int),
{
    if month == 2 {
        if year % 4 == 0 && (year % 100 != 0 || year % 400 == 0) {
            29
        } else {
            28
        }
    } else if month == 4 || month == 6 || month == 9 || month == 11 {
        30
    } else {
        31
    }
}

impl Time {
    pub open spec fn valid(self) -> bool {
        self.hour <= 23 && self.minute <= 59
    }

    /// Strict comparison of two times of day.
    pub fn before(&self, other: &Time) -> (r: bool)
        ensures
            r == time_lt(*self, *other),
    {
        self.hour < other.hour || (self.hour == other.hour && self.minute < other.minute)
    }
}

impl DateTime {
    pub open spec fn spec_date(&self) -> Date {
        self.date
    }

    /// The calendar-day component of this timestamp.
    #[verifier::when_used_as_spec(spec_date)]
    pub fn date(&self) -> (r: Date)
        ensures
            r == self.date,
    {
        self.date
    }
}

/// The following day is never the same day.
pub proof fn lemma_next_day_changes(d: Date)
    ensures
        spec_next_day(d) is Some ==> spec_next_day(d)->Some_0 != d,
{
}

} // verus!
