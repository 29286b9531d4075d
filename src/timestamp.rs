use vstd::prelude::*;

verus! {

/// A UTC calendar date and wall-clock time, to the second.
#[derive(Clone, Copy, Debug, PartialEq, Eq)]
pub struct Timestamp {
    pub year: i32,
    pub month: u32,
    pub day: u32,
    pub hour: u32,
    pub minute: u32,
    pub second: u32,
}

/// Leap years of the proleptic Gregorian calendar.
pub open spec fn is_leap_year(year: int) -> bool {
    year % 4 == 0 && (year % 100 != 0 || year % 400 == 0)
}

/// Number of days in `month` (1 to 12) of `year`.
pub open spec fn days_in_month(year: int, month: int) -> int {
    if month == 2 {
        if is_leap_year(year) { 29 } else { 28 }
    } else if month == 4 || month == 6 || month == 9 || month == 11 {
        30
    } else {
        31
    }
}

/// Earliest year that chrono's calendar dates can hold.
pub const FIRST_YEAR: i32 = -262143;

/// Latest year that chrono's calendar dates can hold.
pub const LAST_YEAR: i32 = 262142;

impl Timestamp {
    /// Every field lies in its range: day 1 to 31, month 1 to 12, hour 0 to 23,
    /// minute and second 0 to 59.
    pub open spec fn wf(self) -> bool {
        &&& 1 <= self.month <= 12
        &&& 1 <= self.day <= 31
        &&& self.hour <= 23
        &&& self.minute <= 59
        &&& self.second <= 59
    }

    /// The fields name an instant that exists: a day of the month in its year,
    /// in the range of years that chrono's dates cover.
    pub open spec fn is_instant(self) -> bool {
        &&& self.wf()
        &&& FIRST_YEAR <= self.year <= LAST_YEAR
        &&& self.day <= days_in_month(self.year as int, self.month as int)
    }
}

} // verus!
