//! Calendar days.
//!
//! A `Date` is a single proleptic-Gregorian calendar day, held as a signed
//! count of days since 1970-01-01.  The day count supports successor,
//! predecessor and day-difference directly; `from_ymd` converts a
//! year/month/day triple in the years 1 through 9999.

use vstd::prelude::*;

verus! {

/// Day number of 0001-01-01.
pub const DAY_MIN: i64 = -719_162;

/// Day number of 9999-12-31.
pub const DAY_MAX: i64 = 2_932_896;

/// A calendar day: days since 1970-01-01 (which is day 0, a Thursday).
#[derive(Clone, Copy, Debug, PartialEq, Eq, Structural, PartialOrd, Ord, Hash)]
pub struct Date {
    days: i64,
}

/// Weekday index of a day number: Monday is 0 through Sunday 6.
pub open spec fn spec_weekday(days: int) -> int {
    (days + 3) % 7
}

/// Whether a year is a Gregorian leap year.
pub open spec fn spec_is_leap_year(y: int) -> bool {
    y % 4 == 0 && (y % 100 != 0 || y % 400 == 0)
}

/// Days in a month of a given year.
pub open spec fn spec_days_in_month(y: int, m: int) -> int {
    if m == 2 {
        if spec_is_leap_year(y) {
            29
        } else {
            28
        }
    } else if m == 4 || m == 6 || m == 9 || m == 11 {
        30
    } else {
        31
    }
}

/// Whether a year/month/day triple names a day of the supported range.
pub open spec fn spec_ymd_valid(y: int, m: int, d: int) -> bool {
    1 <= y <= 9999 && 1 <= m <= 12 && 1 <= d <= spec_days_in_month(y, m)
}

/// Day number of a valid year/month/day triple.
pub open spec fn spec_days_from_ymd(y: int, m: int, d: int) -> int {
    let yy = if m <= 2 { y - 1 } else { y };
    let era = yy / 400;
    let yoe = yy - era * 400;
    let mp = if m > 2 { m - 3 } else { m + 9 };
    let doy = (153 * mp + 2) / 5 + d - 1;
    let doe = yoe * 365 + yoe / 4 - yoe / 100 + doy;
    era * 146097 + doe - 719468
}

impl View for Date {
    type V = int;

    closed spec fn view(&self) -> int {
        self.days as int
    }
}

impl Date {
    /// The date of a year/month/day triple, or `None` when the triple
    /// does not name a day of the years 1 through 9999.
    pub fn from_ymd(y: i64, m: i64, d: i64) -> (r: Option<Date>)
        ensures
            r is Some <==> spec_ymd_valid(y as int, m as int, d as int),
            r matches Some(date) ==> date@ == spec_days_from_ymd(y as int, m as int, d as int),
    {
        if y < 1 || y > 9999 || m < 1 || m > 12 || d < 1 {
            return None;
        }
        let month_len: i64 = if m == 2 {
            if (y % 4 == 0 && y % 100 != 0) || y % 400 == 0 {
                29
            } else {
                28
            }
        } else if m == 4 || m == 6 || m == 9 || m == 11 {
            30
        } else {
            31
        };
        if d > month_len {
            return None;
        }
        let yy: i64 = if m <= 2 { y - 1 } else { y };
        let era: i64 = yy / 400;
        let yoe: i64 = yy - era * 400;
        let mp: i64 = if m > 2 { m - 3 } else { m + 9 };
        let doy: i64 = (153 * mp + 2) / 5 + d - 1;
        let doe: i64 = yoe * 365 + yoe / 4 - yoe / 100 + doy;
        Some(Date { days: era * 146097 + doe - 719468 })
    }

    /// A date given directly as a day number.
    pub fn from_days(days: i64) -> (r: Date)
        ensures
            r@ == days,
    {
        Date { days }
    }

    /// The day number.
    pub fn days(&self) -> (r: i64)
        ensures
            r == self@,
    {
        self.days
    }

    /// The next calendar day.
    pub fn succ(self) -> (r: Date)
        requires
            self@ < i64::MAX,
        ensures
            r@ == self@ + 1,
    {
        Date { days: self.days + 1 }
    }

    /// The previous calendar day.
    pub fn pred(self) -> (r: Date)
        requires
            self@ > i64::MIN,
        ensures
            r@ == self@ - 1,
    {
        Date { days: self.days - 1 }
    }

    /// Signed count of days from `other` up to `self`.
    pub fn days_since(self, other: Date) -> (r: i64)
        requires
            i64::MIN <= self@ - other@ <= i64::MAX,
        ensures
            r == self@ - other@,
    {
        self.days - other.days
    }

    /// Weekday index: Monday is 0 through Sunday 6.
    pub fn weekday(self) -> (r: u8)
        requires
            DAY_MIN <= self@ <= DAY_MAX,
        ensures
            r as int == spec_weekday(self@),
    {
        let n: i64 = self.days + 719_162;
        let wd: i64 = n % 7;
        proof {
            vstd::arithmetic::div_mod::lemma_mod_multiples_vanish(102_737, self@ + 3, 7);
            assert(n as int == 7 * 102_737 + (self@ + 3));
        }
        wd as u8
    }

    pub fn eq_date(&self, other: &Date) -> (r: bool)
        ensures
            r == (self@ == other@),
    {
        self.days == other.days
    }

    pub fn lt_date(&self, other: &Date) -> (r: bool)
        ensures
            r == (self@ < other@),
    {
        self.days < other.days
    }

    pub fn le_date(&self, other: &Date) -> (r: bool)
        ensures
            r == (self@ <= other@),
    {
        self.days <= other.days
    }
}

} // verus!
