//! Working calendars.
//!
//! A `WorkCalendar` is a weekday mask (Monday first) plus a list of
//! holidays.  A day is working when it is no holiday and its weekday is
//! enabled.  Walking functions move over working days only; they are
//! specified against `spec_try_add_working` / `spec_try_sub_working`,
//! which in turn are characterised by the working-day count
//! `spec_working_between`.

use vstd::prelude::*;

use crate::date::{spec_weekday, Date, DAY_MAX, DAY_MIN};

verus! {

/// Shift data as an enterprise system delivers it: a weekday list and
/// holidays, to be turned into a working calendar.
#[derive(Debug, Clone)]
pub struct ShiftSchedule {
    /// Name of the calendar the schedule belongs to.
    pub calendar_id: String,
    /// Working weekdays, Monday first; entries past the seventh are
    /// ignored, missing ones count as non-working.
    pub working_days: Vec<bool>,
    /// The holidays of the schedule.
    pub holidays: Vec<Date>,
}

/// A working calendar: a weekday mask plus holidays.
#[derive(Clone, Debug)]
pub struct WorkCalendar {
    /// Working weekdays, Monday at index 0 through Sunday at index 6.
    pub working_days: [bool; 7],
    /// Days that never count as working, whatever their weekday.
    pub holidays: Vec<Date>,
    /// Name of the calendar.
    pub calendar_id: String,
}

impl WorkCalendar {
    /// Whether day `d` is listed as a holiday.
    pub open spec fn spec_is_holiday(&self, d: int) -> bool {
        exists|i: int| 0 <= i < self.holidays@.len() && self.holidays@[i]@ == d
    }

    /// Whether day `d` is a working day.
    pub open spec fn spec_is_working(&self, d: int) -> bool {
        !self.spec_is_holiday(d) && self.working_days@[spec_weekday(d)]
    }

    /// Count of working days in the interval `(a, b]`.
    pub open spec fn spec_working_between(&self, a: int, b: int) -> int
        decreases b - a,
    {
        if b <= a {
            0
        } else {
            self.spec_working_between(a, b - 1) + if self.spec_is_working(b) {
                1int
            } else {
                0int
            }
        }
    }

    /// Result of walking `n` working days forward from `d`, day by day,
    /// inside the supported date range; `None` when the range runs out.
    pub open spec fn spec_try_add_working(&self, d: int, n: int) -> Option<int>
        decreases DAY_MAX - d,
    {
        if n <= 0 {
            Some(d)
        } else if d >= DAY_MAX {
            None
        } else if self.spec_is_working(d + 1) {
            self.spec_try_add_working(d + 1, n - 1)
        } else {
            self.spec_try_add_working(d + 1, n)
        }
    }

    /// Result of walking `n` working days backward from `d`, day by day,
    /// inside the supported date range; `None` when the range runs out.
    pub open spec fn spec_try_sub_working(&self, d: int, n: int) -> Option<int>
        decreases d - DAY_MIN,
    {
        if n <= 0 {
            Some(d)
        } else if d <= DAY_MIN {
            None
        } else if self.spec_is_working(d - 1) {
            self.spec_try_sub_working(d - 1, n - 1)
        } else {
            self.spec_try_sub_working(d - 1, n)
        }
    }

    /// A calendar with the given name and a Monday-to-Friday week.
    pub fn new(calendar_id: String) -> (r: WorkCalendar)
        ensures
            r.working_days@ =~= seq![true, true, true, true, true, false, false],
            r.holidays@ =~= Seq::<Date>::empty(),
            r.calendar_id == calendar_id,
    {
        WorkCalendar {
            working_days: [true, true, true, true, true, false, false],
            holidays: Vec::new(),
            calendar_id,
        }
    }

    /// A calendar on which every day of the week is working.
    pub fn new_24_7(calendar_id: String) -> (r: WorkCalendar)
        ensures
            r.working_days@ =~= seq![true, true, true, true, true, true, true],
            r.holidays@ =~= Seq::<Date>::empty(),
            r.calendar_id == calendar_id,
    {
        WorkCalendar {
            working_days: [true, true, true, true, true, true, true],
            holidays: Vec::new(),
            calendar_id,
        }
    }

    /// Replaces the weekday mask.
    pub fn with_working_days(self, working_days: [bool; 7]) -> (r: WorkCalendar)
        ensures
            r.working_days == working_days,
            r.holidays == self.holidays,
            r.calendar_id == self.calendar_id,
    {
        WorkCalendar { working_days, ..self }
    }

    /// Replaces the holiday list.
    pub fn with_holidays(self, holidays: Vec<Date>) -> (r: WorkCalendar)
        ensures
            r.holidays == holidays,
            r.working_days == self.working_days,
            r.calendar_id == self.calendar_id,
    {
        WorkCalendar { holidays, ..self }
    }

    /// Adds one holiday; a day already listed is not listed twice.
    pub fn add_holiday(&mut self, date: Date)
        ensures
            forall|d: int|
                final(self).spec_is_holiday(d) <==> old(self).spec_is_holiday(d) || d == date@,
            final(self).working_days == old(self).working_days,
            final(self).calendar_id == old(self).calendar_id,
    {
        let mut i: usize = 0;
        while i < self.holidays.len()
            invariant
                0 <= i <= self.holidays@.len(),
                forall|j: int| 0 <= j < i ==> self.holidays@[j]@ != date@,
                *self == *old(self),
            decreases self.holidays@.len() - i,
        {
            if self.holidays[i].eq_date(&date) {
                return ;
            }
            i += 1;
        }
        self.holidays.push(date);
        proof {
            assert forall|d: int|
                final(self).spec_is_holiday(d) <==> old(self).spec_is_holiday(d)
                    || d == date@ by {
                if self.spec_is_holiday(d) {
                    let k = choose|k: int|
                        0 <= k < self.holidays@.len() && self.holidays@[k]@ == d;
                    if k < old(self).holidays@.len() {
                        assert(old(self).holidays@[k]@ == d);
                    }
                }
                if old(self).spec_is_holiday(d) {
                    let k = choose|k: int|
                        0 <= k < old(self).holidays@.len() && old(self).holidays@[k]@ == d;
                    assert(self.holidays@[k]@ == d);
                }
                if d == date@ {
                    assert(self.holidays@[old(self).holidays@.len() as int]@ == d);
                }
            }
        }
    }

    /// Whether `date` is a working day of this calendar.
    pub fn is_working_day(&self, date: Date) -> (r: bool)
        requires
            DAY_MIN <= date@ <= DAY_MAX,
        ensures
            r == self.spec_is_working(date@),
    {
        let mut i: usize = 0;
        while i < self.holidays.len()
            invariant
                0 <= i <= self.holidays@.len(),
                forall|j: int| 0 <= j < i ==> self.holidays@[j]@ != date@,
            decreases self.holidays@.len() - i,
        {
            if self.holidays[i].eq_date(&date) {
                return false;
            }
            i += 1;
        }
        let wd = date.weekday();
        self.working_days[wd as usize]
    }

    /// Walks `days` working days forward from `start_date`; `None` when
    /// the supported date range runs out first.
    pub fn try_add_working_days(&self, start_date: Date, days: u32) -> (r: Option<Date>)
        requires
            DAY_MIN <= start_date@ <= DAY_MAX,
        ensures
            match r {
                Some(d) => self.spec_try_add_working(start_date@, days as int) == Some(d@)
                    && DAY_MIN <= d@ <= DAY_MAX,
                None => self.spec_try_add_working(start_date@, days as int) is None,
            },
    {
        let mut current = start_date;
        let mut remaining = days;
        while remaining > 0
            invariant
                DAY_MIN <= current@ <= DAY_MAX,
                remaining <= days,
                self.spec_try_add_working(start_date@, days as int) == self.spec_try_add_working(
                    current@,
                    remaining as int,
                ),
            ensures
                remaining == 0 || current@ == DAY_MAX,
                self.spec_try_add_working(start_date@, days as int) == self.spec_try_add_working(
                    current@,
                    remaining as int,
                ),
                DAY_MIN <= current@ <= DAY_MAX,
            decreases remaining, DAY_MAX - current@,
        {
            if current.days() >= DAY_MAX {
                break ;
            }
            current = current.succ();
            if self.is_working_day(current) {
                remaining -= 1;
            }
        }
        if remaining == 0 {
            Some(current)
        } else {
            None
        }
    }

    /// Walks `days` working days backward from `start_date`; `None` when
    /// the supported date range runs out first.
    pub fn try_subtract_working_days(&self, start_date: Date, days: u32) -> (r: Option<Date>)
        requires
            DAY_MIN <= start_date@ <= DAY_MAX,
        ensures
            match r {
                Some(d) => self.spec_try_sub_working(start_date@, days as int) == Some(d@)
                    && DAY_MIN <= d@ <= DAY_MAX,
                None => self.spec_try_sub_working(start_date@, days as int) is None,
            },
    {
        let mut current = start_date;
        let mut remaining = days;
        while remaining > 0
            invariant
                DAY_MIN <= current@ <= DAY_MAX,
                remaining <= days,
                self.spec_try_sub_working(start_date@, days as int) == self.spec_try_sub_working(
                    current@,
                    remaining as int,
                ),
            ensures
                remaining == 0 || current@ == DAY_MIN,
                self.spec_try_sub_working(start_date@, days as int) == self.spec_try_sub_working(
                    current@,
                    remaining as int,
                ),
                DAY_MIN <= current@ <= DAY_MAX,
            decreases remaining, current@ - DAY_MIN,
        {
            if current.days() <= DAY_MIN {
                break ;
            }
            current = current.pred();
            if self.is_working_day(current) {
                remaining -= 1;
            }
        }
        if remaining == 0 {
            Some(current)
        } else {
            None
        }
    }

    /// Walks `days` working days forward from `start_date`.
    pub fn add_working_days(&self, start_date: Date, days: u32) -> (r: Date)
        requires
            DAY_MIN <= start_date@ <= DAY_MAX,
            self.spec_try_add_working(start_date@, days as int) is Some,
        ensures
            Some(r@) == self.spec_try_add_working(start_date@, days as int),
            DAY_MIN <= r@ <= DAY_MAX,
    {
        match self.try_add_working_days(start_date, days) {
            Some(d) => d,
            None => start_date,
        }
    }

    /// Walks `days` working days backward from `start_date`.
    pub fn subtract_working_days(&self, start_date: Date, days: u32) -> (r: Date)
        requires
            DAY_MIN <= start_date@ <= DAY_MAX,
            self.spec_try_sub_working(start_date@, days as int) is Some,
        ensures
            Some(r@) == self.spec_try_sub_working(start_date@, days as int),
            DAY_MIN <= r@ <= DAY_MAX,
    {
        match self.try_subtract_working_days(start_date, days) {
            Some(d) => d,
            None => start_date,
        }
    }

    /// Counts the working days in `(start, end]`.
    pub fn working_days_between(&self, start: Date, end: Date) -> (r: u32)
        requires
            DAY_MIN <= start@ <= DAY_MAX,
            DAY_MIN <= end@ <= DAY_MAX,
            self.spec_working_between(start@, end@) <= u32::MAX,
        ensures
            r as int == self.spec_working_between(start@, end@),
    {
        let mut count: u32 = 0;
        let mut current = start;
        while current.lt_date(&end)
            invariant
                DAY_MIN <= current@ <= DAY_MAX,
                start@ <= current@,
                current@ <= end@ || current@ == start@,
                count as int == self.spec_working_between(start@, current@),
                self.spec_working_between(start@, end@) <= u32::MAX,
                DAY_MIN <= end@ <= DAY_MAX,
            decreases end@ - current@,
        {
            proof {
                self.lemma_working_between_bounds(start@, current@ + 1, end@);
            }
            current = current.succ();
            if self.is_working_day(current) {
                count += 1;
            }
        }
        count
    }

    /// The first working day after `date`.
    pub fn next_working_day(&self, date: Date) -> (r: Date)
        requires
            DAY_MIN <= date@ <= DAY_MAX,
            self.spec_try_add_working(date@, 1) is Some,
        ensures
            Some(r@) == self.spec_try_add_working(date@, 1),
            DAY_MIN <= r@ <= DAY_MAX,
    {
        self.add_working_days(date, 1)
    }

    /// The last working day before `date`.
    pub fn previous_working_day(&self, date: Date) -> (r: Date)
        requires
            DAY_MIN <= date@ <= DAY_MAX,
            self.spec_try_sub_working(date@, 1) is Some,
        ensures
            Some(r@) == self.spec_try_sub_working(date@, 1),
            DAY_MIN <= r@ <= DAY_MAX,
    {
        self.subtract_working_days(date, 1)
    }

    /// A calendar built from a weekday list and holidays; weekdays past
    /// the seventh entry are ignored, missing ones count as non-working.
    pub fn from_shift_data(
        calendar_id: String,
        working_days_vec: Vec<bool>,
        holidays: Vec<Date>,
    ) -> (r: WorkCalendar)
        ensures
            forall|k: int|
                0 <= k < 7 ==> r.working_days@[k] == (k < working_days_vec@.len()
                    && working_days_vec@[k]),
            r.holidays == holidays,
            r.calendar_id == calendar_id,
    {
        let mut working_days: [bool; 7] = [false, false, false, false, false, false, false];
        let mut i: usize = 0;
        while i < 7
            invariant
                0 <= i <= 7,
                forall|k: int|
                    0 <= k < i ==> working_days@[k] == (k < working_days_vec@.len()
                        && working_days_vec@[k]),
                forall|k: int| i <= k < 7 ==> working_days@[k] == false,
            decreases 7 - i,
        {
            if i < working_days_vec.len() {
                let v = working_days_vec[i];
                working_days[i] = v;
            }
            i += 1;
        }
        WorkCalendar { working_days, holidays, calendar_id }
    }

    /// A calendar to fall back on when no shift data is available: every
    /// day is working.
    pub fn fallback_calendar() -> (r: WorkCalendar)
        ensures
            r.working_days@ =~= seq![true, true, true, true, true, true, true],
            r.holidays@ =~= Seq::<Date>::empty(),
    {
        Self::new_24_7(String::from_str("FALLBACK-24/7"))
    }

    /// The working-day count over `(a, c]` splits at any `b` between.
    pub proof fn lemma_working_between_split(&self, a: int, b: int, c: int)
        requires
            a <= b <= c,
        ensures
            self.spec_working_between(a, c) == self.spec_working_between(a, b)
                + self.spec_working_between(b, c),
        decreases c - b,
    {
        if c > b {
            self.lemma_working_between_split(a, b, c - 1);
        }
    }

    /// The working-day count is never negative.
    pub proof fn lemma_working_between_nonneg(&self, a: int, b: int)
        ensures
            0 <= self.spec_working_between(a, b),
        decreases b - a,
    {
        if b > a {
            self.lemma_working_between_nonneg(a, b - 1);
        }
    }

    /// The working-day count is non-negative and monotone in the interval.
    pub proof fn lemma_working_between_bounds(&self, a: int, b: int, c: int)
        requires
            a <= b <= c,
        ensures
            0 <= self.spec_working_between(a, b) <= self.spec_working_between(a, c),
    {
        self.lemma_working_between_nonneg(a, b);
        self.lemma_working_between_nonneg(b, c);
        self.lemma_working_between_split(a, b, c);
    }
}


impl WorkCalendar {
    /// A working day inside the interval makes the count positive.
    pub proof fn lemma_working_between_ge_one(&self, a: int, b: int, w: int)
        requires
            a < w <= b,
            self.spec_is_working(w),
        ensures
            self.spec_working_between(a, b) >= 1,
    {
        self.lemma_working_between_split(a, w, b);
        self.lemma_working_between_nonneg(a, w - 1);
        self.lemma_working_between_nonneg(w, b);
        assert(self.spec_working_between(a, w) == self.spec_working_between(a, w - 1) + 1);
    }

    /// Two working days with the same count from a common start agree.
    pub proof fn lemma_working_day_unique(&self, a: int, x: int, y: int)
        requires
            a < x,
            a < y,
            self.spec_is_working(x),
            self.spec_is_working(y),
            self.spec_working_between(a, x) == self.spec_working_between(a, y),
        ensures
            x == y,
    {
        if x < y {
            self.lemma_working_between_split(a, x, y);
            self.lemma_working_between_ge_one(x, y, y);
        }
        if y < x {
            self.lemma_working_between_split(a, y, x);
            self.lemma_working_between_ge_one(y, x, x);
        }
    }

    /// A forward walk that lands counts exactly its days, on a working
    /// day whenever it walked at all.
    pub proof fn lemma_try_add_count(&self, d: int, n: int)
        requires
            n >= 0,
            self.spec_try_add_working(d, n) is Some,
        ensures
            d <= self.spec_try_add_working(d, n)->0,
            self.spec_working_between(d, self.spec_try_add_working(d, n)->0) == n,
            n > 0 ==> self.spec_is_working(self.spec_try_add_working(d, n)->0)
                && d < self.spec_try_add_working(d, n)->0,
        decreases DAY_MAX - d,
    {
        if n == 0 {
        } else {
            let r = self.spec_try_add_working(d, n)->0;
            assert(self.spec_working_between(d, d) == 0);
            if self.spec_is_working(d + 1) {
                self.lemma_try_add_count(d + 1, n - 1);
                self.lemma_working_between_split(d, d + 1, r);
                assert(self.spec_working_between(d, d + 1) == 1);
            } else {
                self.lemma_try_add_count(d + 1, n);
                self.lemma_working_between_split(d, d + 1, r);
                assert(self.spec_working_between(d, d + 1) == 0);
            }
        }
    }

    /// A backward walk that lands counts exactly its days over the
    /// interval it walked, from a working day whenever it walked.
    pub proof fn lemma_try_sub_count(&self, d: int, n: int)
        requires
            n >= 0,
            self.spec_try_sub_working(d, n) is Some,
        ensures
            self.spec_try_sub_working(d, n)->0 <= d,
            self.spec_working_between(self.spec_try_sub_working(d, n)->0 - 1, d - 1) == n,
            n > 0 ==> self.spec_is_working(self.spec_try_sub_working(d, n)->0)
                && self.spec_try_sub_working(d, n)->0 <= d - 1,
        decreases d - DAY_MIN,
    {
        if n == 0 {
        } else {
            let r = self.spec_try_sub_working(d, n)->0;
            if self.spec_is_working(d - 1) {
                self.lemma_try_sub_count(d - 1, n - 1);
                self.lemma_working_between_split(r - 1, d - 2, d - 1);
                assert(self.spec_working_between(d - 2, d - 1) == 1) by {
                    assert(self.spec_working_between(d - 2, d - 2) == 0);
                }
            } else {
                self.lemma_try_sub_count(d - 1, n);
                self.lemma_working_between_split(r - 1, d - 2, d - 1);
                assert(self.spec_working_between(d - 2, d - 1) == 0) by {
                    assert(self.spec_working_between(d - 2, d - 2) == 0);
                }
            }
        }
    }

    /// The lead-time round trip of a planned order: walking the lead
    /// time forward again from the order day lands on the required day
    /// itself, or, when the required day is not working, on the first
    /// working day after it.
    pub proof fn lemma_lead_time_round_trip(&self, required: int, lead: u32)
        requires
            self.spec_try_sub_working(required, lead as int) is Some,
            self.spec_try_add_working(
                self.spec_try_sub_working(required, lead as int)->0,
                lead as int,
            ) is Some,
        ensures
            ({
                let od = self.spec_try_sub_working(required, lead as int)->0;
                let back = self.spec_try_add_working(od, lead as int)->0;
                &&& lead == 0 ==> back == required
                &&& self.spec_is_working(required) ==> back == required
                &&& (lead > 0 && !self.spec_is_working(required)) ==> back > required
                    && self.spec_is_working(back) && (forall|e: int|
                    required < e < back ==> !self.spec_is_working(e))
            }),
    {
        let n = lead as int;
        let od = self.spec_try_sub_working(required, n)->0;
        let back = self.spec_try_add_working(od, n)->0;
        if n == 0 {
        } else {
            self.lemma_try_sub_count(required, n);
            self.lemma_try_add_count(od, n);
            self.lemma_working_between_split(od - 1, od, required - 1);
            assert(self.spec_working_between(od - 1, od) == 1) by {
                assert(self.spec_working_between(od - 1, od - 1) == 0);
            }
            assert(self.spec_working_between(od, required - 1) == n - 1);
            self.lemma_working_between_split(od, required - 1, required);
            if self.spec_is_working(required) {
                assert(self.spec_working_between(od, required) == n);
                self.lemma_working_day_unique(od, required, back);
            } else {
                assert(self.spec_working_between(od, required) == n - 1);
                if back <= required {
                    self.lemma_working_between_bounds(od, back, required);
                    assert(false);
                }
                self.lemma_working_between_split(od, required, back);
                assert(self.spec_working_between(required, back) == 1);
                assert forall|e: int| required < e < back implies !self.spec_is_working(e) by {
                    if self.spec_is_working(e) {
                        self.lemma_working_between_split(required, e, back);
                        self.lemma_working_between_ge_one(required, e, e);
                        self.lemma_working_between_ge_one(e, back, back);
                    }
                }
            }
        }
    }
}

} // verus!
