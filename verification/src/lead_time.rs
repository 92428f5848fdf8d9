//! Lead-time date arithmetic over a working calendar.

use vstd::prelude::*;

use crate::calendar::WorkCalendar;
use crate::date::{Date, DAY_MAX, DAY_MIN};

verus! {

/// Derives order and delivery dates from lead times.
pub struct LeadTimeCalculator;

impl LeadTimeCalculator {
    /// The day an order must be placed: the lead time walked backward
    /// over working days from the required day.
    pub fn calculate_order_date(required_date: Date, lead_time_days: u32, calendar: &WorkCalendar)
        -> (r: Date)
        requires
            DAY_MIN <= required_date@ <= DAY_MAX,
            calendar.spec_try_sub_working(required_date@, lead_time_days as int) is Some,
        ensures
            Some(r@) == calendar.spec_try_sub_working(required_date@, lead_time_days as int),
            DAY_MIN <= r@ <= DAY_MAX,
    {
        calendar.subtract_working_days(required_date, lead_time_days)
    }

    /// The day an order becomes available: the lead time walked forward
    /// over working days from the order day.
    pub fn calculate_delivery_date(order_date: Date, lead_time_days: u32, calendar: &WorkCalendar)
        -> (r: Date)
        requires
            DAY_MIN <= order_date@ <= DAY_MAX,
            calendar.spec_try_add_working(order_date@, lead_time_days as int) is Some,
        ensures
            Some(r@) == calendar.spec_try_add_working(order_date@, lead_time_days as int),
            DAY_MIN <= r@ <= DAY_MAX,
    {
        calendar.add_working_days(order_date, lead_time_days)
    }

    /// The count of working days in `(start, end]`.
    pub fn working_days_between(start: Date, end: Date, calendar: &WorkCalendar) -> (r: u32)
        requires
            DAY_MIN <= start@ <= DAY_MAX,
            DAY_MIN <= end@ <= DAY_MAX,
            calendar.spec_working_between(start@, end@) <= u32::MAX,
        ensures
            r as int == calendar.spec_working_between(start@, end@),
    {
        calendar.working_days_between(start, end)
    }
}

} // verus!
