use mrp_engine::calendar::WorkCalendar;
use mrp_engine::date::Date;
use mrp_engine::lead_time::LeadTimeCalculator;

fn ymd(y: i64, m: i64, d: i64) -> Date {
    Date::from_ymd(y, m, d).unwrap()
}

#[test]
fn test_lead_time_calculation_24_7() {
    let calendar = WorkCalendar::new_24_7("FACTORY-24/7".to_string());
    let required_date = ymd(2025, 11, 1);
    let lead_time = 5;

    let order_date = LeadTimeCalculator::calculate_order_date(required_date, lead_time, &calendar);

    let delivery_date = LeadTimeCalculator::calculate_delivery_date(order_date, lead_time, &calendar);

    assert_eq!(delivery_date, required_date);

    let expected_order_date = ymd(2025, 10, 27);
    assert_eq!(order_date, expected_order_date);
}

#[test]
fn test_lead_time_calculation_weekday_only() {
    let calendar = WorkCalendar::new("DEFAULT".to_string());
    let required_date = ymd(2025, 11, 3);
    let lead_time = 5;

    let order_date = LeadTimeCalculator::calculate_order_date(required_date, lead_time, &calendar);

    let delivery_date = LeadTimeCalculator::calculate_delivery_date(order_date, lead_time, &calendar);

    assert_eq!(delivery_date, required_date);
}

#[test]
fn test_lead_time_with_custom_schedule() {
    let mut working_days = [true; 7];
    working_days[6] = false;

    let calendar = WorkCalendar::new("FACTORY-6DAY".to_string()).with_working_days(working_days);

    let monday = ymd(2025, 11, 3);
    let lead_time = 6;

    let order_date = LeadTimeCalculator::calculate_order_date(monday, lead_time, &calendar);

    let delivery_date = LeadTimeCalculator::calculate_delivery_date(order_date, lead_time, &calendar);

    assert_eq!(delivery_date, monday);
}

#[test]
fn test_working_days_between_wrapper() {
    let calendar = WorkCalendar::new("DEFAULT".to_string());
    let count = LeadTimeCalculator::working_days_between(ymd(2025, 10, 6), ymd(2025, 10, 13), &calendar);
    assert_eq!(count, 5);
}
