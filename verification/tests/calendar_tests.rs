use mrp_engine::calendar::WorkCalendar;
use mrp_engine::date::Date;

fn ymd(y: i64, m: i64, d: i64) -> Date {
    Date::from_ymd(y, m, d).unwrap()
}

#[test]
fn test_create_calendar() {
    let calendar = WorkCalendar::new("TEST".to_string());
    assert_eq!(calendar.calendar_id, "TEST");

    let monday = ymd(2025, 10, 6);
    assert!(calendar.is_working_day(monday));
}

#[test]
fn test_add_working_days() {
    let calendar = WorkCalendar::new("TEST".to_string());

    let start = ymd(2025, 10, 6);

    let result = calendar.add_working_days(start, 5);
    assert_eq!(result, ymd(2025, 10, 13));
}

#[test]
fn test_subtract_working_days() {
    let calendar = WorkCalendar::new("TEST".to_string());

    let start = ymd(2025, 10, 13);

    let result = calendar.subtract_working_days(start, 5);
    assert_eq!(result, ymd(2025, 10, 6));
}

#[test]
fn test_holidays() {
    let mut calendar = WorkCalendar::new("TEST".to_string());

    let holiday = ymd(2025, 10, 10);
    calendar.add_holiday(holiday);

    assert!(!calendar.is_working_day(holiday));
}

#[test]
fn test_24_7_calendar() {
    let calendar = WorkCalendar::new_24_7("24/7".to_string());

    let saturday = ymd(2025, 10, 11);
    let sunday = ymd(2025, 10, 12);

    assert!(calendar.is_working_day(saturday));
    assert!(calendar.is_working_day(sunday));
}

#[test]
fn test_working_days_between() {
    let calendar = WorkCalendar::new("TEST".to_string());

    let start = ymd(2025, 10, 6);
    let end = ymd(2025, 10, 13);

    let count = calendar.working_days_between(start, end);
    assert_eq!(count, 5);
}

#[test]
fn test_weekday_of_known_dates() {
    assert_eq!(ymd(2025, 10, 6).weekday(), 0);
    assert_eq!(ymd(2025, 10, 12).weekday(), 6);
    assert_eq!(ymd(1970, 1, 1).weekday(), 3);
}

#[test]
fn test_round_trip_over_weekend() {
    let calendar = WorkCalendar::new("TEST".to_string());
    let friday = ymd(2025, 10, 10);
    let forward = calendar.add_working_days(friday, 1);
    assert_eq!(forward, ymd(2025, 10, 13));
    assert_eq!(calendar.subtract_working_days(forward, 1), friday);
}

#[test]
fn test_next_and_previous_working_day() {
    let calendar = WorkCalendar::new("TEST".to_string());
    let friday = ymd(2025, 10, 10);
    assert_eq!(calendar.next_working_day(friday), ymd(2025, 10, 13));
    assert_eq!(calendar.previous_working_day(ymd(2025, 10, 13)), friday);
}

#[test]
fn test_from_shift_data() {
    let calendar = WorkCalendar::from_shift_data(
        "FACTORY-6DAY".to_string(),
        vec![true, true, true, true, true, true, false],
        vec![],
    );
    let saturday = Date::from_ymd(2025, 10, 11).unwrap();
    let sunday = Date::from_ymd(2025, 10, 12).unwrap();
    assert!(calendar.is_working_day(saturday));
    assert!(!calendar.is_working_day(sunday));
}
