use mrp_engine::bucketing::{BucketingCalculator, BucketingStrategy};
use mrp_engine::calculator::create_component_time_buckets;
use mrp_engine::date::Date;
use mrp_engine::demand::{Demand, DemandType};
use mrp_engine::qty::Qty;
use mrp_engine::supply::{Supply, SupplyType};

fn ymd(y: i64, m: i64, d: i64) -> Date {
    Date::from_ymd(y, m, d).unwrap()
}

#[test]
fn test_create_buckets_daily() {
    let start = ymd(2025, 10, 1);
    let end = ymd(2025, 10, 5);

    let buckets =
        BucketingCalculator::create_buckets_by_strategy(start, end, BucketingStrategy::Daily);

    assert_eq!(buckets.len(), 5);
    assert_eq!(buckets[0], start);
    assert_eq!(buckets[4], end);
}

#[test]
fn test_merge_buckets() {
    let mut buckets = vec![ymd(2025, 10, 1), ymd(2025, 10, 3), ymd(2025, 10, 1), ymd(2025, 10, 2)];

    BucketingCalculator::merge_buckets(&mut buckets);

    assert_eq!(buckets.len(), 3);
    assert_eq!(buckets[0], ymd(2025, 10, 1));
    assert_eq!(buckets[1], ymd(2025, 10, 2));
    assert_eq!(buckets[2], ymd(2025, 10, 3));
}

#[test]
fn test_dynamic_time_buckets() {
    let base_buckets = vec![ymd(2025, 11, 1), ymd(2025, 11, 5)];

    let component_demands = vec![
        Demand::new(
            "PART-001".to_string(),
            Qty::from_int(100),
            ymd(2025, 11, 3),
            DemandType::Dependent,
        ),
        Demand::new(
            "PART-001".to_string(),
            Qty::from_int(50),
            ymd(2025, 11, 8),
            DemandType::Dependent,
        ),
    ];

    let component_supplies = vec![Supply::new(
        "PART-001".to_string(),
        Qty::from_int(30),
        ymd(2025, 11, 7),
        SupplyType::PurchaseOrder,
    )];

    let dynamic_buckets =
        create_component_time_buckets(&base_buckets, &component_demands, &component_supplies);

    assert_eq!(dynamic_buckets.len(), 5);

    assert_eq!(dynamic_buckets[0], ymd(2025, 11, 1));
    assert_eq!(dynamic_buckets[1], ymd(2025, 11, 3));
    assert_eq!(dynamic_buckets[2], ymd(2025, 11, 5));
    assert_eq!(dynamic_buckets[3], ymd(2025, 11, 7));
    assert_eq!(dynamic_buckets[4], ymd(2025, 11, 8));

    let unique_count = dynamic_buckets.len();
    let mut sorted = dynamic_buckets.clone();
    sorted.dedup();
    assert_eq!(sorted.len(), unique_count);
}

#[test]
fn test_create_time_buckets_unions_dates() {
    let demands = vec![
        Demand::new("A".to_string(), Qty::from_int(10), ymd(2025, 11, 5), DemandType::SalesOrder),
        Demand::new("B".to_string(), Qty::from_int(20), ymd(2025, 11, 1), DemandType::SalesOrder),
    ];
    let supplies = vec![Supply::new(
        "A".to_string(),
        Qty::from_int(5),
        ymd(2025, 11, 3),
        SupplyType::PurchaseOrder,
    )];

    let buckets = BucketingCalculator::create_time_buckets(&demands, &supplies, 90);
    assert_eq!(buckets.len(), 3);
    assert_eq!(buckets[0], ymd(2025, 11, 1));
    assert_eq!(buckets[1], ymd(2025, 11, 3));
    assert_eq!(buckets[2], ymd(2025, 11, 5));
}
