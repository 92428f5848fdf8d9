use mrp_engine::date::Date;
use mrp_engine::demand::{Demand, DemandType};
use mrp_engine::netting::NettingCalculator;
use mrp_engine::qty::Qty;
use mrp_engine::supply::{Supply, SupplyType};

fn ymd(y: i64, m: i64, d: i64) -> Date {
    Date::from_ymd(y, m, d).unwrap()
}

#[test]
fn test_netting_calculation_simple() {
    let time_buckets = vec![ymd(2025, 11, 1), ymd(2025, 11, 5), ymd(2025, 11, 10)];

    let demands = vec![
        Demand::new(
            "TEST-001".to_string(),
            Qty::from_int(100),
            ymd(2025, 11, 1),
            DemandType::SalesOrder,
        ),
        Demand::new(
            "TEST-001".to_string(),
            Qty::from_int(50),
            ymd(2025, 11, 5),
            DemandType::SalesOrder,
        ),
    ];

    let supplies = vec![Supply::new(
        "TEST-001".to_string(),
        Qty::from_int(30),
        ymd(2025, 11, 5),
        SupplyType::PurchaseOrder,
    )];

    let initial_inventory = Qty::from_int(20);
    let safety_stock = Qty::from_int(10);

    let result = NettingCalculator::calculate(
        &demands,
        &supplies,
        initial_inventory,
        safety_stock,
        &time_buckets,
        false,
    )
    .unwrap();

    assert_eq!(result.len(), 3);

    assert_eq!(result[0].gross_requirement, Qty::from_int(100));
    assert_eq!(result[0].scheduled_receipt, Qty::zero());
    assert_eq!(result[0].net_requirement, Qty::from_int(90));

    assert_eq!(result[1].gross_requirement, Qty::from_int(50));
    assert_eq!(result[1].scheduled_receipt, Qty::from_int(30));
}

#[test]
fn test_netting_with_sufficient_inventory() {
    let time_buckets = vec![ymd(2025, 11, 1)];

    let demands = vec![Demand::new(
        "TEST-002".to_string(),
        Qty::from_int(50),
        ymd(2025, 11, 1),
        DemandType::SalesOrder,
    )];

    let supplies = vec![];
    let initial_inventory = Qty::from_int(100);
    let safety_stock = Qty::from_int(20);

    let result = NettingCalculator::calculate(
        &demands,
        &supplies,
        initial_inventory,
        safety_stock,
        &time_buckets,
        false,
    )
    .unwrap();

    assert_eq!(result.len(), 1);
    assert_eq!(result[0].net_requirement, Qty::zero());
    assert_eq!(result[0].projected_on_hand, Qty::from_int(50));
}

#[test]
fn test_netting_cumulative_effect() {
    let time_buckets = vec![ymd(2025, 11, 1), ymd(2025, 11, 2), ymd(2025, 11, 3)];

    let demands = vec![
        Demand::new(
            "TEST-003".to_string(),
            Qty::from_int(30),
            ymd(2025, 11, 1),
            DemandType::SalesOrder,
        ),
        Demand::new(
            "TEST-003".to_string(),
            Qty::from_int(30),
            ymd(2025, 11, 2),
            DemandType::SalesOrder,
        ),
        Demand::new(
            "TEST-003".to_string(),
            Qty::from_int(30),
            ymd(2025, 11, 3),
            DemandType::SalesOrder,
        ),
    ];

    let supplies = vec![];
    let initial_inventory = Qty::from_int(100);
    let safety_stock = Qty::zero();

    let result = NettingCalculator::calculate(
        &demands,
        &supplies,
        initial_inventory,
        safety_stock,
        &time_buckets,
        false,
    )
    .unwrap();

    assert_eq!(result[0].projected_on_hand, Qty::from_int(70));
    assert_eq!(result[1].projected_on_hand, Qty::from_int(40));
    assert_eq!(result[2].projected_on_hand, Qty::from_int(10));
}

#[test]
fn test_allow_negative_inventory_false() {
    let time_buckets = vec![ymd(2025, 11, 1)];

    let demands = vec![Demand::new(
        "TEST-NEG-1".to_string(),
        Qty::from_int(100),
        ymd(2025, 11, 1),
        DemandType::SalesOrder,
    )];

    let supplies = vec![];
    let initial_inventory = Qty::from_int(30);
    let safety_stock = Qty::from_int(10);

    let result = NettingCalculator::calculate(
        &demands,
        &supplies,
        initial_inventory,
        safety_stock,
        &time_buckets,
        false,
    )
    .unwrap();

    assert_eq!(result.len(), 1);
    assert_eq!(result[0].projected_on_hand, Qty::from_int(-70));
    assert_eq!(result[0].net_requirement, Qty::from_int(80));
}

#[test]
fn test_allow_negative_inventory_true() {
    let time_buckets = vec![ymd(2025, 11, 1)];

    let demands = vec![Demand::new(
        "TEST-NEG-2".to_string(),
        Qty::from_int(100),
        ymd(2025, 11, 1),
        DemandType::SalesOrder,
    )];

    let supplies = vec![];
    let initial_inventory = Qty::from_int(30);
    let safety_stock = Qty::from_int(10);

    let result = NettingCalculator::calculate(
        &demands,
        &supplies,
        initial_inventory,
        safety_stock,
        &time_buckets,
        true,
    )
    .unwrap();

    assert_eq!(result.len(), 1);
    assert_eq!(result[0].projected_on_hand, Qty::from_int(-70));
    assert_eq!(result[0].net_requirement, Qty::from_int(70));
}

#[test]
fn test_allow_negative_inventory_with_positive_stock() {
    let time_buckets = vec![ymd(2025, 11, 1)];

    let demands = vec![Demand::new(
        "TEST-NEG-3".to_string(),
        Qty::from_int(50),
        ymd(2025, 11, 1),
        DemandType::SalesOrder,
    )];

    let supplies = vec![];
    let initial_inventory = Qty::from_int(100);
    let safety_stock = Qty::from_int(30);

    let result = NettingCalculator::calculate(
        &demands,
        &supplies,
        initial_inventory,
        safety_stock,
        &time_buckets,
        true,
    )
    .unwrap();

    assert_eq!(result.len(), 1);
    assert_eq!(result[0].projected_on_hand, Qty::from_int(50));
    assert_eq!(result[0].net_requirement, Qty::zero());
}
