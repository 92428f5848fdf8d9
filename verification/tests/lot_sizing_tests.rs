use mrp_engine::calendar::WorkCalendar;
use mrp_engine::config::{LotSizingRule, MrpConfig, ProcurementType};
use mrp_engine::date::Date;
use mrp_engine::lot_sizing::LotSizingCalculator;
use mrp_engine::netting::NetRequirement;
use mrp_engine::qty::Qty;

fn ymd(y: i64, m: i64, d: i64) -> Date {
    Date::from_ymd(y, m, d).unwrap()
}

fn net_req(date: Date, gross: i64, receipt: i64, poh: i64, net: i64) -> NetRequirement {
    NetRequirement {
        date,
        gross_requirement: Qty::from_int(gross),
        scheduled_receipt: Qty::from_int(receipt),
        projected_on_hand: Qty::from_int(poh),
        net_requirement: Qty::from_int(net),
    }
}

#[test]
fn test_lot_for_lot() {
    let calendar = WorkCalendar::new("DEFAULT".to_string());
    let config = MrpConfig::new("TEST-001".to_string(), 5, ProcurementType::Make);

    let net_reqs = vec![
        net_req(ymd(2025, 11, 1), 100, 0, 0, 100),
        net_req(ymd(2025, 11, 5), 50, 0, 0, 50),
    ];

    let result = LotSizingCalculator::lot_for_lot("TEST-001", &net_reqs, &config, &calendar)
        .unwrap();

    assert_eq!(result.len(), 2);
    assert_eq!(result[0].quantity, Qty::from_int(100));
    assert_eq!(result[1].quantity, Qty::from_int(50));
}

#[test]
fn test_fixed_order_quantity() {
    let calendar = WorkCalendar::new("DEFAULT".to_string());
    let config = MrpConfig::new("TEST-002".to_string(), 3, ProcurementType::Buy)
        .with_lot_sizing_rule(LotSizingRule::FixedOrderQuantity)
        .with_fixed_lot_size(Qty::from_int(100));

    let net_reqs = vec![net_req(ymd(2025, 11, 1), 150, 0, 0, 150)];

    let result =
        LotSizingCalculator::fixed_order_quantity("TEST-002", &net_reqs, &config, &calendar)
            .unwrap();

    assert!(!result.is_empty());
    assert_eq!(result[0].quantity, Qty::from_int(200));
}

#[test]
fn test_period_order_quantity() {
    let calendar = WorkCalendar::new("DEFAULT".to_string());
    let config = MrpConfig::new("TEST-003".to_string(), 7, ProcurementType::Make)
        .with_lot_sizing_rule(LotSizingRule::PeriodOrderQuantity);

    let net_reqs = vec![
        net_req(ymd(2025, 11, 1), 0, 0, 0, 50),
        net_req(ymd(2025, 11, 3), 0, 0, 0, 30),
        net_req(ymd(2025, 11, 10), 0, 0, 0, 40),
    ];

    let result =
        LotSizingCalculator::period_order_quantity("TEST-003", &net_reqs, &config, &calendar)
            .unwrap();

    assert_eq!(result.len(), 2);
    assert_eq!(result[0].quantity, Qty::from_int(80));
    assert_eq!(result[1].quantity, Qty::from_int(40));
}

#[test]
fn test_min_max() {
    let calendar = WorkCalendar::new("DEFAULT".to_string());
    let config = MrpConfig::new("TEST-004".to_string(), 2, ProcurementType::Buy)
        .with_lot_sizing_rule(LotSizingRule::MinMax)
        .with_minimum_order_qty(Qty::from_int(50))
        .with_maximum_order_qty(Qty::from_int(200));

    let net_reqs = vec![net_req(ymd(2025, 11, 1), 100, 0, 30, 0)];

    let result = LotSizingCalculator::min_max("TEST-004", &net_reqs, &config, &calendar).unwrap();

    assert!(!result.is_empty());
    assert!(result[0].quantity <= Qty::from_int(200));
}

#[test]
fn test_order_quantity_constraints() {
    let calendar = WorkCalendar::new("DEFAULT".to_string());
    let config = MrpConfig::new("TEST-005".to_string(), 3, ProcurementType::Make)
        .with_minimum_order_qty(Qty::from_int(50))
        .with_maximum_order_qty(Qty::from_int(500))
        .with_order_multiple(Qty::from_int(25));

    let net_reqs = vec![net_req(ymd(2025, 11, 1), 0, 0, 0, 123)];

    let result = LotSizingCalculator::lot_for_lot("TEST-005", &net_reqs, &config, &calendar)
        .unwrap();

    assert_eq!(result.len(), 1);
    assert_eq!(result[0].quantity, Qty::from_int(125));
}

#[test]
fn test_missing_lot_size_error() {
    let calendar = WorkCalendar::new("DEFAULT".to_string());
    let config = MrpConfig::new("TEST-006".to_string(), 3, ProcurementType::Buy)
        .with_lot_sizing_rule(LotSizingRule::FixedOrderQuantity);

    let net_reqs = vec![net_req(ymd(2025, 11, 1), 150, 0, 0, 150)];

    let result = LotSizingCalculator::fixed_order_quantity("TEST-006", &net_reqs, &config, &calendar);
    assert!(result.is_err());
    assert!(result.err().unwrap().is_missing_lot_size());
}

#[test]
fn test_economic_order_quantity_derived_lot() {
    let calendar = WorkCalendar::new("DEFAULT".to_string());
    let config = MrpConfig::new("TEST-008".to_string(), 3, ProcurementType::Buy)
        .with_lot_sizing_rule(LotSizingRule::EconomicOrderQuantity);

    let net_reqs = vec![net_req(ymd(2025, 11, 3), 150, 0, 0, 150)];

    let result =
        LotSizingCalculator::economic_order_quantity("TEST-008", &net_reqs, &config, &calendar)
            .unwrap();

    assert_eq!(result.len(), 1);
    assert_eq!(result[0].quantity, Qty::from_units(2_448_000));
}

#[test]
fn test_economic_order_quantity_with_fixed_lot() {
    let calendar = WorkCalendar::new("DEFAULT".to_string());
    let config = MrpConfig::new("TEST-009".to_string(), 3, ProcurementType::Buy)
        .with_lot_sizing_rule(LotSizingRule::EconomicOrderQuantity)
        .with_fixed_lot_size(Qty::from_int(100));

    let net_reqs = vec![net_req(ymd(2025, 11, 3), 150, 0, 0, 150)];

    let result =
        LotSizingCalculator::economic_order_quantity("TEST-009", &net_reqs, &config, &calendar)
            .unwrap();

    assert_eq!(result.len(), 1);
    assert_eq!(result[0].quantity, Qty::from_int(200));
}

#[test]
fn test_lot_for_lot_dates() {
    let calendar = WorkCalendar::new_24_7("24/7".to_string());
    let config = MrpConfig::new("TEST-007".to_string(), 5, ProcurementType::Make);

    let net_reqs = vec![net_req(ymd(2025, 11, 20), 100, 0, 0, 100)];

    let result = LotSizingCalculator::lot_for_lot("TEST-007", &net_reqs, &config, &calendar)
        .unwrap();

    assert_eq!(result.len(), 1);
    assert_eq!(result[0].required_date, ymd(2025, 11, 20));
    assert_eq!(result[0].order_date, ymd(2025, 11, 15));
}
