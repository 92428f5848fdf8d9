use mrp_engine::config::{LotSizingRule, MrpConfig, ProcurementType};
use mrp_engine::qty::Qty;

#[test]
fn test_create_config() {
    let config = MrpConfig::new("BIKE-001".to_string(), 5, ProcurementType::Make);

    assert_eq!(config.component_id, "BIKE-001");
    assert_eq!(config.lead_time_days, 5);
    assert_eq!(config.lot_sizing_rule, LotSizingRule::LotForLot);
    assert!(config.needs_mrp());
}

#[test]
fn test_config_builder() {
    let config = MrpConfig::new("FRAME-001".to_string(), 7, ProcurementType::Buy)
        .with_lot_sizing_rule(LotSizingRule::FixedOrderQuantity)
        .with_fixed_lot_size(Qty::from_int(100))
        .with_minimum_order_qty(Qty::from_int(50))
        .with_safety_stock(Qty::from_int(20));

    assert_eq!(config.lot_sizing_rule, LotSizingRule::FixedOrderQuantity);
    assert_eq!(config.fixed_lot_size, Some(Qty::from_int(100)));
    assert_eq!(config.minimum_order_qty, Some(Qty::from_int(50)));
    assert_eq!(config.safety_stock, Qty::from_int(20));
}

#[test]
fn test_adjust_order_quantity() {
    let config = MrpConfig::new("WHEEL-001".to_string(), 3, ProcurementType::Buy)
        .with_minimum_order_qty(Qty::from_int(50))
        .with_maximum_order_qty(Qty::from_int(500))
        .with_order_multiple(Qty::from_int(10));

    assert_eq!(config.adjust_order_quantity(Qty::from_int(30)), Qty::from_int(50));

    assert_eq!(config.adjust_order_quantity(Qty::from_int(75)), Qty::from_int(80));

    assert_eq!(config.adjust_order_quantity(Qty::from_int(600)), Qty::from_int(500));
}

#[test]
fn test_order_multiple_adjustment() {
    let config = MrpConfig::new("SCREW-001".to_string(), 1, ProcurementType::Buy)
        .with_order_multiple(Qty::from_int(100));

    assert_eq!(config.adjust_order_quantity(Qty::from_int(123)), Qty::from_int(200));

    assert_eq!(config.adjust_order_quantity(Qty::from_int(200)), Qty::from_int(200));
}

#[test]
fn test_adjust_with_fractional_quantities() {
    let config = MrpConfig::new("RESIN-001".to_string(), 1, ProcurementType::Buy)
        .with_order_multiple(Qty::from_units(5_000));

    assert_eq!(config.adjust_order_quantity(Qty::from_units(12_500)), Qty::from_units(15_000));
}
