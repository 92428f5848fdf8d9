use mrp_engine::date::Date;
use mrp_engine::demand::{Demand, DemandType};
use mrp_engine::inventory::Inventory;
use mrp_engine::plan::{PeggingRecord, PlannedOrder, PlannedOrderType};
use mrp_engine::qty::Qty;
use mrp_engine::supply::{Supply, SupplyType};

fn ymd(y: i64, m: i64, d: i64) -> Date {
    Date::from_ymd(y, m, d).unwrap()
}

#[test]
fn test_create_demand() {
    let demand = Demand::new(
        "BIKE-001".to_string(),
        Qty::from_int(100),
        ymd(2025, 11, 1),
        DemandType::SalesOrder,
    );

    assert_eq!(demand.component_id, "BIKE-001");
    assert_eq!(demand.quantity, Qty::from_int(100));
    assert_eq!(demand.priority, 5);
    assert!(demand.is_independent());
}

#[test]
fn test_demand_builder() {
    let demand = Demand::new(
        "FRAME-001".to_string(),
        Qty::from_int(50),
        ymd(2025, 11, 5),
        DemandType::Dependent,
    )
    .with_source_ref("SO-12345".to_string())
    .with_priority(8)
    .with_plant_id("PLANT-01".to_string());

    assert_eq!(demand.source_ref, Some("SO-12345".to_string()));
    assert_eq!(demand.priority, 8);
    assert_eq!(demand.plant_id, Some("PLANT-01".to_string()));
    assert!(demand.is_dependent());
}

#[test]
fn test_create_supply() {
    let supply = Supply::new(
        "BIKE-001".to_string(),
        Qty::from_int(50),
        ymd(2025, 10, 20),
        SupplyType::PurchaseOrder,
    );

    assert_eq!(supply.component_id, "BIKE-001");
    assert_eq!(supply.quantity, Qty::from_int(50));
    assert!(!supply.is_firm);
    assert!(!supply.is_planned());
}

#[test]
fn test_supply_builder() {
    let supply = Supply::new(
        "FRAME-001".to_string(),
        Qty::from_int(100),
        ymd(2025, 10, 25),
        SupplyType::PlannedOrder,
    )
    .with_source_ref("PO-12345".to_string())
    .as_firm();

    assert_eq!(supply.source_ref, Some("PO-12345".to_string()));
    assert!(supply.is_firm);
    assert!(supply.is_planned());
    assert!(!supply.is_adjustable());
}

#[test]
fn test_create_inventory() {
    let inventory = Inventory::new("BIKE-001".to_string(), Qty::from_int(100), Qty::from_int(20));

    assert_eq!(inventory.component_id, "BIKE-001");
    assert_eq!(inventory.on_hand_qty, Qty::from_int(100));
    assert_eq!(inventory.safety_stock, Qty::from_int(20));
    assert_eq!(inventory.available_qty, Qty::from_int(100));
    assert!(!inventory.is_below_safety_stock());
}

#[test]
fn test_inventory_allocation() {
    let mut inventory =
        Inventory::new("FRAME-001".to_string(), Qty::from_int(100), Qty::from_int(10));

    assert!(inventory.allocate(Qty::from_int(50)).is_ok());
    assert_eq!(inventory.allocated_qty, Qty::from_int(50));
    assert_eq!(inventory.available_qty, Qty::from_int(50));

    assert!(inventory.allocate(Qty::from_int(60)).is_err());

    assert!(inventory.deallocate(Qty::from_int(30)).is_ok());
    assert_eq!(inventory.allocated_qty, Qty::from_int(20));
    assert_eq!(inventory.available_qty, Qty::from_int(80));
}

#[test]
fn test_replenishment_needed() {
    let inventory = Inventory::new("WHEEL-001".to_string(), Qty::from_int(5), Qty::from_int(20));

    assert!(inventory.is_below_safety_stock());
    assert_eq!(inventory.replenishment_needed(), Qty::from_int(15));
}

#[test]
fn test_create_planned_order() {
    let order = PlannedOrder::new(
        "BIKE-001".to_string(),
        Qty::from_int(100),
        ymd(2025, 11, 1),
        ymd(2025, 10, 25),
        PlannedOrderType::Production,
    );

    assert_eq!(order.component_id, "BIKE-001");
    assert_eq!(order.quantity, Qty::from_int(100));
    assert_eq!(order.lead_time_days(), 7);
    assert!(order.is_production());
    assert!(!order.is_purchase());
}

#[test]
fn test_planned_order_builder() {
    let pegging = vec![PeggingRecord::new(1, Qty::from_int(50))];

    let order = PlannedOrder::new(
        "FRAME-001".to_string(),
        Qty::from_int(50),
        ymd(2025, 10, 28),
        ymd(2025, 10, 20),
        PlannedOrderType::Purchase,
    )
    .with_source_id("VENDOR-01".to_string())
    .with_pegging(pegging);

    assert_eq!(order.source_id, Some("VENDOR-01".to_string()));
    assert_eq!(order.pegging.len(), 1);
    assert!(order.is_purchase());
}

#[test]
fn test_pegging_record() {
    let mut record = PeggingRecord::new(2, Qty::from_int(100))
        .with_path(vec!["BIKE-001".to_string(), "FRAME-001".to_string()]);

    assert_eq!(record.depth(), 2);

    record.add_path_node("WHEEL-001".to_string());
    assert_eq!(record.depth(), 3);
}
