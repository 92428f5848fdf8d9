use mrp_engine::date::Date;
use mrp_engine::demand::{Demand, DemandType};
use mrp_engine::pegging::{PeggingCalculator, PeggingType};
use mrp_engine::plan::{PlannedOrder, PlannedOrderType};
use mrp_engine::qty::Qty;

fn ymd(y: i64, m: i64, d: i64) -> Date {
    Date::from_ymd(y, m, d).unwrap()
}

#[test]
fn test_single_level_pegging() {
    let planned_order = PlannedOrder::new(
        "COMP-001".to_string(),
        Qty::from_int(100),
        ymd(2025, 11, 8),
        ymd(2025, 11, 1),
        PlannedOrderType::Production,
    );

    let demand = Demand::new(
        "COMP-001".to_string(),
        Qty::from_int(100),
        ymd(2025, 11, 8),
        DemandType::SalesOrder,
    );

    let result = PeggingCalculator::perform(
        &vec![planned_order.clone()],
        &vec![demand.clone()],
        PeggingType::SingleLevel,
    )
    .unwrap();

    assert_eq!(result.len(), 1);

    let pegging_records = result.get(&planned_order.id).unwrap();
    assert_eq!(pegging_records.len(), 1);
    assert_eq!(pegging_records[0].demand_id, demand.id);
    assert_eq!(pegging_records[0].quantity, Qty::from_int(100));
    assert_eq!(pegging_records[0].path, vec!["COMP-001".to_string()]);
}

#[test]
fn test_multi_level_pegging_with_dependent_demand() {
    let planned_order = PlannedOrder::new(
        "CHILD-001".to_string(),
        Qty::from_int(200),
        ymd(2025, 11, 5),
        ymd(2025, 11, 1),
        PlannedOrderType::Purchase,
    );

    let dependent_demand = Demand::new(
        "CHILD-001".to_string(),
        Qty::from_int(200),
        ymd(2025, 11, 5),
        DemandType::Dependent,
    )
    .with_source_ref("PARENT-001".to_string());

    let result = PeggingCalculator::perform(
        &vec![planned_order.clone()],
        &vec![dependent_demand.clone()],
        PeggingType::MultiLevel,
    )
    .unwrap();

    assert_eq!(result.len(), 1);

    let pegging_records = result.get(&planned_order.id).unwrap();
    assert_eq!(pegging_records.len(), 1);
    assert_eq!(pegging_records[0].demand_id, dependent_demand.id);
    assert_eq!(pegging_records[0].quantity, Qty::from_int(200));
    assert!(pegging_records[0].path.len() >= 1);
}

#[test]
fn test_partial_quantity_pegging() {
    let planned_order = PlannedOrder::new(
        "COMP-002".to_string(),
        Qty::from_int(150),
        ymd(2025, 11, 10),
        ymd(2025, 11, 1),
        PlannedOrderType::Production,
    );

    let demand = Demand::new(
        "COMP-002".to_string(),
        Qty::from_int(100),
        ymd(2025, 11, 10),
        DemandType::SalesOrder,
    );

    let result = PeggingCalculator::perform(
        &vec![planned_order.clone()],
        &vec![demand.clone()],
        PeggingType::SingleLevel,
    )
    .unwrap();

    let pegging_records = result.get(&planned_order.id).unwrap();
    assert_eq!(pegging_records.len(), 1);
    assert_eq!(pegging_records[0].quantity, Qty::from_int(100));
}

#[test]
fn test_multiple_demands_pegging() {
    let planned_order = PlannedOrder::new(
        "COMP-003".to_string(),
        Qty::from_int(300),
        ymd(2025, 11, 15),
        ymd(2025, 11, 1),
        PlannedOrderType::Production,
    );

    let demand1 = Demand::new(
        "COMP-003".to_string(),
        Qty::from_int(150),
        ymd(2025, 11, 15),
        DemandType::SalesOrder,
    );

    let demand2 = Demand::new(
        "COMP-003".to_string(),
        Qty::from_int(100),
        ymd(2025, 11, 15),
        DemandType::SalesOrder,
    );

    let result = PeggingCalculator::perform(
        &vec![planned_order.clone()],
        &vec![demand1.clone(), demand2.clone()],
        PeggingType::SingleLevel,
    )
    .unwrap();

    let pegging_records = result.get(&planned_order.id).unwrap();
    assert_eq!(pegging_records.len(), 2);

    let mut total_pegged = Qty::zero();
    for r in pegging_records.iter() {
        total_pegged = total_pegged.checked_add(r.quantity).unwrap();
    }
    assert_eq!(total_pegged, Qty::from_int(250));
}

#[test]
fn test_no_matching_demand() {
    let planned_order = PlannedOrder::new(
        "COMP-004".to_string(),
        Qty::from_int(100),
        ymd(2025, 11, 10),
        ymd(2025, 11, 1),
        PlannedOrderType::Production,
    );

    let demand = Demand::new(
        "COMP-004".to_string(),
        Qty::from_int(100),
        ymd(2025, 11, 20),
        DemandType::SalesOrder,
    );

    let result = PeggingCalculator::perform(
        &vec![planned_order.clone()],
        &vec![demand],
        PeggingType::SingleLevel,
    )
    .unwrap();

    let pegging_records = result.get(&planned_order.id).unwrap();
    assert_eq!(pegging_records.len(), 0);
}
