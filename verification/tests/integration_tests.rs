use mrp_engine::bom::BomGraph;
use mrp_engine::calculator::MrpCalculator;
use mrp_engine::calendar::WorkCalendar;
use mrp_engine::config::{LotSizingRule, MrpConfig, ProcurementType};
use mrp_engine::date::Date;
use mrp_engine::demand::{Demand, DemandType};
use mrp_engine::inventory::Inventory;
use mrp_engine::qty::Qty;
use mrp_engine::supply::{Supply, SupplyType};

fn ymd(y: i64, m: i64, d: i64) -> Date {
    Date::from_ymd(y, m, d).unwrap()
}

fn total_for(orders: &Vec<mrp_engine::plan::PlannedOrder>, item: &str) -> Qty {
    let mut total = Qty::zero();
    for o in orders.iter() {
        if o.component_id == item {
            total = total.checked_add(o.quantity).unwrap();
        }
    }
    total
}

#[test]
fn test_create_calculator() {
    let bom = BomGraph::new();
    let configs: Vec<MrpConfig> = Vec::new();
    let calendar = WorkCalendar::new("TEST".to_string());
    let calculator = MrpCalculator::new(bom, configs, calendar);
    assert_eq!(calculator.calendar().calendar_id, "TEST");
    assert_eq!(calculator.bom_graph().node_count(), 0);
}

#[test]
fn test_single_level_bom_mrp() {
    let mut bom = BomGraph::new();
    bom.add_bom_item(&"PRODUCT-A".to_string(), &"PART-B".to_string(), Qty::from_int(2));

    println!("BOM nodes: {}", bom.node_count());
    println!("BOM edges: {}", bom.edge_count());

    let configs = vec![
        MrpConfig::new("PRODUCT-A".to_string(), 5, ProcurementType::Make)
            .with_lot_sizing_rule(LotSizingRule::LotForLot),
        MrpConfig::new("PART-B".to_string(), 3, ProcurementType::Buy)
            .with_lot_sizing_rule(LotSizingRule::LotForLot),
    ];

    let calendar = WorkCalendar::fallback_calendar();

    let demands = vec![Demand::new(
        "PRODUCT-A".to_string(),
        Qty::from_int(100),
        ymd(2025, 11, 20),
        DemandType::SalesOrder,
    )];

    let supplies = vec![];
    let inventories = vec![];

    let calculator = MrpCalculator::new(bom, configs, calendar);
    let result = calculator.calculate(demands, supplies, inventories).unwrap();

    println!("Total planned orders: {}", result.planned_orders.len());

    assert!(
        result.planned_orders.len() >= 2,
        "expected at least two orders, got {}",
        result.planned_orders.len()
    );

    let product_a_orders: Vec<_> = result
        .planned_orders
        .iter()
        .filter(|o| o.component_id == "PRODUCT-A")
        .collect();
    assert_eq!(product_a_orders.len(), 1);
    assert_eq!(product_a_orders[0].quantity, Qty::from_int(100));
    assert_eq!(product_a_orders[0].order_date, ymd(2025, 11, 15));

    let part_b_orders: Vec<_> = result
        .planned_orders
        .iter()
        .filter(|o| o.component_id == "PART-B")
        .collect();
    assert!(part_b_orders.len() >= 1);

    let total_part_b = total_for(&result.planned_orders, "PART-B");
    assert_eq!(total_part_b, Qty::from_int(200));
}

#[test]
fn test_multi_level_bom_mrp() {
    let mut bom = BomGraph::new();

    bom.add_bom_item(&"BIKE".to_string(), &"FRAME".to_string(), Qty::from_int(1));
    bom.add_bom_item(&"BIKE".to_string(), &"WHEEL".to_string(), Qty::from_int(2));
    bom.add_bom_item(&"FRAME".to_string(), &"STEEL-TUBE".to_string(), Qty::from_int(3));

    let configs = vec![
        MrpConfig::new("BIKE".to_string(), 7, ProcurementType::Make)
            .with_lot_sizing_rule(LotSizingRule::LotForLot),
        MrpConfig::new("FRAME".to_string(), 5, ProcurementType::Make)
            .with_lot_sizing_rule(LotSizingRule::LotForLot),
        MrpConfig::new("WHEEL".to_string(), 3, ProcurementType::Buy)
            .with_lot_sizing_rule(LotSizingRule::LotForLot),
        MrpConfig::new("STEEL-TUBE".to_string(), 2, ProcurementType::Buy)
            .with_lot_sizing_rule(LotSizingRule::LotForLot),
    ];

    let calendar = WorkCalendar::fallback_calendar();

    let demands = vec![Demand::new(
        "BIKE".to_string(),
        Qty::from_int(50),
        ymd(2025, 12, 1),
        DemandType::SalesOrder,
    )];

    let supplies = vec![];
    let inventories = vec![];

    let calculator = MrpCalculator::new(bom, configs, calendar);
    let result = calculator.calculate(demands, supplies, inventories).unwrap();

    assert_eq!(total_for(&result.planned_orders, "BIKE"), Qty::from_int(50));
    assert_eq!(total_for(&result.planned_orders, "FRAME"), Qty::from_int(50));
    assert_eq!(total_for(&result.planned_orders, "WHEEL"), Qty::from_int(100));
    assert_eq!(total_for(&result.planned_orders, "STEEL-TUBE"), Qty::from_int(150));
}

#[test]
fn test_lot_sizing_rules_integration() {
    let calendar = WorkCalendar::fallback_calendar();

    let demands = vec![
        Demand::new(
            "PART-X".to_string(),
            Qty::from_int(75),
            ymd(2025, 11, 15),
            DemandType::SalesOrder,
        ),
        Demand::new(
            "PART-X".to_string(),
            Qty::from_int(45),
            ymd(2025, 11, 22),
            DemandType::SalesOrder,
        ),
    ];

    let supplies: Vec<Supply> = vec![];
    let inventories: Vec<Inventory> = vec![];

    {
        let bom = BomGraph::new();
        let configs = vec![
            MrpConfig::new("PART-X".to_string(), 3, ProcurementType::Buy)
                .with_lot_sizing_rule(LotSizingRule::LotForLot),
        ];

        let calculator = MrpCalculator::new(bom, configs, calendar.clone());
        let result = calculator
            .calculate(demands.clone(), supplies.clone(), inventories.clone())
            .unwrap();

        let orders: Vec<_> = result
            .planned_orders
            .iter()
            .filter(|o| o.component_id == "PART-X")
            .collect();
        assert_eq!(orders.len(), 2);
    }

    {
        let bom = BomGraph::new();
        let configs = vec![
            MrpConfig::new("PART-X".to_string(), 3, ProcurementType::Buy)
                .with_lot_sizing_rule(LotSizingRule::FixedOrderQuantity)
                .with_fixed_lot_size(Qty::from_int(100)),
        ];

        let calculator = MrpCalculator::new(bom, configs, calendar.clone());
        let result = calculator
            .calculate(demands.clone(), supplies.clone(), inventories.clone())
            .unwrap();

        let orders: Vec<_> = result
            .planned_orders
            .iter()
            .filter(|o| o.component_id == "PART-X")
            .collect();
        assert_eq!(orders.len(), 2);
        assert!(orders.iter().all(|o| o.quantity == Qty::from_int(100)));
    }

    {
        let bom = BomGraph::new();
        let configs = vec![
            MrpConfig::new("PART-X".to_string(), 3, ProcurementType::Buy)
                .with_lot_sizing_rule(LotSizingRule::LotForLot)
                .with_minimum_order_qty(Qty::from_int(200)),
        ];

        let calculator = MrpCalculator::new(bom, configs, calendar.clone());
        let result = calculator
            .calculate(demands.clone(), supplies.clone(), inventories.clone())
            .unwrap();

        let first_order = result
            .planned_orders
            .iter()
            .find(|o| o.component_id == "PART-X" && o.required_date == ymd(2025, 11, 15))
            .unwrap();
        assert!(first_order.quantity >= Qty::from_int(200));
    }
}

#[test]
fn test_with_existing_inventory_and_supply() {
    let mut bom = BomGraph::new();
    bom.add_bom_item(&"PRODUCT".to_string(), &"COMPONENT".to_string(), Qty::from_int(1));

    let configs = vec![
        MrpConfig::new("PRODUCT".to_string(), 5, ProcurementType::Make)
            .with_lot_sizing_rule(LotSizingRule::LotForLot)
            .with_safety_stock(Qty::from_int(10)),
        MrpConfig::new("COMPONENT".to_string(), 3, ProcurementType::Buy)
            .with_lot_sizing_rule(LotSizingRule::LotForLot)
            .with_safety_stock(Qty::from_int(5)),
    ];

    let calendar = WorkCalendar::fallback_calendar();

    let demands = vec![Demand::new(
        "PRODUCT".to_string(),
        Qty::from_int(100),
        ymd(2025, 11, 20),
        DemandType::SalesOrder,
    )];

    let inventories = vec![
        Inventory::new("PRODUCT".to_string(), Qty::from_int(30), Qty::from_int(10)),
        Inventory::new("COMPONENT".to_string(), Qty::from_int(20), Qty::from_int(5)),
    ];

    let supplies = vec![Supply::new(
        "COMPONENT".to_string(),
        Qty::from_int(10),
        ymd(2025, 11, 18),
        SupplyType::PurchaseOrder,
    )];

    let calculator = MrpCalculator::new(bom, configs, calendar);
    let result = calculator.calculate(demands, supplies, inventories).unwrap();

    let product_orders: Vec<_> = result
        .planned_orders
        .iter()
        .filter(|o| o.component_id == "PRODUCT")
        .collect();

    assert!(product_orders.len() >= 1);
    assert_eq!(total_for(&result.planned_orders, "PRODUCT"), Qty::from_int(80));

    let component_orders: Vec<_> = result
        .planned_orders
        .iter()
        .filter(|o| o.component_id == "COMPONENT")
        .collect();

    assert!(component_orders.len() >= 1);
}

#[test]
fn test_cycle_detection() {
    let mut bom = BomGraph::new();
    bom.add_bom_item(&"A".to_string(), &"B".to_string(), Qty::from_int(1));
    bom.add_bom_item(&"B".to_string(), &"A".to_string(), Qty::from_int(1));

    let configs = vec![
        MrpConfig::new("A".to_string(), 1, ProcurementType::Make),
        MrpConfig::new("B".to_string(), 1, ProcurementType::Make),
    ];

    let calendar = WorkCalendar::fallback_calendar();
    let demands = vec![Demand::new(
        "A".to_string(),
        Qty::from_int(10),
        ymd(2025, 11, 20),
        DemandType::SalesOrder,
    )];

    let calculator = MrpCalculator::new(bom, configs, calendar);
    let result = calculator.calculate(demands, vec![], vec![]);
    assert!(matches!(
        result,
        Err(mrp_engine::error::MrpError::TopologicalSortError(_))
    ));
}

#[test]
fn test_missing_config_error() {
    let bom = BomGraph::new();
    let configs: Vec<MrpConfig> = vec![];
    let calendar = WorkCalendar::fallback_calendar();
    let demands = vec![Demand::new(
        "UNKNOWN".to_string(),
        Qty::from_int(10),
        ymd(2025, 11, 20),
        DemandType::SalesOrder,
    )];

    let calculator = MrpCalculator::new(bom, configs, calendar);
    let result = calculator.calculate(demands, vec![], vec![]);
    assert!(matches!(result, Err(mrp_engine::error::MrpError::ConfigNotFound(_))));
}

#[test]
fn test_empty_demands_empty_result() {
    let bom = BomGraph::new();
    let configs: Vec<MrpConfig> = vec![];
    let calendar = WorkCalendar::fallback_calendar();

    let calculator = MrpCalculator::new(bom, configs, calendar);
    let result = calculator.calculate(vec![], vec![], vec![]).unwrap();
    assert_eq!(result.planned_orders.len(), 0);
    assert_eq!(result.pegging.len(), 0);
}

#[test]
fn test_disabled_item_is_skipped() {
    let bom = BomGraph::new();
    let configs = vec![
        MrpConfig::new("OFF".to_string(), 2, ProcurementType::Buy)
            .with_allow_negative_inventory(false),
    ];
    let mut cfg = configs;
    cfg[0].mrp_enabled = false;
    let calendar = WorkCalendar::fallback_calendar();
    let demands = vec![Demand::new(
        "OFF".to_string(),
        Qty::from_int(10),
        ymd(2025, 11, 20),
        DemandType::SalesOrder,
    )];

    let calculator = MrpCalculator::new(bom, cfg, calendar);
    let result = calculator.calculate(demands, vec![], vec![]).unwrap();
    assert_eq!(result.planned_orders.len(), 0);
}

#[test]
fn test_order_date_out_of_range_error() {
    let bom = BomGraph::new();
    let configs = vec![MrpConfig::new("EARLY".to_string(), 10, ProcurementType::Buy)];
    let calendar = WorkCalendar::fallback_calendar();
    let demands = vec![Demand::new(
        "EARLY".to_string(),
        Qty::from_int(1),
        Date::from_ymd(1, 1, 3).unwrap(),
        DemandType::SalesOrder,
    )];

    let calculator = MrpCalculator::new(bom, configs, calendar);
    let result = calculator.calculate(demands, vec![], vec![]);
    assert!(matches!(result, Err(mrp_engine::error::MrpError::InvalidDate(_))));
}

#[test]
fn test_quantity_overflow_error() {
    let bom = BomGraph::new();
    let configs = vec![MrpConfig::new("HUGE".to_string(), 1, ProcurementType::Buy)];
    let calendar = WorkCalendar::fallback_calendar();
    let big = Qty::from_units(i64::MAX);
    let demands = vec![
        Demand::new("HUGE".to_string(), big, ymd(2025, 11, 20), DemandType::SalesOrder),
        Demand::new("HUGE".to_string(), big, ymd(2025, 11, 20), DemandType::SalesOrder),
    ];

    let calculator = MrpCalculator::new(bom, configs, calendar);
    let result = calculator.calculate(demands, vec![], vec![]);
    assert!(matches!(result, Err(mrp_engine::error::MrpError::CalculationError(_))));
}

#[test]
fn test_pegging_in_full_run() {
    let bom = BomGraph::new();
    let configs = vec![
        MrpConfig::new("X".to_string(), 5, ProcurementType::Make),
    ];
    let calendar = WorkCalendar::fallback_calendar();
    let demands = vec![Demand::new(
        "X".to_string(),
        Qty::from_int(100),
        ymd(2025, 11, 20),
        DemandType::SalesOrder,
    )];

    let calculator = MrpCalculator::new(bom, configs, calendar);
    let result = calculator.calculate(demands, vec![], vec![]).unwrap();

    assert_eq!(result.planned_orders.len(), 1);
    let order = &result.planned_orders[0];
    assert_eq!(order.quantity, Qty::from_int(100));
    assert_eq!(order.required_date, ymd(2025, 11, 20));
    assert_eq!(order.order_date, ymd(2025, 11, 15));

    let records = result.pegging.get(&order.id).unwrap();
    assert_eq!(records.len(), 1);
    assert_eq!(records[0].quantity, Qty::from_int(100));
    assert_eq!(records[0].path, vec!["X".to_string()]);

    assert_eq!(result.warnings.len(), 1);
    assert_eq!(result.warnings[0].component_id, "X");
}

#[test]
fn test_dependent_pegging_names_parent_order() {
    let mut bom = BomGraph::new();
    bom.add_bom_item(&"PRODUCT-A".to_string(), &"PART-B".to_string(), Qty::from_int(2));

    let configs = vec![
        MrpConfig::new("PRODUCT-A".to_string(), 5, ProcurementType::Make),
        MrpConfig::new("PART-B".to_string(), 3, ProcurementType::Buy),
    ];
    let calendar = WorkCalendar::fallback_calendar();
    let demands = vec![Demand::new(
        "PRODUCT-A".to_string(),
        Qty::from_int(100),
        ymd(2025, 11, 20),
        DemandType::SalesOrder,
    )];

    let calculator = MrpCalculator::new(bom, configs, calendar);
    let result = calculator.calculate(demands, vec![], vec![]).unwrap();

    let part_b_order = result
        .planned_orders
        .iter()
        .find(|o| o.component_id == "PART-B")
        .unwrap();
    let records = result.pegging.get(&part_b_order.id).unwrap();
    assert_eq!(records.len(), 1);
    assert_eq!(
        records[0].path,
        vec!["PRODUCT-A:1".to_string(), "PART-B".to_string()]
    );
}
