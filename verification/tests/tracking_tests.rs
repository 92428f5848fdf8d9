use mrp_engine::dirty::DirtyTracker;
use mrp_engine::optimize::OptimizationResult;

#[test]
fn test_dirty_tracker_marking() {
    let mut tracker = DirtyTracker::new();
    assert!(!tracker.is_dirty(&"BIKE".to_string()));

    tracker.mark_dirty("BIKE".to_string());
    tracker.mark_dirty("FRAME".to_string());
    tracker.mark_dirty("BIKE".to_string());

    assert!(tracker.is_dirty(&"BIKE".to_string()));
    assert!(tracker.is_dirty(&"FRAME".to_string()));
    assert!(!tracker.is_dirty(&"WHEEL".to_string()));

    let listed = tracker.get_dirty_components();
    assert_eq!(listed.len(), 2);

    tracker.clear();
    assert!(!tracker.is_dirty(&"BIKE".to_string()));
    assert_eq!(tracker.get_dirty_components().len(), 0);
}

#[test]
fn test_optimization_result_shapes() {
    let feasible = OptimizationResult::feasible(Vec::new());
    assert!(feasible.feasible);
    assert_eq!(feasible.messages.len(), 0);

    let infeasible = OptimizationResult::infeasible("capacity exceeded".to_string());
    assert!(!infeasible.feasible);
    assert_eq!(infeasible.optimized_orders.len(), 0);
    assert_eq!(infeasible.messages, vec!["capacity exceeded".to_string()]);
}
