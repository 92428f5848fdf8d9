//! The shape of an order-optimization outcome.
//!
//! Capacity and scheduling post-processors receive planned orders and
//! report back in this form; the kernel itself performs none of that.

use vstd::prelude::*;

use crate::plan::PlannedOrder;

verus! {

/// What an optimization pass over planned orders reported.
#[derive(Debug)]
pub struct OptimizationResult {
    /// Whether a feasible adjusted plan was found.
    pub feasible: bool,
    /// The adjusted orders, where the pass found a plan.
    pub optimized_orders: Vec<PlannedOrder>,
    /// Diagnostics the pass emitted.
    pub messages: Vec<String>,
}

impl OptimizationResult {
    /// A feasible outcome carrying the adjusted orders.
    pub fn feasible(optimized_orders: Vec<PlannedOrder>) -> (r: OptimizationResult)
        ensures
            r.feasible == true,
            r.optimized_orders == optimized_orders,
            r.messages@.len() == 0,
    {
        OptimizationResult { feasible: true, optimized_orders, messages: Vec::new() }
    }

    /// An infeasible outcome carrying one diagnostic.
    pub fn infeasible(message: String) -> (r: OptimizationResult)
        ensures
            r.feasible == false,
            r.optimized_orders@.len() == 0,
            r.messages@.len() == 1,
            r.messages@[0] == message,
    {
        let mut messages: Vec<String> = Vec::new();
        messages.push(message);
        OptimizationResult { feasible: false, optimized_orders: Vec::new(), messages }
    }
}

} // verus!
