//! Per-item planning parameters.

use vstd::prelude::*;

use crate::qty::{fits_qty, Qty};

verus! {

/// How an item is procured.
#[derive(Debug, Clone, Copy, PartialEq, Eq, Structural)]
pub enum ProcurementType {
    /// Bought from a supplier.
    Buy,
    /// Made in house.
    Make,
    /// Moved from another plant.
    Transfer,
}

/// How net requirements are turned into order quantities.
#[derive(Debug, Clone, Copy, PartialEq, Eq, Structural)]
pub enum LotSizingRule {
    /// One order per requirement, of exactly the required quantity.
    LotForLot,
    /// Orders in whole multiples of a fixed lot.
    FixedOrderQuantity,
    /// Orders in multiples of an economically derived lot.
    EconomicOrderQuantity,
    /// One order per period, covering the period's requirements.
    PeriodOrderQuantity,
    /// Refill to a maximum level whenever stock falls below a minimum.
    MinMax,
}

/// The planning parameters of one item.
#[derive(Debug, Clone)]
pub struct MrpConfig {
    /// The item configured.
    pub component_id: String,
    /// Working days between ordering and availability.
    pub lead_time_days: u32,
    /// The lot-sizing policy.
    pub lot_sizing_rule: LotSizingRule,
    /// The fixed lot size, where a policy needs one.
    pub fixed_lot_size: Option<Qty>,
    /// Orders are raised to at least this quantity.
    pub minimum_order_qty: Option<Qty>,
    /// Orders are capped at this quantity.
    pub maximum_order_qty: Option<Qty>,
    /// Orders are rounded up to a multiple of this quantity.
    pub order_multiple: Option<Qty>,
    /// The stock floor netting defends when negatives are not allowed.
    pub safety_stock: Qty,
    /// Advisory planning window in days.
    pub planning_horizon_days: u32,
    /// How the item is procured.
    pub procurement_type: ProcurementType,
    /// Whether the item is planned at all.
    pub mrp_enabled: bool,
    /// Whether projected stock may go negative before an order is raised.
    pub allow_negative_inventory: bool,
}

/// The quantity-constraint normalization of `q` under the given
/// minimum, multiple and maximum: raise to the minimum, round up to the
/// next multiple, then cap at the maximum, in that order.
pub open spec fn spec_adjust_qty(
    minimum: Option<int>,
    maximum: Option<int>,
    multiple: Option<int>,
    q: int,
) -> int {
    let q1 = match minimum {
        Some(m) => if q < m {
            m
        } else {
            q
        },
        None => q,
    };
    let q2 = match multiple {
        Some(m) => if m > 0 && q1 > 0 && q1 % m != 0 {
            q1 - q1 % m + m
        } else {
            q1
        },
        None => q1,
    };
    match maximum {
        Some(m) => if q2 > m {
            m
        } else {
            q2
        },
        None => q2,
    }
}

impl MrpConfig {
    /// The minimum-order quantity as a number, where set.
    pub open spec fn spec_min(&self) -> Option<int> {
        match self.minimum_order_qty {
            Some(q) => Some(q@),
            None => None,
        }
    }

    /// The maximum-order quantity as a number, where set.
    pub open spec fn spec_max(&self) -> Option<int> {
        match self.maximum_order_qty {
            Some(q) => Some(q@),
            None => None,
        }
    }

    /// The order multiple as a number, where set.
    pub open spec fn spec_multiple(&self) -> Option<int> {
        match self.order_multiple {
            Some(q) => Some(q@),
            None => None,
        }
    }

    /// The normalization of `q` under this configuration.
    pub open spec fn spec_adjust(&self, q: int) -> int {
        spec_adjust_qty(self.spec_min(), self.spec_max(), self.spec_multiple(), q)
    }

    /// Whether normalizing `q` stays within the quantity representation.
    pub open spec fn spec_adjust_fits(&self, q: int) -> bool {
        let q1 = match self.spec_min() {
            Some(m) => if q < m {
                m
            } else {
                q
            },
            None => q,
        };
        match self.spec_multiple() {
            Some(m) => fits_qty(q1 + m),
            None => true,
        }
    }

    /// A configuration with the given essentials and conservative
    /// defaults: lot-for-lot, no quantity constraints, no safety stock,
    /// a ninety-day horizon, planning enabled, negatives not allowed.
    pub fn new(component_id: String, lead_time_days: u32, procurement_type: ProcurementType) -> (r:
        MrpConfig)
        ensures
            r.component_id == component_id,
            r.lead_time_days == lead_time_days,
            r.lot_sizing_rule == LotSizingRule::LotForLot,
            r.fixed_lot_size is None,
            r.minimum_order_qty is None,
            r.maximum_order_qty is None,
            r.order_multiple is None,
            r.safety_stock@ == 0,
            r.planning_horizon_days == 90,
            r.procurement_type == procurement_type,
            r.mrp_enabled == true,
            r.allow_negative_inventory == false,
    {
        MrpConfig {
            component_id,
            lead_time_days,
            lot_sizing_rule: LotSizingRule::LotForLot,
            fixed_lot_size: None,
            minimum_order_qty: None,
            maximum_order_qty: None,
            order_multiple: None,
            safety_stock: Qty::zero(),
            planning_horizon_days: 90,
            procurement_type,
            mrp_enabled: true,
            allow_negative_inventory: false,
        }
    }

    /// Sets the lot-sizing policy.
    pub fn with_lot_sizing_rule(self, rule: LotSizingRule) -> (r: MrpConfig)
        ensures
            r == (MrpConfig { lot_sizing_rule: rule, ..self }),
    {
        MrpConfig { lot_sizing_rule: rule, ..self }
    }

    /// Sets the fixed lot size.
    pub fn with_fixed_lot_size(self, size: Qty) -> (r: MrpConfig)
        ensures
            r == (MrpConfig { fixed_lot_size: Some(size), ..self }),
    {
        MrpConfig { fixed_lot_size: Some(size), ..self }
    }

    /// Sets the minimum order quantity.
    pub fn with_minimum_order_qty(self, qty: Qty) -> (r: MrpConfig)
        ensures
            r == (MrpConfig { minimum_order_qty: Some(qty), ..self }),
    {
        MrpConfig { minimum_order_qty: Some(qty), ..self }
    }

    /// Sets the maximum order quantity.
    pub fn with_maximum_order_qty(self, qty: Qty) -> (r: MrpConfig)
        ensures
            r == (MrpConfig { maximum_order_qty: Some(qty), ..self }),
    {
        MrpConfig { maximum_order_qty: Some(qty), ..self }
    }

    /// Sets the order multiple.
    pub fn with_order_multiple(self, multiple: Qty) -> (r: MrpConfig)
        ensures
            r == (MrpConfig { order_multiple: Some(multiple), ..self }),
    {
        MrpConfig { order_multiple: Some(multiple), ..self }
    }

    /// Sets the safety stock.
    pub fn with_safety_stock(self, stock: Qty) -> (r: MrpConfig)
        ensures
            r == (MrpConfig { safety_stock: stock, ..self }),
    {
        MrpConfig { safety_stock: stock, ..self }
    }

    /// Sets the planning horizon.
    pub fn with_planning_horizon(self, days: u32) -> (r: MrpConfig)
        ensures
            r == (MrpConfig { planning_horizon_days: days, ..self }),
    {
        MrpConfig { planning_horizon_days: days, ..self }
    }

    /// Sets whether projected stock may go negative.
    pub fn with_allow_negative_inventory(self, allow: bool) -> (r: MrpConfig)
        ensures
            r == (MrpConfig { allow_negative_inventory: allow, ..self }),
    {
        MrpConfig { allow_negative_inventory: allow, ..self }
    }

    /// Normalizes an order quantity: raises it to the minimum, rounds it
    /// up to the next multiple, then caps it at the maximum.
    pub fn adjust_order_quantity(&self, quantity: Qty) -> (r: Qty)
        requires
            self.spec_adjust_fits(quantity@),
        ensures
            r@ == self.spec_adjust(quantity@),
    {
        let mut q = quantity;
        match self.minimum_order_qty {
            Some(min_qty) => {
                if q.lt(&min_qty) {
                    q = min_qty;
                }
            },
            None => {},
        }
        match self.order_multiple {
            Some(multiple) => {
                if multiple.is_positive() && q.is_positive() {
                    let remainder = Qty::from_units(q.units() % multiple.units());
                    if remainder.is_positive() {
                        match q.checked_sub(remainder) {
                            Some(lowered) => {
                                match lowered.checked_add(multiple) {
                                    Some(raised) => {
                                        q = raised;
                                    },
                                    None => {},
                                }
                            },
                            None => {},
                        }
                    }
                }
            },
            None => {},
        }
        match self.maximum_order_qty {
            Some(max_qty) => {
                if max_qty.lt(&q) {
                    q = max_qty;
                }
            },
            None => {},
        }
        q
    }

    /// Whether the item takes part in planning runs.
    pub fn needs_mrp(&self) -> (r: bool)
        ensures
            r == self.mrp_enabled,
    {
        self.mrp_enabled
    }
}


/// Whether a set of quantity constraints is consistent: any maximum
/// admits the minimum, and any maximum lands on the multiple.
pub open spec fn spec_constraints_consistent(
    minimum: Option<int>,
    maximum: Option<int>,
    multiple: Option<int>,
) -> bool {
    &&& (minimum is Some && maximum is Some) ==> minimum->0 <= maximum->0
    &&& (maximum is Some && multiple is Some && multiple->0 > 0) ==> maximum->0 % multiple->0
        == 0
}

/// Whether `q` honours the constraints: at least any minimum, at most
/// any maximum, and on any positive multiple.
pub open spec fn spec_constraints_hold(
    minimum: Option<int>,
    maximum: Option<int>,
    multiple: Option<int>,
    q: int,
) -> bool {
    &&& minimum is Some ==> q >= minimum->0
    &&& maximum is Some ==> q <= maximum->0
    &&& (multiple is Some && multiple->0 > 0) ==> q % multiple->0 == 0
}

/// The normalization of a positive quantity honours consistent
/// constraints: it is raised to the minimum, rounded up onto the
/// multiple, and capped at the maximum.
pub proof fn lemma_adjust_bounds(
    minimum: Option<int>,
    maximum: Option<int>,
    multiple: Option<int>,
    q: int,
)
    requires
        q > 0,
        spec_constraints_consistent(minimum, maximum, multiple),
    ensures
        spec_constraints_hold(minimum, maximum, multiple, spec_adjust_qty(minimum, maximum, multiple, q)),
{
    let q1 = match minimum {
        Some(m) => if q < m {
            m
        } else {
            q
        },
        None => q,
    };
    let q2 = match multiple {
        Some(m) => if m > 0 && q1 > 0 && q1 % m != 0 {
            q1 - q1 % m + m
        } else {
            q1
        },
        None => q1,
    };
    if multiple is Some && multiple->0 > 0 {
        let m = multiple->0;
        vstd::arithmetic::div_mod::lemma_mod_bound(q1, m);
        if q1 > 0 && q1 % m != 0 {
            vstd::arithmetic::div_mod::lemma_fundamental_div_mod(q1, m);
            assert(q2 == m * (q1 / m) + m);
            assert(q2 == m * (q1 / m + 1)) by (nonlinear_arith)
                requires
                    q2 == m * (q1 / m) + m,
            {
            }
            vstd::arithmetic::div_mod::lemma_mod_multiples_vanish(q1 / m + 1, 0, m);
            vstd::arithmetic::div_mod::lemma_small_mod(0, m as nat);
        }
        assert(q2 % m == 0);
        assert(q2 >= q1);
    }
}

} // verus!
