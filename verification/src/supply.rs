//! Supplies: quantities of an item that arrive on a known day.

use vstd::prelude::*;

use crate::date::Date;
use crate::qty::Qty;

verus! {

/// The origin of a supply.
#[derive(Debug, Clone, Copy, PartialEq, Eq, Structural)]
pub enum SupplyType {
    /// Stock already on hand.
    OnHand,
    /// An open purchase order.
    PurchaseOrder,
    /// An open work order.
    WorkOrder,
    /// A transfer under way.
    Transfer,
    /// An order generated by a planning run.
    PlannedOrder,
}

/// A dated inflow of one item.
#[derive(Debug, Clone)]
pub struct Supply {
    /// Caller-assigned identifier.
    pub id: u64,
    /// The item supplied.
    pub component_id: String,
    /// How much arrives.
    pub quantity: Qty,
    /// The day the quantity becomes available.
    pub available_date: Date,
    /// Where the supply comes from.
    pub supply_type: SupplyType,
    /// The document the supply stems from, if any.
    pub source_ref: Option<String>,
    /// A firm supply is never adjusted by a planning run.
    pub is_firm: bool,
}

/// The mathematical image of a `Supply`.
pub struct SupplyView {
    pub id: u64,
    pub component_id: Seq<char>,
    pub quantity: int,
    pub available_date: int,
    pub supply_type: SupplyType,
    pub source_ref: Option<Seq<char>>,
    pub is_firm: bool,
}

impl View for Supply {
    type V = SupplyView;

    open spec fn view(&self) -> SupplyView {
        SupplyView {
            id: self.id,
            component_id: self.component_id@,
            quantity: self.quantity@,
            available_date: self.available_date@,
            supply_type: self.supply_type,
            source_ref: match self.source_ref {
                Some(ref s) => Some(s@),
                None => None,
            },
            is_firm: self.is_firm,
        }
    }
}

impl Supply {
    /// A supply with the given essentials, not yet firm.
    pub fn new(component_id: String, quantity: Qty, available_date: Date, supply_type: SupplyType)
        -> (r: Supply)
        ensures
            r.id == 0,
            r.component_id == component_id,
            r.quantity == quantity,
            r.available_date == available_date,
            r.supply_type == supply_type,
            r.source_ref is None,
            r.is_firm == false,
    {
        Supply {
            id: 0,
            component_id,
            quantity,
            available_date,
            supply_type,
            source_ref: None,
            is_firm: false,
        }
    }

    /// Sets the originating document.
    pub fn with_source_ref(self, source_ref: String) -> (r: Supply)
        ensures
            r == (Supply { source_ref: Some(source_ref), ..self }),
    {
        Supply { source_ref: Some(source_ref), ..self }
    }

    /// Marks the supply as firm.
    pub fn as_firm(self) -> (r: Supply)
        ensures
            r == (Supply { is_firm: true, ..self }),
    {
        Supply { is_firm: true, ..self }
    }

    /// An equal copy of the supply.
    pub fn clone_supply(&self) -> (r: Supply)
        ensures
            r == *self,
    {
        Supply {
            id: self.id,
            component_id: self.component_id.clone(),
            quantity: self.quantity,
            available_date: self.available_date,
            supply_type: self.supply_type,
            source_ref: match &self.source_ref {
                Some(s) => Some(s.clone()),
                None => None,
            },
            is_firm: self.is_firm,
        }
    }

    /// Whether the supply was generated by a planning run.
    pub fn is_planned(&self) -> (r: bool)
        ensures
            r == (self.supply_type == SupplyType::PlannedOrder),
    {
        match self.supply_type {
            SupplyType::PlannedOrder => true,
            _ => false,
        }
    }

    /// Whether a planning run may change the supply.
    pub fn is_adjustable(&self) -> (r: bool)
        ensures
            r == (!self.is_firm && self.supply_type == SupplyType::PlannedOrder),
    {
        !self.is_firm && self.is_planned()
    }
}

} // verus!
