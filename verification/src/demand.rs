//! Demands: what an item is needed for, how much and when.

use vstd::prelude::*;

use crate::date::Date;
use crate::qty::Qty;

verus! {

/// The origin of a demand.
#[derive(Debug, Clone, Copy, PartialEq, Eq, Structural)]
pub enum DemandType {
    /// A customer order.
    SalesOrder,
    /// A sales forecast.
    Forecast,
    /// A safety-stock requirement.
    SafetyStock,
    /// A requirement derived from a parent planned order.
    Dependent,
}

/// A dated requirement for one item.
#[derive(Debug, Clone)]
pub struct Demand {
    /// Caller-assigned identifier; pegging records repeat it.
    pub id: u64,
    /// The item required.
    pub component_id: String,
    /// How much is required.
    pub quantity: Qty,
    /// The day the quantity is required on.
    pub required_date: Date,
    /// Where the demand comes from.
    pub demand_type: DemandType,
    /// The document the demand stems from, if any.
    pub source_ref: Option<String>,
    /// Priority from 1 (lowest) to 10 (highest).
    pub priority: u8,
    /// The plant or organisation the demand belongs to, if any.
    pub plant_id: Option<String>,
}

/// The mathematical image of a `Demand`.
pub struct DemandView {
    pub id: u64,
    pub component_id: Seq<char>,
    pub quantity: int,
    pub required_date: int,
    pub demand_type: DemandType,
    pub source_ref: Option<Seq<char>>,
    pub priority: u8,
    pub plant_id: Option<Seq<char>>,
}

impl View for Demand {
    type V = DemandView;

    open spec fn view(&self) -> DemandView {
        DemandView {
            id: self.id,
            component_id: self.component_id@,
            quantity: self.quantity@,
            required_date: self.required_date@,
            demand_type: self.demand_type,
            source_ref: match self.source_ref {
                Some(ref s) => Some(s@),
                None => None,
            },
            priority: self.priority,
            plant_id: match self.plant_id {
                Some(ref s) => Some(s@),
                None => None,
            },
        }
    }
}

impl Demand {
    /// A demand with the given essentials; the identifier starts at zero,
    /// priority at the middle of the scale.
    pub fn new(component_id: String, quantity: Qty, required_date: Date, demand_type: DemandType)
        -> (r: Demand)
        ensures
            r.id == 0,
            r.component_id == component_id,
            r.quantity == quantity,
            r.required_date == required_date,
            r.demand_type == demand_type,
            r.source_ref is None,
            r.priority == 5,
            r.plant_id is None,
    {
        Demand {
            id: 0,
            component_id,
            quantity,
            required_date,
            demand_type,
            source_ref: None,
            priority: 5,
            plant_id: None,
        }
    }

    /// Sets the originating document.
    pub fn with_source_ref(self, source_ref: String) -> (r: Demand)
        ensures
            r == (Demand { source_ref: Some(source_ref), ..self }),
    {
        Demand { source_ref: Some(source_ref), ..self }
    }

    /// Sets the priority, capped at the top of the scale.
    pub fn with_priority(self, priority: u8) -> (r: Demand)
        ensures
            r.priority == if priority <= 10 {
                priority
            } else {
                10u8
            },
            r == (Demand { priority: r.priority, ..self }),
    {
        let p: u8 = if priority <= 10 {
            priority
        } else {
            10
        };
        Demand { priority: p, ..self }
    }

    /// Sets the plant.
    pub fn with_plant_id(self, plant_id: String) -> (r: Demand)
        ensures
            r == (Demand { plant_id: Some(plant_id), ..self }),
    {
        Demand { plant_id: Some(plant_id), ..self }
    }

    /// An equal copy of the demand.
    pub fn clone_demand(&self) -> (r: Demand)
        ensures
            r == *self,
    {
        Demand {
            id: self.id,
            component_id: self.component_id.clone(),
            quantity: self.quantity,
            required_date: self.required_date,
            demand_type: self.demand_type,
            source_ref: match &self.source_ref {
                Some(s) => Some(s.clone()),
                None => None,
            },
            priority: self.priority,
            plant_id: match &self.plant_id {
                Some(s) => Some(s.clone()),
                None => None,
            },
        }
    }

    /// Whether the demand arose on its own rather than from a parent order.
    pub fn is_independent(&self) -> (r: bool)
        ensures
            r == (self.demand_type != DemandType::Dependent),
    {
        match self.demand_type {
            DemandType::Dependent => false,
            _ => true,
        }
    }

    /// Whether the demand was derived from a parent planned order.
    pub fn is_dependent(&self) -> (r: bool)
        ensures
            r == (self.demand_type == DemandType::Dependent),
    {
        match self.demand_type {
            DemandType::Dependent => true,
            _ => false,
        }
    }
}

} // verus!
