//! Planned orders and their pegging records.

use vstd::prelude::*;

use crate::date::Date;
use crate::qty::Qty;

verus! {

/// What kind of order a planning run proposes.
#[derive(Debug, Clone, Copy, PartialEq, Eq, Structural)]
pub enum PlannedOrderType {
    /// Buy the quantity.
    Purchase,
    /// Make the quantity.
    Production,
    /// Move the quantity from another plant.
    Transfer,
}

/// One pegged share of a planned order, traced to a demand.
#[derive(Debug, Clone)]
pub struct PeggingRecord {
    /// The demand the share satisfies.
    pub demand_id: u64,
    /// How much of the order is pegged to that demand.
    pub quantity: Qty,
    /// Item path from the highest traced ancestor down to the pegged item.
    pub path: Vec<String>,
}

/// The mathematical image of a `PeggingRecord`.
pub struct PeggingRecordView {
    pub demand_id: u64,
    pub quantity: int,
    pub path: Seq<Seq<char>>,
}

impl View for PeggingRecord {
    type V = PeggingRecordView;

    open spec fn view(&self) -> PeggingRecordView {
        PeggingRecordView {
            demand_id: self.demand_id,
            quantity: self.quantity@,
            path: self.path@.map_values(|s: String| s@),
        }
    }
}

impl PeggingRecord {
    /// A record with an empty path.
    pub fn new(demand_id: u64, quantity: Qty) -> (r: PeggingRecord)
        ensures
            r.demand_id == demand_id,
            r.quantity == quantity,
            r.path@.len() == 0,
    {
        PeggingRecord { demand_id, quantity, path: Vec::new() }
    }

    /// Replaces the path.
    pub fn with_path(self, path: Vec<String>) -> (r: PeggingRecord)
        ensures
            r.demand_id == self.demand_id,
            r.quantity == self.quantity,
            r.path == path,
    {
        PeggingRecord { path, ..self }
    }

    /// Appends one item to the path.
    pub fn add_path_node(&mut self, node: String)
        ensures
            final(self).path@ == old(self).path@.push(node),
            final(self).demand_id == old(self).demand_id,
            final(self).quantity == old(self).quantity,
    {
        self.path.push(node);
    }

    /// How many path levels the record carries.
    pub fn depth(&self) -> (r: usize)
        ensures
            r == self.path@.len(),
    {
        self.path.len()
    }
}

/// An order proposed by a planning run.
#[derive(Debug, Clone)]
pub struct PlannedOrder {
    /// Identifier assigned by the planning run, unique within a result.
    pub id: u64,
    /// The item ordered.
    pub component_id: String,
    /// How much is ordered.
    pub quantity: Qty,
    /// The day the quantity must be available.
    pub required_date: Date,
    /// The day the order must be placed or started.
    pub order_date: Date,
    /// What kind of order it is.
    pub order_type: PlannedOrderType,
    /// The supplier or work centre, if chosen.
    pub source_id: Option<String>,
    /// The demands the order is pegged to.
    pub pegging: Vec<PeggingRecord>,
}

/// The mathematical image of a `PlannedOrder`.
pub struct PlannedOrderView {
    pub id: u64,
    pub component_id: Seq<char>,
    pub quantity: int,
    pub required_date: int,
    pub order_date: int,
    pub order_type: PlannedOrderType,
    pub source_id: Option<Seq<char>>,
    pub pegging: Seq<PeggingRecordView>,
}

impl View for PlannedOrder {
    type V = PlannedOrderView;

    open spec fn view(&self) -> PlannedOrderView {
        PlannedOrderView {
            id: self.id,
            component_id: self.component_id@,
            quantity: self.quantity@,
            required_date: self.required_date@,
            order_date: self.order_date@,
            order_type: self.order_type,
            source_id: match self.source_id {
                Some(ref s) => Some(s@),
                None => None,
            },
            pegging: self.pegging@.map_values(|p: PeggingRecord| p@),
        }
    }
}

impl PlannedOrder {
    /// An order with the given essentials, not yet pegged; the
    /// identifier starts at zero until a planning run assigns one.
    pub fn new(
        component_id: String,
        quantity: Qty,
        required_date: Date,
        order_date: Date,
        order_type: PlannedOrderType,
    ) -> (r: PlannedOrder)
        ensures
            r.id == 0,
            r.component_id == component_id,
            r.quantity == quantity,
            r.required_date == required_date,
            r.order_date == order_date,
            r.order_type == order_type,
            r.source_id is None,
            r.pegging@.len() == 0,
    {
        PlannedOrder {
            id: 0,
            component_id,
            quantity,
            required_date,
            order_date,
            order_type,
            source_id: None,
            pegging: Vec::new(),
        }
    }

    /// Sets the supplier or work centre.
    pub fn with_source_id(self, source_id: String) -> (r: PlannedOrder)
        ensures
            r == (PlannedOrder { source_id: Some(source_id), ..self }),
    {
        PlannedOrder { source_id: Some(source_id), ..self }
    }

    /// Replaces the pegging records.
    pub fn with_pegging(self, pegging: Vec<PeggingRecord>) -> (r: PlannedOrder)
        ensures
            r == (PlannedOrder { pegging, ..self }),
    {
        PlannedOrder { pegging, ..self }
    }

    /// Appends one pegging record.
    pub fn add_pegging(&mut self, record: PeggingRecord)
        ensures
            final(self).pegging@ == old(self).pegging@.push(record),
            final(self).id == old(self).id,
            final(self).component_id == old(self).component_id,
            final(self).quantity == old(self).quantity,
            final(self).required_date == old(self).required_date,
            final(self).order_date == old(self).order_date,
            final(self).order_type == old(self).order_type,
            final(self).source_id == old(self).source_id,
    {
        self.pegging.push(record);
    }

    /// Calendar days between ordering and availability.
    pub fn lead_time_days(&self) -> (r: i64)
        requires
            i64::MIN <= self.required_date@ - self.order_date@ <= i64::MAX,
        ensures
            r == self.required_date@ - self.order_date@,
    {
        self.required_date.days_since(self.order_date)
    }

    /// Whether the order buys the quantity.
    pub fn is_purchase(&self) -> (r: bool)
        ensures
            r == (self.order_type == PlannedOrderType::Purchase),
    {
        match self.order_type {
            PlannedOrderType::Purchase => true,
            _ => false,
        }
    }

    /// Whether the order makes the quantity.
    pub fn is_production(&self) -> (r: bool)
        ensures
            r == (self.order_type == PlannedOrderType::Production),
    {
        match self.order_type {
            PlannedOrderType::Production => true,
            _ => false,
        }
    }
}

} // verus!
