//! On-hand inventory per item.

use vstd::prelude::*;

use crate::qty::{fits_qty, Qty};

verus! {

/// The stock position of one item.
#[derive(Debug, Clone)]
pub struct Inventory {
    /// The item held.
    pub component_id: String,
    /// Stock physically on hand.
    pub on_hand_qty: Qty,
    /// The floor the stock should not fall below.
    pub safety_stock: Qty,
    /// Stock already promised elsewhere.
    pub allocated_qty: Qty,
    /// Stock free to plan with: on hand less allocated.
    pub available_qty: Qty,
    /// The warehouse holding the stock, if any.
    pub warehouse_id: Option<String>,
}

/// The mathematical image of an `Inventory`.
pub struct InventoryView {
    pub component_id: Seq<char>,
    pub on_hand_qty: int,
    pub safety_stock: int,
    pub allocated_qty: int,
    pub available_qty: int,
    pub warehouse_id: Option<Seq<char>>,
}

impl View for Inventory {
    type V = InventoryView;

    open spec fn view(&self) -> InventoryView {
        InventoryView {
            component_id: self.component_id@,
            on_hand_qty: self.on_hand_qty@,
            safety_stock: self.safety_stock@,
            allocated_qty: self.allocated_qty@,
            available_qty: self.available_qty@,
            warehouse_id: match self.warehouse_id {
                Some(ref s) => Some(s@),
                None => None,
            },
        }
    }
}

impl Inventory {
    /// A stock position with nothing allocated yet.
    pub fn new(component_id: String, on_hand_qty: Qty, safety_stock: Qty) -> (r: Inventory)
        ensures
            r.component_id == component_id,
            r.on_hand_qty == on_hand_qty,
            r.safety_stock == safety_stock,
            r.allocated_qty@ == 0,
            r.available_qty == on_hand_qty,
            r.warehouse_id is None,
    {
        Inventory {
            component_id,
            on_hand_qty,
            safety_stock,
            allocated_qty: Qty::zero(),
            available_qty: on_hand_qty,
            warehouse_id: None,
        }
    }

    /// Sets the allocated quantity and refreshes the available stock.
    pub fn with_allocated_qty(self, allocated_qty: Qty) -> (r: Inventory)
        requires
            fits_qty(self.on_hand_qty@ - allocated_qty@),
        ensures
            r.allocated_qty == allocated_qty,
            r.available_qty@ == self.on_hand_qty@ - allocated_qty@,
            r.component_id == self.component_id,
            r.on_hand_qty == self.on_hand_qty,
            r.safety_stock == self.safety_stock,
            r.warehouse_id == self.warehouse_id,
    {
        let available = self.on_hand_qty.checked_sub(allocated_qty);
        match available {
            Some(a) => Inventory { allocated_qty, available_qty: a, ..self },
            None => self,
        }
    }

    /// Sets the warehouse.
    pub fn with_warehouse_id(self, warehouse_id: String) -> (r: Inventory)
        ensures
            r == (Inventory { warehouse_id: Some(warehouse_id), ..self }),
    {
        Inventory { warehouse_id: Some(warehouse_id), ..self }
    }

    /// Refreshes the available stock from on-hand and allocated.
    pub fn calculate_available(&mut self)
        requires
            fits_qty(old(self).on_hand_qty@ - old(self).allocated_qty@),
        ensures
            final(self).available_qty@ == old(self).on_hand_qty@ - old(self).allocated_qty@,
            final(self).component_id == old(self).component_id,
            final(self).on_hand_qty == old(self).on_hand_qty,
            final(self).safety_stock == old(self).safety_stock,
            final(self).allocated_qty == old(self).allocated_qty,
            final(self).warehouse_id == old(self).warehouse_id,
    {
        match self.on_hand_qty.checked_sub(self.allocated_qty) {
            Some(a) => {
                self.available_qty = a;
            },
            None => {},
        }
    }

    /// Whether the available stock has fallen below the safety floor.
    pub fn is_below_safety_stock(&self) -> (r: bool)
        ensures
            r == (self.available_qty@ < self.safety_stock@),
    {
        self.available_qty.lt(&self.safety_stock)
    }

    /// How much must be added to lift the available stock back to the
    /// safety floor; zero when the floor holds.
    pub fn replenishment_needed(&self) -> (r: Qty)
        requires
            fits_qty(self.safety_stock@ - self.available_qty@),
        ensures
            r@ == if self.available_qty@ < self.safety_stock@ {
                self.safety_stock@ - self.available_qty@
            } else {
                0int
            },
    {
        if self.is_below_safety_stock() {
            match self.safety_stock.checked_sub(self.available_qty) {
                Some(d) => d,
                None => Qty::zero(),
            }
        } else {
            Qty::zero()
        }
    }

    /// Reserves `quantity` of the available stock; refuses a reservation
    /// larger than what is available.
    pub fn allocate(&mut self, quantity: Qty) -> (r: Result<(), String>)
        requires
            fits_qty(old(self).allocated_qty@ + quantity@),
            fits_qty(old(self).on_hand_qty@ - (old(self).allocated_qty@ + quantity@)),
        ensures
            r is Ok <==> quantity@ <= old(self).available_qty@,
            r is Ok ==> final(self).allocated_qty@ == old(self).allocated_qty@ + quantity@
                && final(self).available_qty@ == old(self).on_hand_qty@ - old(self).allocated_qty@
                - quantity@,
            r is Err ==> *final(self) == *old(self),
            final(self).component_id == old(self).component_id,
            final(self).on_hand_qty == old(self).on_hand_qty,
            final(self).safety_stock == old(self).safety_stock,
            final(self).warehouse_id == old(self).warehouse_id,
    {
        if self.available_qty.lt(&quantity) {
            return Err(String::from_str("allocation exceeds available stock"));
        }
        match self.allocated_qty.checked_add(quantity) {
            Some(a) => {
                self.allocated_qty = a;
            },
            None => {},
        }
        self.calculate_available();
        Ok(())
    }

    /// Releases `quantity` of the reserved stock; refuses a release
    /// larger than what is reserved.
    pub fn deallocate(&mut self, quantity: Qty) -> (r: Result<(), String>)
        requires
            fits_qty(old(self).allocated_qty@ - quantity@),
            fits_qty(old(self).on_hand_qty@ - (old(self).allocated_qty@ - quantity@)),
        ensures
            r is Ok <==> quantity@ <= old(self).allocated_qty@,
            r is Ok ==> final(self).allocated_qty@ == old(self).allocated_qty@ - quantity@
                && final(self).available_qty@ == old(self).on_hand_qty@ - old(self).allocated_qty@
                + quantity@,
            r is Err ==> *final(self) == *old(self),
            final(self).component_id == old(self).component_id,
            final(self).on_hand_qty == old(self).on_hand_qty,
            final(self).safety_stock == old(self).safety_stock,
            final(self).warehouse_id == old(self).warehouse_id,
    {
        if self.allocated_qty.lt(&quantity) {
            return Err(String::from_str("release exceeds allocated stock"));
        }
        match self.allocated_qty.checked_sub(quantity) {
            Some(a) => {
                self.allocated_qty = a;
            },
            None => {},
        }
        self.calculate_available();
        Ok(())
    }
}

} // verus!
