//! Fixed-precision decimal quantities.
//!
//! All planning arithmetic runs on `Qty`, an exact count of 1/10000 of a
//! unit held in an `i64`.  Addition and subtraction are exact; the product
//! of two quantities is truncated to the same precision.  Every operation
//! is checked: an out-of-range result is reported, never wrapped.

use vstd::prelude::*;

verus! {

/// Fixed-point units per whole quantity unit.
pub const QTY_SCALE: i64 = 10000;

/// Largest whole-unit magnitude that `Qty::from_int` accepts.
pub const QTY_INT_MAX: i64 = 900_000_000_000_000;

/// A fixed-precision decimal quantity: an exact count of 1/10000 units.
#[derive(Clone, Copy, Debug, PartialEq, Eq, Structural, PartialOrd, Ord, Hash)]
pub struct Qty {
    units: i64,
}

impl View for Qty {
    type V = int;

    closed spec fn view(&self) -> int {
        self.units as int
    }
}

impl Qty {
    /// The zero quantity.
    pub fn zero() -> (r: Qty)
        ensures
            r@ == 0,
    {
        Qty { units: 0 }
    }

    /// A whole-unit quantity.
    pub fn from_int(n: i64) -> (r: Qty)
        requires
            -QTY_INT_MAX <= n <= QTY_INT_MAX,
        ensures
            r@ == n * QTY_SCALE,
    {
        Qty { units: n * QTY_SCALE }
    }

    /// A quantity given directly in 1/10000 units.
    pub fn from_units(units: i64) -> (r: Qty)
        ensures
            r@ == units,
    {
        Qty { units }
    }

    /// The count of 1/10000 units.
    pub fn units(&self) -> (r: i64)
        ensures
            r == self@,
    {
        self.units
    }

    pub fn is_zero(&self) -> (r: bool)
        ensures
            r == (self@ == 0),
    {
        self.units == 0
    }

    pub fn is_positive(&self) -> (r: bool)
        ensures
            r == (self@ > 0),
    {
        self.units > 0
    }

    pub fn lt(&self, other: &Qty) -> (r: bool)
        ensures
            r == (self@ < other@),
    {
        self.units < other.units
    }

    pub fn le(&self, other: &Qty) -> (r: bool)
        ensures
            r == (self@ <= other@),
    {
        self.units <= other.units
    }

    /// Exact sum, or `None` when it does not fit.
    pub fn checked_add(self, other: Qty) -> (r: Option<Qty>)
        ensures
            match r {
                Some(s) => s@ == self@ + other@,
                None => !fits_qty(self@ + other@),
            },
    {
        match self.units.checked_add(other.units) {
            Some(u) => Some(Qty { units: u }),
            None => None,
        }
    }

    /// Exact difference, or `None` when it does not fit.
    pub fn checked_sub(self, other: Qty) -> (r: Option<Qty>)
        ensures
            match r {
                Some(s) => s@ == self@ - other@,
                None => !fits_qty(self@ - other@),
            },
    {
        match self.units.checked_sub(other.units) {
            Some(u) => Some(Qty { units: u }),
            None => None,
        }
    }

    /// The smaller of two quantities.
    pub fn min_with(self, other: Qty) -> (r: Qty)
        ensures
            r@ == if self@ <= other@ { self@ } else { other@ },
    {
        if self.units <= other.units {
            self
        } else {
            other
        }
    }
}

/// Whether an exact unit count fits in the `Qty` representation.
pub open spec fn fits_qty(units: int) -> bool {
    i64::MIN <= units <= i64::MAX
}

/// Every held quantity fits its own representation.
pub broadcast proof fn lemma_qty_fits(q: Qty)
    ensures
        #[trigger] fits_qty(q@),
{
}

} // verus!
