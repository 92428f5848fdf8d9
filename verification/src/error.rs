//! Error kinds of the planning kernel.
//!
//! Every error is fatal to the run that raised it and carries the item
//! or message it concerns; no partial result accompanies one.

use vstd::prelude::*;

verus! {

/// The failure kinds a planning run can report.
#[derive(Debug, Clone)]
pub enum MrpError {
    /// An item reached by the kernel has no planning configuration.
    ConfigNotFound(String),
    /// The bill of materials could not be read consistently.
    BomExplosionError(String),
    /// The items to plan contain a dependency cycle.
    TopologicalSortError(String),
    /// A fixed-lot policy was selected without a fixed lot size.
    MissingLotSize,
    /// Date arithmetic left the supported range.
    InvalidDate(String),
    /// Quantity arithmetic left the representable range.
    CalculationError(String),
    /// Any other integrator-supplied failure.
    Other(String),
}

impl MrpError {
    pub fn is_missing_lot_size(&self) -> (r: bool)
        ensures
            r == (self is MissingLotSize),
    {
        match self {
            MrpError::MissingLotSize => true,
            _ => false,
        }
    }
}

} // verus!
