//! The outcome of a planning run.

use vstd::prelude::*;

use std::collections::HashMap;

use crate::plan::{PeggingRecord, PlannedOrder};

verus! {

/// How serious a warning is.
#[derive(Debug, Clone, Copy, PartialEq, Eq, Structural)]
pub enum WarningSeverity {
    Info,
    Warning,
    Error,
}

/// A non-fatal finding attached to a planning result.
#[derive(Debug, Clone)]
pub struct MrpWarning {
    /// The item the finding concerns.
    pub component_id: String,
    /// What was found.
    pub message: String,
    /// How serious the finding is.
    pub severity: WarningSeverity,
}

impl MrpWarning {
    pub fn new(component_id: String, message: String, severity: WarningSeverity) -> (r: MrpWarning)
        ensures
            r.component_id == component_id,
            r.message == message,
            r.severity == severity,
    {
        MrpWarning { component_id, message, severity }
    }

    pub fn info(component_id: String, message: String) -> (r: MrpWarning)
        ensures
            r.component_id == component_id,
            r.message == message,
            r.severity == WarningSeverity::Info,
    {
        Self::new(component_id, message, WarningSeverity::Info)
    }

    pub fn warning(component_id: String, message: String) -> (r: MrpWarning)
        ensures
            r.component_id == component_id,
            r.message == message,
            r.severity == WarningSeverity::Warning,
    {
        Self::new(component_id, message, WarningSeverity::Warning)
    }

    pub fn error(component_id: String, message: String) -> (r: MrpWarning)
        ensures
            r.component_id == component_id,
            r.message == message,
            r.severity == WarningSeverity::Error,
    {
        Self::new(component_id, message, WarningSeverity::Error)
    }
}

/// Everything one planning run produced.
#[derive(Debug)]
pub struct MrpResult {
    /// The proposed orders, identifiers unique within the result.
    pub planned_orders: Vec<PlannedOrder>,
    /// Pegging records per planned-order identifier.
    pub pegging: HashMap<u64, Vec<PeggingRecord>>,
    /// Non-fatal findings.
    pub warnings: Vec<MrpWarning>,
    /// Wall time of the run, where the caller measured one.
    pub calculation_time_ms: Option<u128>,
}

impl MrpResult {
    /// A result holding nothing.
    pub fn empty() -> (r: MrpResult)
        ensures
            r.planned_orders@.len() == 0,
            r.warnings@.len() == 0,
            r.calculation_time_ms is None,
    {
        MrpResult {
            planned_orders: Vec::new(),
            pegging: HashMap::new(),
            warnings: Vec::new(),
            calculation_time_ms: None,
        }
    }

    /// Attaches one finding.
    pub fn add_warning(&mut self, warning: MrpWarning)
        ensures
            final(self).warnings@ == old(self).warnings@.push(warning),
            final(self).planned_orders == old(self).planned_orders,
            final(self).pegging == old(self).pegging,
            final(self).calculation_time_ms == old(self).calculation_time_ms,
    {
        self.warnings.push(warning);
    }
}

/// The orders one item's planning step produced.
#[derive(Debug)]
pub struct ComponentMrpResult {
    /// The item planned.
    pub component_id: String,
    /// The orders the step emitted.
    pub planned_orders: Vec<PlannedOrder>,
}

} // verus!
