//! A verified material-requirements-planning kernel.
//!
//! Given independent demands, existing supplies, starting inventory, a
//! bill-of-materials graph and per-item planning parameters, the kernel
//! produces planned orders that cover all demand, together with pegging
//! records that trace each order back to the demands it satisfies.

pub mod bom;
pub mod bucketing;
pub mod calculator;
pub mod calendar;
pub mod config;
pub mod date;
pub mod demand;
pub mod dirty;
pub mod error;
pub mod inventory;
pub mod lead_time;
pub mod lot_sizing;
pub mod netting;
pub mod optimize;
pub mod pegging;
pub mod plan;
pub mod qty;
pub mod result;
pub mod supply;
