//! An in-memory index of automotive diagnostic error records.
//!
//! Records are loaded in bulk from comma-separated tabular text and then
//! queried by exact code, by subsystem, by severity, or by keyword search.

pub mod index;
pub mod record;
pub mod strutil;
