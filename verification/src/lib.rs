//! A verified view engine over in-memory tabular data.
//!
//! The engine keeps per-session view state (row filters, sort keys, and the
//! derived row-index mapping) over an immutable table snapshot, recomputes the
//! visible row set when that state changes, detects mutation of the source
//! table, and answers schema, data, profile, and export queries consistently
//! with the current view.

pub mod fixed;
pub mod numfmt;
pub mod cells;
pub mod textsearch;
pub mod table;
pub mod errors;
pub mod filter;
pub mod sorting;
pub mod session;
pub mod profile;
pub mod export;
pub mod laws;

use vstd::prelude::*;

verus! {

/// Number of fractional decimal digits carried by every scaled number.
pub const FIXED_SCALE_DIGITS: u32 = 4;

} // verus!
