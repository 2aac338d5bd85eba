//! Request-level errors.
//!
//! A failed request reports one of these and mutates no state.  Filter
//! problems are never request-level errors: an unusable filter is stored
//! and annotated instead.

use vstd::prelude::*;

verus! {

/// Why a request failed.
#[derive(Clone, Copy, PartialEq, Eq, Structural, Debug)]
pub enum EngineError {
    /// A column index was at or beyond the column count.
    ColumnIndexOutOfRange,
    /// A row position was beyond the current view.
    RowIndexOutOfRange,
    /// A sort key named a column index at or beyond the column count.
    SortKeyOutOfRange,
    /// The session was closed by a source-removed update.
    SessionClosed,
}

impl EngineError {
    /// A human-readable description of the failure.
    pub fn message(&self) -> (r: String)
        ensures
            r@.len() > 0,
    {
        match self {
            EngineError::ColumnIndexOutOfRange => {
                let s = "column index is out of range";
                proof {
                    reveal_strlit("column index is out of range");
                }
                s.to_owned()
            },
            EngineError::RowIndexOutOfRange => {
                let s = "row index is out of range";
                proof {
                    reveal_strlit("row index is out of range");
                }
                s.to_owned()
            },
            EngineError::SortKeyOutOfRange => {
                let s = "sort key column index is out of range";
                proof {
                    reveal_strlit("sort key column index is out of range");
                }
                s.to_owned()
            },
            EngineError::SessionClosed => {
                let s = "session is closed";
                proof {
                    reveal_strlit("session is closed");
                }
                s.to_owned()
            },
        }
    }
}

} // verus!
