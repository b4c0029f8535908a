//! What can be wrong with the bytes of a trace.

use vstd::prelude::*;

verus! {

/// Why a trace could not be decoded.
///
/// All 24-byte patterns are records, so the only fault a trace can have is a
/// last record that was cut short. A trace that ends on a record boundary is
/// no fault, however few records it holds.
#[derive(Debug, Clone, Copy, PartialEq, Eq, Structural)]
pub enum TraceError {
    /// The input ended inside a record.
    TruncatedRecord {
        /// How many whole records came before the torn one.
        complete: usize,
        /// How many bytes of the torn record were there: 1 to 23.
        trailing: usize,
    },
}

} // verus!
