//! Error taxonomy. Every failure is scoped to a single record, address or
//! chunk; none of them aborts a whole scan.

use vstd::prelude::*;

verus! {

#[derive(Clone, Copy, Debug, PartialEq, Eq, Structural)]
pub enum ScanError {
    /// The record is shorter than the fixed mint layout, or a fixed field
    /// holds a value the layout does not allow. The caller skips the record.
    MalformedRecord,
    /// A TLV entry declares a length that runs past the end of the extension
    /// region. The caller discards extension parsing for that record.
    TruncatedExtension,
    /// No bump byte yields an off-curve derived address. A hard failure for
    /// that single source address only.
    NoValidBumpFound,
    /// The remote request for one batch chunk failed outright. Every slot of
    /// that chunk degrades to "not found".
    BatchRequestFailed,
}

} // verus!
