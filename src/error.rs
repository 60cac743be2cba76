use vstd::prelude::*;

verus! {

/// Why a value could not be taken into a reconciliation record.
#[derive(Debug, Clone, Copy, PartialEq, Eq, Structural)]
pub enum ReconcileError {
    /// A setting, such as a contract address or the block range, is malformed.
    Configuration,
    /// A hexadecimal or numeric field does not denote a 256-bit word.
    InvalidInput,
    /// The reconstructed amount does not fit a field element.
    AmountOutOfRange,
}

} // verus!
