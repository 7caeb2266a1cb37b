//! The ways a ledger operation can fail.

use vstd::prelude::*;

verus! {

/// Why the ledger, or the server in front of it, refused a request.
#[derive(Clone, Copy, Debug, PartialEq, Eq, Structural)]
pub enum LedgerError {
    /// A required signature does not verify.
    SignatureError,
    /// An issuance does not advance its asset's sequence number.
    ReplayError,
    /// A transfer input is not an unspent output, or is spent twice.
    MissingInputError,
    /// An asset creation names a code already in use.
    DuplicateAssetError,
    /// An issuance names an asset that was never created.
    UnknownAssetError,
    /// A transfer's inputs and outputs do not agree.
    InconsistentOperation,
    /// The operations around a delegation do not pay for it.
    DelegationContextError,
    /// A block is opened while one is open, or finished while none is.
    CapacityError,
    /// A validator is unknown or already known, under-bonded, or malformed.
    StakingError,
    /// Hidden amounts or asset types where plain ones are needed.
    Unsupported,
    /// A counter or a sum would leave its range.
    Overflow,
    /// A block no longer fits the ledger it was opened on.
    InvariantViolation,
}

} // verus!
