//! Error kinds shared by every public operation of the core.
//!
//! Every error is terminal for the call that raised it: the operation
//! returns the kind below and leaves the state exactly as it found it.

use vstd::prelude::*;

verus! {

/// Why a call was rejected.
#[derive(Clone, Copy, Debug, PartialEq, Eq, Structural)]
pub enum Error {
    /// The caller lacks the governor privilege required by the operation.
    Unauthorized,
    /// The spender's allowance on the owner's shares is below the requested amount.
    InsufficientAllowance,
    /// The debited party holds fewer shares than the requested amount.
    InsufficientBalance,
    /// The seller holds fewer shares than the buyer asked for.
    InsufficientShares,
    /// The amount attached to the call is below what the operation charges.
    InsufficientPayment,
    /// Rent would be prepaid further ahead than the rental limit permits.
    PrepaymentLimitExceeded,
    /// A parameter is outside its documented range (tax above 100, zero block time).
    InvalidParameter,
    /// The caller has no accrued revenue to withdraw.
    NothingToWithdraw,
}

} // verus!
