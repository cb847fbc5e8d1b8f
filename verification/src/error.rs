//! The error taxonomy of the risk core.
//!
//! Every failure of a request surfaces as exactly one of these kinds; no
//! partial ledger mutation and no outbound instruction accompanies an error.

use vstd::prelude::*;

verus! {

/// Why a request was rejected.
#[derive(Clone, Copy, PartialEq, Eq, Structural, Debug)]
pub enum OverseerError {
    /// A requested collateral withdrawal exceeds the locked amount of that
    /// asset; the caller must reduce the request.
    Underflow,
    /// An asset in the basket has no whitelist entry: a data-consistency
    /// fault upstream, not retryable.
    UnknownCollateral,
    /// The oracle could not answer for the requested asset pair; retryable
    /// once the oracle recovers.
    PriceUnavailable,
    /// Unlocking would leave the debt above the recomputed borrow limit;
    /// the caller must request a smaller withdrawal.
    InsufficientCollateral,
    /// Borrowing would push the debt above the borrow limit; the caller must
    /// request a smaller loan or add collateral first.
    ExceedsLimit,
    /// An arithmetic accumulation left the representable range; rejected
    /// rather than saturated, since silent saturation is a solvency hazard.
    Overflow,
}

} // verus!
