//! The outcomes of a failed ledger operation.
use vstd::prelude::*;

verus! {

/// Why a ledger operation did not take effect.
#[derive(PartialEq, Eq, Structural, Clone, Copy, Debug)]
pub enum LedgerError {
    /// A malformed identifier or input.
    Validation,
    /// The entity is absent, or belongs to another tenant.
    NotFound,
    /// The pool has no free unit left.
    CapacityExceeded,
    /// The subject already holds an active allocation on the pool.
    DuplicateAllocation,
    /// The target status cannot be reached from the current one.
    InvalidTransition,
    /// The store did not answer in time; the caller may retry.
    StoreUnavailable,
    /// The credential was refused by the credential validator.
    AuthRejected,
}

} // verus!
