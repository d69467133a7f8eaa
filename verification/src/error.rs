use vstd::prelude::*;

verus! {

/// Why an operation of the ledger was refused. A refused operation leaves the
/// ledger as it was.
#[derive(Clone, Copy, Debug, PartialEq, Eq, Structural)]
pub enum MarketError {
    /// The caller lacks the privilege that the operation asks for.
    Unauthorized,
    /// The proposition that the call names was never created.
    NotFound,
    /// A proposition with this id is already registered.
    AlreadyExists,
    /// The currency and the operator were already designated.
    AlreadyInitialized,
    /// The proposition was resolved before; resolution happens once.
    AlreadyResolved,
    /// A stake was offered after the proposition was resolved.
    MarketClosed,
    /// An amount is not positive, or a recorded stake is malformed.
    InvalidAmount,
    /// The exact result does not fit the amount type.
    Overflow,
}

} // verus!
