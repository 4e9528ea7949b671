//! Errors of order dispatch.
use crate::order::Symbol;
use vstd::prelude::*;

verus! {

/// Why a command was refused; the ledger is left untouched in every case.
#[derive(Clone, Debug, PartialEq)]
pub enum CalculateAgentError {
    /// The cash balance does not cover the order's notional.
    InsufficientBalance { available: i128, required: u128 },
    /// The spendable holding of the symbol does not cover the quantity.
    InsufficientAssetBalance { symbol: Symbol, available: u128, required: u64 },
    /// A command the engine does not recognise. Dispatch treats `Unknown`
    /// as a no-op, so it never returns this.
    UnknownCommand,
    /// The order's notional or its commission does not fit in a `u64`, or
    /// the agent has used up its order identifiers.
    LimitExceeded,
}

} // verus!
