//! Read-only snapshots of a ledger.
use crate::ledger::LedgerView;
use crate::order::Symbol;
use vstd::prelude::*;

verus! {

/// Projection of an agent's ledger taken at one instant. Balances are in
/// quote minor units, asset quantities in base lots, listed per symbol in
/// the order in which the ledger first held each symbol.
#[derive(Clone, Debug)]
pub struct CalculateResult {
    pub balance: i128,
    pub min_balance: i128,
    pub opened_orders: usize,
    pub executed_orders: usize,
    pub assets_available: Vec<(Symbol, u128)>,
    pub assets_frozen: Vec<(Symbol, u128)>,
}

impl CalculateResult {
    /// Whether this snapshot shows ledger `v`: its balances, its order
    /// counts, and the available and frozen quantity of each held symbol.
    pub open spec fn describes(self, v: LedgerView) -> bool {
        &&& self.balance == v.balance
        &&& self.min_balance == v.min_balance
        &&& self.opened_orders == v.queue.len()
        &&& self.executed_orders == v.executed.len()
        &&& self.assets_available@.len() == v.holdings.len()
        &&& self.assets_frozen@.len() == v.holdings.len()
        &&& forall|i: int|
            0 <= i < v.holdings.len() ==> #[trigger] self.assets_available@[i] == (
                v.holdings[i].symbol,
                v.holdings[i].available,
            )
        &&& forall|i: int|
            0 <= i < v.holdings.len() ==> #[trigger] self.assets_frozen@[i] == (
                v.holdings[i].symbol,
                v.holdings[i].frozen,
            )
    }
}

/// Position of one symbol: cash, queued orders on the symbol, spendable
/// quantity and its value at the bar's open price (`None` when that value
/// does not fit in a `u128`).
#[derive(Clone, Debug)]
pub struct CalculateStats {
    pub balance: i128,
    pub orders: usize,
    pub count: u128,
    pub real: Option<u128>,
    pub assets_available: Vec<(Symbol, u128)>,
    pub assets_frozen: Vec<(Symbol, u128)>,
}

} // verus!
