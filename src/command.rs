//! Commands that a policy emits for the next bar.
use crate::order::{OrderId, Symbol, TimeStamp};
use vstd::prelude::*;

verus! {

/// What a policy wants done on the current bar. `stake` is a quantity in
/// base lots; `price` is in quote minor units per lot.
#[derive(Clone, Debug)]
pub enum CalculateCommand {
    Unknown,
    NoOp,
    BuyMarket { symbol: Symbol, stake: u64 },
    SellMarket { symbol: Symbol, stake: u64 },
    BuyLimit { symbol: Symbol, stake: u64, price: u64, expiration: Option<TimeStamp> },
    SellLimit { symbol: Symbol, stake: u64, price: u64, expiration: Option<TimeStamp> },
    CancelLimit { symbol: Symbol, id: OrderId },
}

impl CalculateCommand {
    /// The symbol the command targets; empty for `None` and `Unknown`.
    pub open spec fn symbol(self) -> Seq<char> {
        match self {
            CalculateCommand::BuyMarket { symbol, .. } => symbol@,
            CalculateCommand::SellMarket { symbol, .. } => symbol@,
            CalculateCommand::BuyLimit { symbol, .. } => symbol@,
            CalculateCommand::SellLimit { symbol, .. } => symbol@,
            CalculateCommand::CancelLimit { symbol, .. } => symbol@,
            _ => Seq::empty(),
        }
    }

    pub fn get_symbol(&self) -> (r: Symbol)
        ensures
            r@ == self.symbol(),
    {
        match self {
            CalculateCommand::BuyMarket { symbol, .. } => symbol.clone(),
            CalculateCommand::SellMarket { symbol, .. } => symbol.clone(),
            CalculateCommand::BuyLimit { symbol, .. } => symbol.clone(),
            CalculateCommand::SellLimit { symbol, .. } => symbol.clone(),
            CalculateCommand::CancelLimit { symbol, .. } => symbol.clone(),
            _ => String::new(),
        }
    }

    /// A variant-for-variant copy of the command.
    pub fn duplicate(&self) -> (r: CalculateCommand)
        ensures
            r == *self,
    {
        match self {
            CalculateCommand::Unknown => CalculateCommand::Unknown,
            CalculateCommand::NoOp => CalculateCommand::NoOp,
            CalculateCommand::BuyMarket { symbol, stake } => CalculateCommand::BuyMarket {
                symbol: symbol.clone(),
                stake: *stake,
            },
            CalculateCommand::SellMarket { symbol, stake } => CalculateCommand::SellMarket {
                symbol: symbol.clone(),
                stake: *stake,
            },
            CalculateCommand::BuyLimit { symbol, stake, price, expiration } => CalculateCommand::BuyLimit {
                symbol: symbol.clone(),
                stake: *stake,
                price: *price,
                expiration: *expiration,
            },
            CalculateCommand::SellLimit { symbol, stake, price, expiration } => CalculateCommand::SellLimit {
                symbol: symbol.clone(),
                stake: *stake,
                price: *price,
                expiration: *expiration,
            },
            CalculateCommand::CancelLimit { symbol, id } => CalculateCommand::CancelLimit {
                symbol: symbol.clone(),
                id: *id,
            },
        }
    }
}

} // verus!
