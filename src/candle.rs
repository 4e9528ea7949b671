//! Market bars.
use crate::order::{Symbol, TimeStamp};
use vstd::prelude::*;

verus! {

/// One bar of price action for one symbol. Prices are in quote minor units
/// per base lot.
#[derive(Clone, Debug, PartialEq, Eq)]
pub struct Candle {
    pub symbol: Symbol,
    pub start_time: TimeStamp,
    pub open: u64,
    pub high: u64,
    pub low: u64,
    pub close: u64,
}

impl Candle {
    /// A field-for-field copy of the bar.
    pub fn duplicate(&self) -> (r: Candle)
        ensures
            r == *self,
    {
        Candle {
            symbol: self.symbol.clone(),
            start_time: self.start_time,
            open: self.open,
            high: self.high,
            low: self.low,
            close: self.close,
        }
    }
}

} // verus!
