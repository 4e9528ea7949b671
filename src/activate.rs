//! The contract between the engine and a strategy.
use crate::candle::Candle;
use crate::command::CalculateCommand;
use crate::order::{Order, Symbol, TimeStamp};
use crate::result::CalculateResult;
use vstd::prelude::*;

verus! {

/// One thing the engine told a strategy.
#[derive(Clone, Debug)]
pub enum Notice {
    /// An order at the given time: as created, closed or cancelled.
    Order(TimeStamp, Order),
    /// The end of the tick at the given time, with the snapshot and the bars.
    EndRound(TimeStamp, CalculateResult, Vec<Candle>),
    /// The end of the timeline, with the final snapshot.
    End(CalculateResult),
}

/// The notices for `orders`, in order, all at time `t`.
pub open spec fn order_notices(t: TimeStamp, orders: Seq<Order>) -> Seq<Notice> {
    orders.map_values(|o: Order| Notice::Order(t, o))
}

/// A strategy ("activation policy"). The engine asks it for commands once
/// per tick and tells it about every order transition; it never hands the
/// strategy a mutable view of the ledger. `notices` and `decide` describe the
/// strategy's behaviour: an implementation returns from them what it has
/// recorded and what `activate` would return.
pub trait Activate {
    /// Everything the engine has told this strategy, oldest first.
    spec fn notices(&self) -> Vec<Notice>;

    /// The commands the strategy, in its current state, returns for the
    /// given inputs.
    spec fn decide(
        &self,
        candles: Vec<Candle>,
        prices: Vec<(Symbol, u64)>,
        results: CalculateResult,
        active: Vec<Order>,
    ) -> Vec<CalculateCommand>;

    /// Commands for the current tick, given the bars of the previous tick,
    /// the open price of each symbol on the current tick, the agent's
    /// snapshot and its open orders in queue order.
    fn activate(
        &self,
        candles: &Vec<Candle>,
        prices: &Vec<(Symbol, u64)>,
        results: &CalculateResult,
        active: &Vec<Order>,
    ) -> (r: Vec<CalculateCommand>)
        ensures
            r@ == self.decide(*candles, *prices, *results, *active)@,
    ;

    /// Called when an order is created and when it is closed or cancelled.
    fn on_order(&mut self, ts: TimeStamp, order: &Order)
        ensures
            final(self).notices()@ == old(self).notices()@.push(Notice::Order(ts, *order)),
    ;

    /// Called once all commands and fills of a tick are processed.
    fn on_end_round(&mut self, ts: TimeStamp, result: &CalculateResult, candles: &Vec<Candle>)
        ensures
            final(self).notices()@ == old(self).notices()@.push(
                Notice::EndRound(ts, *result, *candles),
            ),
    ;

    /// Called once the timeline is exhausted.
    fn on_end(&mut self, result: CalculateResult)
        ensures
            final(self).notices()@ == old(self).notices()@.push(Notice::End(result)),
    ;
}

} // verus!
