//! Order records and their lifecycle.
use vstd::prelude::*;

verus! {

/// Seconds (or any monotonic unit) since the epoch.
pub type TimeStamp = u64;

/// Identifier of an order, unique within the agent that created it.
pub type OrderId = u64;

/// Name of a traded instrument, such as `BTC`.
pub type Symbol = String;

#[derive(Clone, Copy, Debug, PartialEq, Eq, Hash, Structural)]
pub enum OrderStatus {
    Open,
    Close,
    Cancel,
}

#[derive(Clone, Copy, Debug, PartialEq, Eq, Hash, Structural)]
pub enum OrderSide {
    Buy,
    Sell,
}

#[derive(Clone, Copy, Debug, PartialEq, Eq, Hash, Structural)]
pub enum OrderType {
    Market,
    Limit,
}

/// Lifecycle record of one order. `price` is in quote minor units per base
/// lot, `qty` in base lots, `commission` in quote minor units.
#[derive(Clone, Debug, PartialEq, Eq)]
pub struct Order {
    pub symbol: Symbol,
    pub created_at: TimeStamp,
    pub finished_at: TimeStamp,
    pub price: u64,
    pub qty: u64,
    pub commission: u64,
    pub id: OrderId,
    pub status: OrderStatus,
    pub side: OrderSide,
    pub order_type: OrderType,
    pub expiration: Option<TimeStamp>,
}

/// Value of `qty` lots at `price`, in quote minor units.
pub open spec fn notional(qty: u64, price: u64) -> int {
    qty as int * price as int
}

impl Order {
    pub open spec fn notional(self) -> int {
        notional(self.qty, self.price)
    }

    /// The same record, moved to `status` at time `t`.
    pub open spec fn finished(self, status: OrderStatus, t: TimeStamp) -> Order {
        Order { status: status, finished_at: t, ..self }
    }

    /// A field-for-field copy of the record.
    pub fn duplicate(&self) -> (r: Order)
        ensures
            r == *self,
    {
        Order {
            symbol: self.symbol.clone(),
            created_at: self.created_at,
            finished_at: self.finished_at,
            price: self.price,
            qty: self.qty,
            commission: self.commission,
            id: self.id,
            status: self.status,
            side: self.side,
            order_type: self.order_type,
            expiration: self.expiration,
        }
    }
}

} // verus!
