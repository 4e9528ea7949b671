//! The mathematical model of an agent's ledger and its transitions.
use crate::activate::{order_notices, Notice};
use crate::candle::Candle;
use crate::errors::CalculateAgentError;
use crate::order::{notional, Order, OrderSide, OrderStatus, OrderType, Symbol, TimeStamp};
use crate::sums::{lemma_sum_bounds, lemma_sum_concat, lemma_sum_push, lemma_sum_remove, sum_of};
use vstd::arithmetic::div_mod::lemma_div_pos_is_pos;
use vstd::prelude::*;

verus! {

/// Commission rates are counted in parts of this many.
pub const COMMISSION_SCALE: u64 = 100_000_000;

/// Order identifiers are handed out below this bound.
pub const ORDER_ID_LIMIT: u64 = 0x4000_0000_0000_0000;

/// Largest notional an order may have.
pub const NOTIONAL_LIMIT: u128 = 0xFFFF_FFFF_FFFF_FFFF;

/// Asset quantities of one symbol: `available` may be sold, `frozen` is
/// reserved by open sell-limit orders.
#[derive(Clone, Debug)]
pub struct Holding {
    pub symbol: Symbol,
    pub available: u128,
    pub frozen: u128,
}

pub open spec fn has_symbol(h: Seq<Holding>, s: Seq<char>) -> bool {
    exists|i: int| 0 <= i < h.len() && #[trigger] h[i].symbol@ == s
}

pub open spec fn symbol_index(h: Seq<Holding>, s: Seq<char>) -> int {
    choose|i: int| 0 <= i < h.len() && #[trigger] h[i].symbol@ == s
}

pub open spec fn available_in(h: Seq<Holding>, s: Seq<char>) -> int {
    if has_symbol(h, s) {
        h[symbol_index(h, s)].available as int
    } else {
        0
    }
}

pub open spec fn frozen_in(h: Seq<Holding>, s: Seq<char>) -> int {
    if has_symbol(h, s) {
        h[symbol_index(h, s)].frozen as int
    } else {
        0
    }
}

pub open spec fn unique_symbols(h: Seq<Holding>) -> bool {
    forall|i: int, j: int|
        0 <= i < h.len() && 0 <= j < h.len() && #[trigger] h[i].symbol@ == #[trigger] h[j].symbol@
            ==> i == j
}

/// `h` with the quantities of `sym` set to `a` and `f`; a symbol not held yet
/// is appended.
pub open spec fn with_holding(h: Seq<Holding>, sym: Symbol, a: int, f: int) -> Seq<Holding> {
    if has_symbol(h, sym@) {
        let i = symbol_index(h, sym@);
        h.update(i, Holding { symbol: h[i].symbol, available: a as u128, frozen: f as u128 })
    } else {
        h.push(Holding { symbol: sym, available: a as u128, frozen: f as u128 })
    }
}

pub proof fn lemma_symbol_index(h: Seq<Holding>, i: int)
    requires
        unique_symbols(h),
        0 <= i < h.len(),
    ensures
        has_symbol(h, h[i].symbol@),
        symbol_index(h, h[i].symbol@) == i,
{
    let s = h[i].symbol@;
    assert(has_symbol(h, s));
    let k = symbol_index(h, s);
    assert(h[k].symbol@ == h[i].symbol@);
}

pub proof fn lemma_with_holding(h: Seq<Holding>, sym: Symbol, a: int, f: int)
    requires
        unique_symbols(h),
        0 <= a <= u128::MAX,
        0 <= f <= u128::MAX,
    ensures
        unique_symbols(with_holding(h, sym, a, f)),
        has_symbol(with_holding(h, sym, a, f), sym@),
        forall|s: Seq<char>|
            #[trigger] available_in(with_holding(h, sym, a, f), s) == if s == sym@ {
                a
            } else {
                available_in(h, s)
            },
        forall|s: Seq<char>|
            #[trigger] frozen_in(with_holding(h, sym, a, f), s) == if s == sym@ {
                f
            } else {
                frozen_in(h, s)
            },
{
    let g = with_holding(h, sym, a, f);
    if has_symbol(h, sym@) {
        let k = symbol_index(h, sym@);
        assert(g[k].symbol@ == sym@);
        assert forall|i: int, j: int|
            0 <= i < g.len() && 0 <= j < g.len() && #[trigger] g[i].symbol@ == #[trigger] g[j].symbol@
                implies i == j by {
            assert(g[i].symbol@ == h[i].symbol@);
            assert(g[j].symbol@ == h[j].symbol@);
        }
    } else {
        let k = h.len() as int;
        assert(g[k].symbol@ == sym@);
        assert forall|i: int, j: int|
            0 <= i < g.len() && 0 <= j < g.len() && #[trigger] g[i].symbol@ == #[trigger] g[j].symbol@
                implies i == j by {
            if i < k && j < k {
                assert(g[i] == h[i]);
                assert(g[j] == h[j]);
            } else if i < k {
                assert(g[i] == h[i]);
                assert(h[i].symbol@ == sym@);
            } else if j < k {
                assert(g[j] == h[j]);
                assert(h[j].symbol@ == sym@);
            }
        }
    }
    assert forall|s: Seq<char>|
        #![trigger available_in(g, s)]
        #![trigger frozen_in(g, s)]
        available_in(g, s) == (if s == sym@ {
            a
        } else {
            available_in(h, s)
        }) && frozen_in(g, s) == (if s == sym@ {
            f
        } else {
            frozen_in(h, s)
        }) by {
        if has_symbol(g, s) {
            let j = symbol_index(g, s);
            lemma_symbol_index(g, j);
            if s == sym@ {
                if has_symbol(h, sym@) {
                    assert(g[symbol_index(h, sym@)].symbol@ == sym@);
                } else {
                    assert(g[h.len() as int].symbol@ == sym@);
                }
            } else {
                assert(j < h.len());
                assert(g[j] == h[j]);
                lemma_symbol_index(h, j);
            }
        } else {
            if has_symbol(h, s) {
                let j = symbol_index(h, s);
                assert(g[j].symbol@ == s);
            }
        }
    }
}

/// Commission owed on a fill of notional `n` at `rate / COMMISSION_SCALE`.
pub open spec fn commission_for(n: int, rate: int) -> int {
    n * rate / COMMISSION_SCALE as int
}

/// Whether a queued order has outlived its expiration at time `t`.
pub open spec fn expired(o: Order, t: TimeStamp) -> bool {
    match o.expiration {
        Some(e) => o.created_at + e < t,
        None => false,
    }
}

/// What a bar does to one queued order.
#[derive(Clone, Copy, Debug, PartialEq, Eq, Structural)]
pub enum Outcome {
    Keep,
    Fill,
    Expire,
}

/// A buy fills when its price is strictly above the bar's low, a sell when
/// its price is strictly below the bar's high; an unfilled order past its
/// expiration is cancelled. Orders on other symbols are kept.
pub open spec fn outcome(o: Order, bar: Candle) -> Outcome {
    if o.symbol@ != bar.symbol@ {
        Outcome::Keep
    } else if (o.side == OrderSide::Buy && o.price > bar.low) || (o.side == OrderSide::Sell
        && o.price < bar.high) {
        Outcome::Fill
    } else if expired(o, bar.start_time) {
        Outcome::Expire
    } else {
        Outcome::Keep
    }
}

/// Change of the cash balance when `bar` settles `o`.
pub open spec fn balance_delta(o: Order, bar: Candle) -> int {
    match outcome(o, bar) {
        Outcome::Fill => if o.side == OrderSide::Buy {
            -o.commission
        } else {
            o.notional() - o.commission
        },
        Outcome::Expire => if o.side == OrderSide::Buy {
            o.notional()
        } else {
            0
        },
        Outcome::Keep => 0,
    }
}

/// Quantity that `bar` adds to the available holding of its symbol via `o`.
pub open spec fn available_delta(o: Order, bar: Candle) -> int {
    match outcome(o, bar) {
        Outcome::Fill => if o.side == OrderSide::Buy {
            o.qty as int
        } else {
            0
        },
        Outcome::Expire => if o.side == OrderSide::Sell {
            o.qty as int
        } else {
            0
        },
        Outcome::Keep => 0,
    }
}

/// Quantity that `bar` releases from the frozen holding of its symbol via `o`.
pub open spec fn frozen_delta(o: Order, bar: Candle) -> int {
    if outcome(o, bar) != Outcome::Keep && o.side == OrderSide::Sell {
        o.qty as int
    } else {
        0
    }
}

pub open spec fn balance_delta_fn(bar: Candle) -> spec_fn(Order) -> int {
    |o: Order| balance_delta(o, bar)
}

pub open spec fn available_delta_fn(bar: Candle) -> spec_fn(Order) -> int {
    |o: Order| available_delta(o, bar)
}

pub open spec fn frozen_delta_fn(bar: Candle) -> spec_fn(Order) -> int {
    |o: Order| frozen_delta(o, bar)
}

/// The orders of `q` that stay queued after `bar`, in queue order.
pub open spec fn kept(q: Seq<Order>, bar: Candle) -> Seq<Order>
    decreases q.len(),
{
    if q.len() == 0 {
        q
    } else if outcome(q.last(), bar) == Outcome::Keep {
        kept(q.drop_last(), bar).push(q.last())
    } else {
        kept(q.drop_last(), bar)
    }
}

/// The orders of `q` that `bar` closes or cancels, as finished records, in
/// queue order.
pub open spec fn settled(q: Seq<Order>, bar: Candle) -> Seq<Order>
    decreases q.len(),
{
    if q.len() == 0 {
        Seq::empty()
    } else if outcome(q.last(), bar) == Outcome::Keep {
        settled(q.drop_last(), bar)
    } else {
        settled(q.drop_last(), bar).push(settle(q.last(), bar))
    }
}

/// The record of `o` once `bar` has filled or expired it.
pub open spec fn settle(o: Order, bar: Candle) -> Order {
    if outcome(o, bar) == Outcome::Fill {
        o.finished(OrderStatus::Close, bar.start_time)
    } else {
        o.finished(OrderStatus::Cancel, bar.start_time)
    }
}

/// Cash effect of a finished order: a closed buy cost its notional and its
/// commission, a closed sell brought its notional less its commission, a
/// cancelled order nothing.
pub open spec fn realized(o: Order) -> int {
    if o.status == OrderStatus::Close {
        if o.side == OrderSide::Buy {
            -(o.notional() + o.commission)
        } else {
            o.notional() - o.commission
        }
    } else {
        0
    }
}

/// Cash that an open order holds back: the notional of a buy.
pub open spec fn reserved(o: Order) -> int {
    if o.side == OrderSide::Buy {
        o.notional()
    } else {
        0
    }
}

/// Asset effect of a finished order on symbol `s`.
pub open spec fn asset_change(o: Order, s: Seq<char>) -> int {
    if o.symbol@ == s && o.status == OrderStatus::Close {
        if o.side == OrderSide::Buy {
            o.qty as int
        } else {
            -o.qty
        }
    } else {
        0
    }
}

/// Quantity of symbol `s` that an open order holds back: the quantity of a
/// sell.
pub open spec fn frozen_by(o: Order, s: Seq<char>) -> int {
    if o.symbol@ == s && o.side == OrderSide::Sell {
        o.qty as int
    } else {
        0
    }
}

pub open spec fn realized_fn() -> spec_fn(Order) -> int {
    |o: Order| realized(o)
}

pub open spec fn reserved_fn() -> spec_fn(Order) -> int {
    |o: Order| reserved(o)
}

pub open spec fn asset_fn(s: Seq<char>) -> spec_fn(Order) -> int {
    |o: Order| asset_change(o, s)
}

pub open spec fn frozen_fn(s: Seq<char>) -> spec_fn(Order) -> int {
    |o: Order| frozen_by(o, s)
}

/// Sum of the net proceeds of all finished orders.
pub open spec fn realized_total(e: Seq<Order>) -> int {
    sum_of(e, realized_fn())
}

/// Cash held back by open buy orders.
pub open spec fn reserved_total(q: Seq<Order>) -> int {
    sum_of(q, reserved_fn())
}

/// Quantity of `s` held back by open sell orders.
pub open spec fn open_sell_qty(q: Seq<Order>, s: Seq<char>) -> int {
    sum_of(q, frozen_fn(s))
}

/// Net quantity of `s` bought minus sold over all finished orders.
pub open spec fn net_assets(e: Seq<Order>, s: Seq<char>) -> int {
    sum_of(e, asset_fn(s))
}

/// Well-formed records: notional and commission within `NOTIONAL_LIMIT`.
pub open spec fn sized(o: Order) -> bool {
    &&& o.notional() <= NOTIONAL_LIMIT
    &&& o.commission <= NOTIONAL_LIMIT
}

pub open spec fn open_ok(o: Order, next_id: int) -> bool {
    &&& sized(o)
    &&& o.status == OrderStatus::Open
    &&& o.order_type == OrderType::Limit
    &&& o.id < next_id
}

/// No two orders of `s` share an identifier.
pub open spec fn distinct_ids(s: Seq<Order>) -> bool {
    forall|i: int, j: int| 0 <= i < j < s.len() ==> (#[trigger] s[i]).id != (#[trigger] s[j]).id
}

/// No order of `a` shares an identifier with an order of `b`.
pub open spec fn apart(a: Seq<Order>, b: Seq<Order>) -> bool {
    forall|i: int, j: int|
        0 <= i < a.len() && 0 <= j < b.len() ==> (#[trigger] a[i]).id != (#[trigger] b[j]).id
}

/// Some order of `s` has identifier `id`.
pub open spec fn has_id(s: Seq<Order>, id: u64) -> bool {
    exists|j: int| 0 <= j < s.len() && (#[trigger] s[j]).id == id
}

pub open spec fn finished_ok(o: Order) -> bool {
    &&& sized(o)
    &&& (o.status == OrderStatus::Close || o.status == OrderStatus::Cancel)
}

/// The state of an agent's ledger.
pub struct LedgerView {
    pub balance: int,
    pub min_balance: int,
    pub initial_balance: int,
    pub commission: int,
    pub holdings: Seq<Holding>,
    pub queue: Seq<Order>,
    pub executed: Seq<Order>,
    pub next_id: int,
}

impl LedgerView {
    pub open spec fn available(self, s: Seq<char>) -> int {
        available_in(self.holdings, s)
    }

    pub open spec fn frozen(self, s: Seq<char>) -> int {
        frozen_in(self.holdings, s)
    }

    /// The ledger's invariants.
    pub open spec fn wf(self) -> bool {
        &&& 0 <= self.commission <= u64::MAX
        &&& 0 <= self.initial_balance <= u64::MAX
        &&& self.executed.len() + self.queue.len() == self.next_id <= ORDER_ID_LIMIT
        &&& i128::MIN <= self.min_balance <= self.initial_balance
        &&& unique_symbols(self.holdings)
        &&& forall|i: int| 0 <= i < self.queue.len() ==> open_ok(#[trigger] self.queue[i], self.next_id)
        &&& forall|i: int| 0 <= i < self.executed.len() ==> finished_ok(#[trigger] self.executed[i])
        &&& forall|i: int| 0 <= i < self.executed.len() ==> (#[trigger] self.executed[i]).id < self.next_id
        &&& distinct_ids(self.queue)
        &&& distinct_ids(self.executed)
        &&& apart(self.executed, self.queue)
        &&& forall|s: Seq<char>| #[trigger] self.frozen(s) == open_sell_qty(self.queue, s)
        &&& forall|s: Seq<char>|
            #[trigger] self.available(s) + self.frozen(s) == net_assets(self.executed, s)
        &&& self.balance == self.initial_balance + realized_total(self.executed) - reserved_total(
            self.queue,
        )
    }

    /// Whether a new order of notional `n` fits the machine limits: the
    /// notional and its commission fit in a `u64`, and an identifier is left.
    pub open spec fn within_limits(self, n: int) -> bool {
        &&& n <= NOTIONAL_LIMIT
        &&& commission_for(n, self.commission) <= u64::MAX
        &&& self.next_id < ORDER_ID_LIMIT
    }

    /// The record of a new order submitted on `bar`.
    pub open spec fn new_order(
        self,
        bar: Candle,
        price: u64,
        qty: u64,
        side: OrderSide,
        kind: OrderType,
        expiration: Option<TimeStamp>,
    ) -> Order {
        Order {
            symbol: bar.symbol,
            created_at: bar.start_time,
            finished_at: 0,
            price: price,
            qty: qty,
            commission: commission_for(notional(qty, price), self.commission) as u64,
            id: self.next_id as u64,
            status: OrderStatus::Open,
            side: side,
            order_type: kind,
            expiration: expiration,
        }
    }

    /// Submitting a buy of `qty` at `price` on `bar`.
    pub open spec fn buy(
        self,
        bar: Candle,
        price: u64,
        qty: u64,
        kind: OrderType,
        expiration: Option<TimeStamp>,
    ) -> (LedgerView, Result<Order, CalculateAgentError>) {
        let n = notional(qty, price);
        if self.balance < n {
            (
                self,
                Err(
                    CalculateAgentError::InsufficientBalance {
                        available: self.balance as i128,
                        required: n as u128,
                    },
                ),
            )
        } else if !self.within_limits(n) {
            (self, Err(CalculateAgentError::LimitExceeded))
        } else {
            let o = self.new_order(bar, price, qty, OrderSide::Buy, kind, expiration);
            let reserving = LedgerView { balance: self.balance - n, next_id: self.next_id + 1, ..self };
            match kind {
                OrderType::Market => (
                    LedgerView {
                        balance: reserving.balance - o.commission,
                        holdings: with_holding(
                            self.holdings,
                            bar.symbol,
                            self.available(bar.symbol@) + qty,
                            self.frozen(bar.symbol@),
                        ),
                        executed: self.executed.push(o.finished(OrderStatus::Close, bar.start_time)),
                        ..reserving
                    },
                    Ok(o),
                ),
                OrderType::Limit => (LedgerView { queue: self.queue.push(o), ..reserving }, Ok(o)),
            }
        }
    }

    /// Submitting a sell of `qty` at `price` on `bar`.
    pub open spec fn sell(
        self,
        bar: Candle,
        price: u64,
        qty: u64,
        kind: OrderType,
        expiration: Option<TimeStamp>,
    ) -> (LedgerView, Result<Order, CalculateAgentError>) {
        let n = notional(qty, price);
        let avail = self.available(bar.symbol@);
        if qty > avail {
            (
                self,
                Err(
                    CalculateAgentError::InsufficientAssetBalance {
                        symbol: bar.symbol,
                        available: avail as u128,
                        required: qty,
                    },
                ),
            )
        } else if !self.within_limits(n) {
            (self, Err(CalculateAgentError::LimitExceeded))
        } else {
            let o = self.new_order(bar, price, qty, OrderSide::Sell, kind, expiration);
            let numbered = LedgerView { next_id: self.next_id + 1, ..self };
            let frozen = self.frozen(bar.symbol@);
            match kind {
                OrderType::Market => (
                    LedgerView {
                        balance: self.balance + n - o.commission,
                        holdings: with_holding(self.holdings, bar.symbol, avail - qty, frozen),
                        executed: self.executed.push(o.finished(OrderStatus::Close, bar.start_time)),
                        ..numbered
                    },
                    Ok(o),
                ),
                OrderType::Limit => (
                    LedgerView {
                        holdings: with_holding(self.holdings, bar.symbol, avail - qty, frozen + qty),
                        queue: self.queue.push(o),
                        ..numbered
                    },
                    Ok(o),
                ),
            }
        }
    }

    /// Whether `i` is the first open order on `symbol` with identifier `id`.
    pub open spec fn first_match(self, symbol: Seq<char>, id: u64, i: int) -> bool {
        &&& 0 <= i < self.queue.len()
        &&& self.queue[i].symbol@ == symbol
        &&& self.queue[i].id == id
        &&& forall|j: int|
            0 <= j < i ==> !(#[trigger] self.queue[j].symbol@ == symbol && self.queue[j].id == id)
    }

    /// Cancelling the open order on `symbol` with identifier `id` on `bar`:
    /// a buy's notional is refunded, a sell's quantity is moved from frozen
    /// back to available. Without such an order nothing changes.
    pub open spec fn cancel(self, symbol: Seq<char>, id: u64, bar: Candle) -> LedgerView {
        if exists|i: int| self.first_match(symbol, id, i) {
            let i = choose|i: int| self.first_match(symbol, id, i);
            let o = self.queue[i];
            let moved = LedgerView {
                queue: self.queue.remove(i),
                executed: self.executed.push(o.finished(OrderStatus::Cancel, bar.start_time)),
                ..self
            };
            if o.side == OrderSide::Buy {
                LedgerView { balance: self.balance + o.notional(), ..moved }
            } else {
                LedgerView {
                    holdings: with_holding(
                        self.holdings,
                        o.symbol,
                        self.available(o.symbol@) + o.qty,
                        self.frozen(o.symbol@) - o.qty,
                    ),
                    ..moved
                }
            }
        } else {
            self
        }
    }

    /// Dispatching `cmd` against `bar`.
    pub open spec fn perform_order(self, cmd: crate::command::CalculateCommand, bar: Candle) -> (
        LedgerView,
        Result<Option<Order>, CalculateAgentError>,
    ) {
        match cmd {
            crate::command::CalculateCommand::BuyMarket { stake, .. } => some_order(
                self.buy(bar, bar.open, stake, OrderType::Market, None),
            ),
            crate::command::CalculateCommand::SellMarket { stake, .. } => some_order(
                self.sell(bar, bar.open, stake, OrderType::Market, None),
            ),
            crate::command::CalculateCommand::BuyLimit { stake, price, expiration, .. } => some_order(
                self.buy(bar, price, stake, OrderType::Limit, expiration),
            ),
            crate::command::CalculateCommand::SellLimit { stake, price, expiration, .. } => some_order(
                self.sell(bar, price, stake, OrderType::Limit, expiration),
            ),
            crate::command::CalculateCommand::CancelLimit { symbol, id } => (
                self.cancel(symbol@, id, bar),
                Ok(None),
            ),
            _ => (self, Ok(None)),
        }
    }

    /// Settling the queued orders of `bar`'s symbol against `bar`, in queue
    /// order.
    pub open spec fn perform_candle(self, bar: Candle) -> LedgerView {
        let da = sum_of(self.queue, available_delta_fn(bar));
        let df = sum_of(self.queue, frozen_delta_fn(bar));
        LedgerView {
            balance: self.balance + sum_of(self.queue, balance_delta_fn(bar)),
            holdings: if da == 0 && df == 0 {
                self.holdings
            } else {
                with_holding(
                    self.holdings,
                    bar.symbol,
                    self.available(bar.symbol@) + da,
                    self.frozen(bar.symbol@) - df,
                )
            },
            queue: kept(self.queue, bar),
            executed: self.executed + settled(self.queue, bar),
            ..self
        }
    }

    /// Closing a tick: the minimum balance takes in the current balance.
    pub open spec fn end_round(self) -> LedgerView {
        LedgerView {
            min_balance: if self.balance < self.min_balance {
                self.balance
            } else {
                self.min_balance
            },
            ..self
        }
    }
}

pub open spec fn some_order(r: (LedgerView, Result<Order, CalculateAgentError>)) -> (
    LedgerView,
    Result<Option<Order>, CalculateAgentError>,
) {
    match r.1 {
        Ok(o) => (r.0, Ok(Some(o))),
        Err(e) => (r.0, Err(e)),
    }
}


/// `ORDER_ID_LIMIT * NOTIONAL_LIMIT`: no sum over the orders of one ledger
/// exceeds it.
pub open spec fn order_mass() -> int {
    ORDER_ID_LIMIT as int * NOTIONAL_LIMIT as int
}

proof fn lemma_mass_bounds(k: int)
    requires
        0 <= k <= ORDER_ID_LIMIT,
    ensures
        0 <= NOTIONAL_LIMIT * k <= order_mass(),
        order_mass() < 0x4000_0000_0000_0000_0000_0000_0000_0000,
{
    assert(0 <= NOTIONAL_LIMIT * k <= NOTIONAL_LIMIT * ORDER_ID_LIMIT) by (nonlinear_arith)
        requires
            0 <= k <= ORDER_ID_LIMIT,
    ;
}

proof fn lemma_sized_terms(o: Order, s: Seq<char>)
    requires
        sized(o),
    ensures
        -2 * NOTIONAL_LIMIT <= realized(o) <= NOTIONAL_LIMIT,
        0 <= reserved(o) <= NOTIONAL_LIMIT,
        -(NOTIONAL_LIMIT as int) <= asset_change(o, s) <= NOTIONAL_LIMIT,
        0 <= frozen_by(o, s) <= NOTIONAL_LIMIT,
        0 <= o.commission,
{
    assert(0 <= o.notional()) by (nonlinear_arith)
        requires
            o.notional() == o.qty as int * o.price as int,
    ;
}

/// Totals over the orders of a ledger stay within `order_mass`.
pub proof fn lemma_totals(e: Seq<Order>, q: Seq<Order>, s: Seq<char>)
    requires
        e.len() + q.len() <= ORDER_ID_LIMIT,
        forall|i: int| 0 <= i < e.len() ==> sized(#[trigger] e[i]),
        forall|i: int| 0 <= i < q.len() ==> sized(#[trigger] q[i]),
    ensures
        -2 * (NOTIONAL_LIMIT * e.len()) <= realized_total(e) <= NOTIONAL_LIMIT * e.len(),
        0 <= reserved_total(q) <= NOTIONAL_LIMIT * q.len(),
        -(NOTIONAL_LIMIT * e.len()) <= net_assets(e, s) <= NOTIONAL_LIMIT * e.len(),
        0 <= open_sell_qty(q, s) <= NOTIONAL_LIMIT * q.len(),
        NOTIONAL_LIMIT * e.len() + NOTIONAL_LIMIT * q.len() <= order_mass(),
{
    assert forall|i: int| 0 <= i < e.len() implies -2 * NOTIONAL_LIMIT <= #[trigger] realized_fn()(
        e[i],
    ) <= NOTIONAL_LIMIT && -(NOTIONAL_LIMIT as int) <= asset_fn(s)(e[i]) <= NOTIONAL_LIMIT by {
        lemma_sized_terms(e[i], s);
    }
    assert forall|i: int| 0 <= i < q.len() implies 0 <= #[trigger] reserved_fn()(q[i])
        <= NOTIONAL_LIMIT && 0 <= frozen_fn(s)(q[i]) <= NOTIONAL_LIMIT by {
        lemma_sized_terms(q[i], s);
    }
    lemma_sum_bounds(e, realized_fn(), -2 * NOTIONAL_LIMIT, NOTIONAL_LIMIT as int);
    assert(-2 * NOTIONAL_LIMIT * e.len() == -2 * (NOTIONAL_LIMIT * e.len())) by (nonlinear_arith);
    assert forall|i: int| 0 <= i < e.len() implies -(NOTIONAL_LIMIT as int) <= #[trigger] asset_fn(s)(
        e[i],
    ) <= NOTIONAL_LIMIT by {
        lemma_sized_terms(e[i], s);
    }
    lemma_sum_bounds(e, asset_fn(s), -(NOTIONAL_LIMIT as int), NOTIONAL_LIMIT as int);
    assert forall|i: int| 0 <= i < q.len() implies 0 <= #[trigger] frozen_fn(s)(q[i])
        <= NOTIONAL_LIMIT by {
        lemma_sized_terms(q[i], s);
    }
    lemma_sum_bounds(q, reserved_fn(), 0, NOTIONAL_LIMIT as int);
    lemma_sum_bounds(q, frozen_fn(s), 0, NOTIONAL_LIMIT as int);
    let a = e.len() as int;
    let b = q.len() as int;
    assert(NOTIONAL_LIMIT * a + NOTIONAL_LIMIT * b == NOTIONAL_LIMIT * (a + b)) by (nonlinear_arith);
    lemma_mass_bounds(a + b);
    lemma_mass_bounds(a);
    lemma_mass_bounds(b);
}

/// The balance and the holdings of a well-formed ledger fit their machine
/// types with room to spare.
pub proof fn lemma_wf_bounds(v: LedgerView)
    requires
        v.wf(),
    ensures
        -2 * order_mass() <= v.balance <= u64::MAX + order_mass(),
        order_mass() < 0x4000_0000_0000_0000_0000_0000_0000_0000,
        forall|s: Seq<char>|
            0 <= #[trigger] v.available(s) && 0 <= v.frozen(s) && v.available(s) + v.frozen(s)
                <= order_mass(),
{
    lemma_totals(v.executed, v.queue, Seq::empty());
    lemma_mass_bounds(0);
    assert forall|s: Seq<char>|
        0 <= #[trigger] v.available(s) && 0 <= v.frozen(s) && v.available(s) + v.frozen(s)
            <= order_mass() by {
        lemma_totals(v.executed, v.queue, s);
    }
}


pub proof fn lemma_commission(n: int, rate: int)
    requires
        0 <= n <= NOTIONAL_LIMIT,
        0 <= rate <= u64::MAX,
    ensures
        0 <= commission_for(n, rate),
        0 <= n * rate <= NOTIONAL_LIMIT * u64::MAX,
{
    assert(0 <= n * rate <= NOTIONAL_LIMIT * u64::MAX) by (nonlinear_arith)
        requires
            0 <= n <= NOTIONAL_LIMIT,
            0 <= rate <= u64::MAX,
    ;
    lemma_div_pos_is_pos(n * rate, COMMISSION_SCALE as int);
}

proof fn lemma_new_order(
    v: LedgerView,
    bar: Candle,
    price: u64,
    qty: u64,
    side: OrderSide,
    kind: OrderType,
    expiration: Option<TimeStamp>,
)
    requires
        v.wf(),
        v.within_limits(notional(qty, price)),
    ensures
        sized(v.new_order(bar, price, qty, side, kind, expiration)),
        v.new_order(bar, price, qty, side, kind, expiration).commission == commission_for(
            notional(qty, price),
            v.commission,
        ),
{
    assert(0 <= notional(qty, price)) by (nonlinear_arith)
        requires
            notional(qty, price) == qty as int * price as int,
    ;
    lemma_commission(notional(qty, price), v.commission);
}

pub proof fn lemma_buy_wf(
    v: LedgerView,
    bar: Candle,
    price: u64,
    qty: u64,
    kind: OrderType,
    expiration: Option<TimeStamp>,
)
    requires
        v.wf(),
    ensures
        v.buy(bar, price, qty, kind, expiration).0.wf(),
{
    let n = notional(qty, price);
    if v.balance >= n && v.within_limits(n) {
        let w = v.buy(bar, price, qty, kind, expiration).0;
        let o = v.new_order(bar, price, qty, OrderSide::Buy, kind, expiration);
        lemma_new_order(v, bar, price, qty, OrderSide::Buy, kind, expiration);
        lemma_wf_bounds(v);
        let sym = bar.symbol@;
        if kind == OrderType::Market {
            let c = o.finished(OrderStatus::Close, bar.start_time);
            lemma_with_holding(v.holdings, bar.symbol, v.available(sym) + qty, v.frozen(sym));
            lemma_sum_push(v.executed, c, realized_fn());
            assert forall|s: Seq<char>|
                #[trigger] w.available(s) + w.frozen(s) == net_assets(w.executed, s) by {
                lemma_sum_push(v.executed, c, asset_fn(s));
                assert(v.available(s) + v.frozen(s) == net_assets(v.executed, s));
            }
            assert forall|i: int| 0 <= i < w.executed.len() implies finished_ok(
                #[trigger] w.executed[i],
            ) by {
                if i < v.executed.len() {
                    assert(w.executed[i] == v.executed[i]);
                }
            }
            assert forall|i: int| 0 <= i < w.queue.len() implies open_ok(
                #[trigger] w.queue[i],
                w.next_id,
            ) by {
                assert(open_ok(v.queue[i], v.next_id));
            }
            assert forall|s: Seq<char>| #[trigger] w.frozen(s) == open_sell_qty(w.queue, s) by {
                assert(v.frozen(s) == open_sell_qty(v.queue, s));
            }
        } else {
            lemma_sum_push(v.queue, o, reserved_fn());
            assert forall|s: Seq<char>| #[trigger] w.frozen(s) == open_sell_qty(w.queue, s) by {
                lemma_sum_push(v.queue, o, frozen_fn(s));
                assert(v.frozen(s) == open_sell_qty(v.queue, s));
            }
            assert forall|s: Seq<char>|
                #[trigger] w.available(s) + w.frozen(s) == net_assets(w.executed, s) by {
                assert(v.available(s) + v.frozen(s) == net_assets(v.executed, s));
            }
            assert forall|i: int| 0 <= i < w.queue.len() implies open_ok(
                #[trigger] w.queue[i],
                w.next_id,
            ) by {
                if i < v.queue.len() {
                    assert(w.queue[i] == v.queue[i]);
                    assert(open_ok(v.queue[i], v.next_id));
                }
            }
        }
    }
}

pub proof fn lemma_sell_wf(
    v: LedgerView,
    bar: Candle,
    price: u64,
    qty: u64,
    kind: OrderType,
    expiration: Option<TimeStamp>,
)
    requires
        v.wf(),
    ensures
        v.sell(bar, price, qty, kind, expiration).0.wf(),
{
    let n = notional(qty, price);
    let sym = bar.symbol@;
    if qty <= v.available(sym) && v.within_limits(n) {
        let w = v.sell(bar, price, qty, kind, expiration).0;
        let o = v.new_order(bar, price, qty, OrderSide::Sell, kind, expiration);
        lemma_new_order(v, bar, price, qty, OrderSide::Sell, kind, expiration);
        lemma_wf_bounds(v);
        if kind == OrderType::Market {
            let c = o.finished(OrderStatus::Close, bar.start_time);
            lemma_with_holding(v.holdings, bar.symbol, v.available(sym) - qty, v.frozen(sym));
            lemma_sum_push(v.executed, c, realized_fn());
            assert forall|s: Seq<char>|
                #[trigger] w.available(s) + w.frozen(s) == net_assets(w.executed, s) by {
                lemma_sum_push(v.executed, c, asset_fn(s));
                assert(v.available(s) + v.frozen(s) == net_assets(v.executed, s));
            }
            assert forall|i: int| 0 <= i < w.executed.len() implies finished_ok(
                #[trigger] w.executed[i],
            ) by {
                if i < v.executed.len() {
                    assert(w.executed[i] == v.executed[i]);
                }
            }
            assert forall|i: int| 0 <= i < w.queue.len() implies open_ok(
                #[trigger] w.queue[i],
                w.next_id,
            ) by {
                assert(open_ok(v.queue[i], v.next_id));
            }
            assert forall|s: Seq<char>| #[trigger] w.frozen(s) == open_sell_qty(w.queue, s) by {
                assert(v.frozen(s) == open_sell_qty(v.queue, s));
            }
        } else {
            lemma_with_holding(
                v.holdings,
                bar.symbol,
                v.available(sym) - qty,
                v.frozen(sym) + qty,
            );
            lemma_sum_push(v.queue, o, reserved_fn());
            assert forall|s: Seq<char>| #[trigger] w.frozen(s) == open_sell_qty(w.queue, s) by {
                lemma_sum_push(v.queue, o, frozen_fn(s));
                assert(v.frozen(s) == open_sell_qty(v.queue, s));
            }
            assert forall|s: Seq<char>|
                #[trigger] w.available(s) + w.frozen(s) == net_assets(w.executed, s) by {
                assert(v.available(s) + v.frozen(s) == net_assets(v.executed, s));
            }
            assert forall|i: int| 0 <= i < w.queue.len() implies open_ok(
                #[trigger] w.queue[i],
                w.next_id,
            ) by {
                if i < v.queue.len() {
                    assert(w.queue[i] == v.queue[i]);
                    assert(open_ok(v.queue[i], v.next_id));
                }
            }
        }
    }
}

pub proof fn lemma_cancel_wf(v: LedgerView, symbol: Seq<char>, id: u64, bar: Candle)
    requires
        v.wf(),
    ensures
        v.cancel(symbol, id, bar).wf(),
{
    if exists|i: int| v.first_match(symbol, id, i) {
        let i = choose|i: int| v.first_match(symbol, id, i);
        let o = v.queue[i];
        let c = o.finished(OrderStatus::Cancel, bar.start_time);
        let w = v.cancel(symbol, id, bar);
        assert(open_ok(o, v.next_id));
        lemma_wf_bounds(v);
        lemma_sum_push(v.executed, c, realized_fn());
        lemma_sum_remove(v.queue, i, reserved_fn());
        if o.side == OrderSide::Sell {
            lemma_sum_remove(v.queue, i, frozen_fn(o.symbol@));
            assert(v.frozen(o.symbol@) == open_sell_qty(v.queue, o.symbol@));
            lemma_totals(v.executed, v.queue.remove(i), o.symbol@);
            lemma_with_holding(
                v.holdings,
                o.symbol,
                v.available(o.symbol@) + o.qty,
                v.frozen(o.symbol@) - o.qty,
            );
        }
        assert forall|s: Seq<char>|
            #![trigger w.available(s)]
            #![trigger w.frozen(s)]
            w.available(s) + w.frozen(s) == net_assets(w.executed, s) && w.frozen(s)
                == open_sell_qty(w.queue, s) by {
            lemma_sum_push(v.executed, c, asset_fn(s));
            lemma_sum_remove(v.queue, i, frozen_fn(s));
            assert(v.available(s) + v.frozen(s) == net_assets(v.executed, s));
            assert(v.frozen(s) == open_sell_qty(v.queue, s));
        }
        assert forall|k: int| 0 <= k < w.executed.len() implies finished_ok(
            #[trigger] w.executed[k],
        ) by {
            if k < v.executed.len() {
                assert(w.executed[k] == v.executed[k]);
            }
        }
        assert forall|k: int| 0 <= k < w.queue.len() implies open_ok(
            #[trigger] w.queue[k],
            w.next_id,
        ) by {
            if k < i {
                assert(w.queue[k] == v.queue[k]);
                assert(open_ok(v.queue[k], v.next_id));
            } else {
                assert(w.queue[k] == v.queue[k + 1]);
                assert(open_ok(v.queue[k + 1], v.next_id));
            }
        }
    }
}


/// What settling a queue against a bar does to the ledger's totals.
pub proof fn lemma_settle(q: Seq<Order>, bar: Candle, next_id: int, s: Seq<char>)
    requires
        forall|i: int| 0 <= i < q.len() ==> open_ok(#[trigger] q[i], next_id),
    ensures
        kept(q, bar).len() + settled(q, bar).len() == q.len(),
        forall|i: int| 0 <= i < kept(q, bar).len() ==> open_ok(#[trigger] kept(q, bar)[i], next_id),
        forall|i: int| 0 <= i < settled(q, bar).len() ==> finished_ok(#[trigger] settled(q, bar)[i]),
        realized_total(settled(q, bar)) - reserved_total(kept(q, bar)) == sum_of(
            q,
            balance_delta_fn(bar),
        ) - reserved_total(q),
        open_sell_qty(kept(q, bar), s) == open_sell_qty(q, s) - if s == bar.symbol@ {
            sum_of(q, frozen_delta_fn(bar))
        } else {
            0
        },
        net_assets(settled(q, bar), s) == if s == bar.symbol@ {
            sum_of(q, available_delta_fn(bar)) - sum_of(q, frozen_delta_fn(bar))
        } else {
            0
        },
        0 <= sum_of(q, available_delta_fn(bar)),
        0 <= sum_of(q, frozen_delta_fn(bar)),
    decreases q.len(),
{
    if q.len() > 0 {
        let d = q.drop_last();
        let x = q.last();
        assert forall|i: int| 0 <= i < d.len() implies open_ok(#[trigger] d[i], next_id) by {
            assert(d[i] == q[i]);
        }
        lemma_settle(d, bar, next_id, s);
        assert(open_ok(q[q.len() - 1], next_id));
        let kd = kept(d, bar);
        let sd = settled(d, bar);
        if outcome(x, bar) == Outcome::Keep {
            lemma_sum_push(kd, x, reserved_fn());
            lemma_sum_push(kd, x, frozen_fn(s));
            assert forall|i: int| 0 <= i < kept(q, bar).len() implies open_ok(
                #[trigger] kept(q, bar)[i],
                next_id,
            ) by {
                if i < kd.len() {
                    assert(kept(q, bar)[i] == kd[i]);
                }
            }
        } else {
            let y = settle(x, bar);
            lemma_sum_push(sd, y, realized_fn());
            lemma_sum_push(sd, y, asset_fn(s));
            assert forall|i: int| 0 <= i < settled(q, bar).len() implies finished_ok(
                #[trigger] settled(q, bar)[i],
            ) by {
                if i < sd.len() {
                    assert(settled(q, bar)[i] == sd[i]);
                }
            }
        }
    }
}

/// Settling keeps identifiers: every kept or settled order carries the
/// identifier of an order of `q`, and no two of them share one.
pub proof fn lemma_settle_ids(q: Seq<Order>, bar: Candle)
    requires
        distinct_ids(q),
    ensures
        distinct_ids(kept(q, bar)),
        distinct_ids(settled(q, bar)),
        apart(settled(q, bar), kept(q, bar)),
        forall|k: int| 0 <= k < kept(q, bar).len() ==> has_id(q, (#[trigger] kept(q, bar)[k]).id),
        forall|k: int| 0 <= k < settled(q, bar).len() ==> has_id(q, (#[trigger] settled(q, bar)[k]).id),
    decreases q.len(),
{
    if q.len() > 0 {
        let d = q.drop_last();
        let x = q.last();
        assert forall|i: int, j: int| 0 <= i < j < d.len() implies (#[trigger] d[i]).id != (#[trigger] d[j]).id by {
            assert(d[i] == q[i] && d[j] == q[j]);
        }
        lemma_settle_ids(d, bar);
        let kd = kept(d, bar);
        let sd = settled(d, bar);
        assert forall|j: int| 0 <= j < d.len() implies (#[trigger] d[j]).id != x.id by {
            assert(d[j] == q[j]);
            assert(x == q[q.len() - 1]);
        }
        assert forall|k: int| 0 <= k < kd.len() implies (#[trigger] kd[k]).id != x.id by {
            assert(has_id(d, kd[k].id));
        }
        assert forall|k: int| 0 <= k < sd.len() implies (#[trigger] sd[k]).id != x.id by {
            assert(has_id(d, sd[k].id));
        }
        assert forall|k: int| #![trigger has_id(d, k as u64)] 0 <= k <= u64::MAX && has_id(d, k as u64) implies has_id(q, k as u64) by {
            let j = choose|j: int| 0 <= j < d.len() && (#[trigger] d[j]).id == k as u64;
            assert(q[j] == d[j]);
        }
        assert(q[q.len() - 1] == x);
        let kq = kept(q, bar);
        let sq = settled(q, bar);
        assert forall|k: int| 0 <= k < kq.len() implies has_id(q, (#[trigger] kq[k]).id) by {
            if k < kd.len() {
                assert(kq[k] == kd[k]);
                assert(has_id(d, kd[k].id));
                let j = choose|j: int| 0 <= j < d.len() && (#[trigger] d[j]).id == kd[k].id;
                assert(q[j] == d[j]);
            } else {
                assert(q[q.len() - 1].id == kq[k].id);
            }
        }
        assert forall|k: int| 0 <= k < sq.len() implies has_id(q, (#[trigger] sq[k]).id) by {
            if k < sd.len() {
                assert(sq[k] == sd[k]);
                assert(has_id(d, sd[k].id));
                let j = choose|j: int| 0 <= j < d.len() && (#[trigger] d[j]).id == sd[k].id;
                assert(q[j] == d[j]);
            } else {
                assert(q[q.len() - 1].id == sq[k].id);
            }
        }
        assert forall|i: int, j: int| 0 <= i < j < kq.len() implies (#[trigger] kq[i]).id != (#[trigger] kq[j]).id by {
            if j < kd.len() {
                assert(kq[i] == kd[i] && kq[j] == kd[j]);
            } else {
                assert(kq[i] == kd[i]);
            }
        }
        assert forall|i: int, j: int| 0 <= i < j < sq.len() implies (#[trigger] sq[i]).id != (#[trigger] sq[j]).id by {
            if j < sd.len() {
                assert(sq[i] == sd[i] && sq[j] == sd[j]);
            } else {
                assert(sq[i] == sd[i]);
            }
        }
        assert forall|i: int, j: int| 0 <= i < sq.len() && 0 <= j < kq.len() implies (#[trigger] sq[i]).id != (#[trigger] kq[j]).id by {
            if i < sd.len() && j < kd.len() {
                assert(sq[i] == sd[i] && kq[j] == kd[j]);
            } else if i < sd.len() {
                assert(sq[i] == sd[i]);
            } else if j < kd.len() {
                assert(kq[j] == kd[j]);
            }
        }
    }
}

pub proof fn lemma_candle_wf(v: LedgerView, bar: Candle)
    requires
        v.wf(),
    ensures
        v.perform_candle(bar).wf(),
{
    let w = v.perform_candle(bar);
    let q = v.queue;
    let sym = bar.symbol@;
    lemma_settle_ids(q, bar);
    let e = v.executed;
    let st = settled(q, bar);
    let kp = kept(q, bar);
    assert forall|i: int| 0 <= i < w.executed.len() implies (#[trigger] w.executed[i]).id < w.next_id by {
        if i >= e.len() {
            assert(w.executed[i] == st[i - e.len()]);
            assert(has_id(q, st[i - e.len()].id));
            let j = choose|j: int| 0 <= j < q.len() && (#[trigger] q[j]).id == st[i - e.len()].id;
            assert(open_ok(q[j], v.next_id));
        }
    }
    assert forall|i: int, j: int| 0 <= i < j < w.executed.len() implies (#[trigger] w.executed[i]).id
        != (#[trigger] w.executed[j]).id by {
        if j < e.len() {
        } else if i < e.len() {
            assert(w.executed[j] == st[j - e.len()]);
            assert(has_id(q, st[j - e.len()].id));
            let k = choose|k: int| 0 <= k < q.len() && (#[trigger] q[k]).id == st[j - e.len()].id;
            assert(e[i] == w.executed[i]);
        } else {
            assert(w.executed[j] == st[j - e.len()]);
            assert(w.executed[i] == st[i - e.len()]);
        }
    }
    assert forall|i: int, j: int| 0 <= i < w.executed.len() && 0 <= j < kp.len() implies (#[trigger] w.executed[i]).id
        != (#[trigger] kp[j]).id by {
        assert(has_id(q, kp[j].id));
        let k = choose|k: int| 0 <= k < q.len() && (#[trigger] q[k]).id == kp[j].id;
        if i < e.len() {
            assert(e[i] == w.executed[i]);
        } else {
            assert(w.executed[i] == st[i - e.len()]);
        }
    }
    let da = sum_of(q, available_delta_fn(bar));
    let df = sum_of(q, frozen_delta_fn(bar));
    lemma_settle(q, bar, v.next_id, sym);
    lemma_sum_concat(v.executed, settled(q, bar), realized_fn());
    assert forall|i: int| 0 <= i < w.executed.len() implies finished_ok(
        #[trigger] w.executed[i],
    ) by {
        if i < v.executed.len() {
            assert(w.executed[i] == v.executed[i]);
        } else {
            assert(w.executed[i] == settled(q, bar)[i - v.executed.len()]);
        }
    }
    lemma_wf_bounds(v);
    assert(v.frozen(sym) == open_sell_qty(q, sym));
    assert(v.available(sym) + v.frozen(sym) == net_assets(v.executed, sym));
    lemma_sum_concat(v.executed, settled(q, bar), asset_fn(sym));
    lemma_totals(w.executed, w.queue, sym);
    if !(da == 0 && df == 0) {
        lemma_with_holding(v.holdings, bar.symbol, v.available(sym) + da, v.frozen(sym) - df);
    }
    assert forall|s: Seq<char>|
        #![trigger w.available(s)]
        #![trigger w.frozen(s)]
        w.available(s) + w.frozen(s) == net_assets(w.executed, s) && w.frozen(s)
            == open_sell_qty(w.queue, s) by {
        lemma_settle(q, bar, v.next_id, s);
        lemma_sum_concat(v.executed, settled(q, bar), asset_fn(s));
        assert(v.available(s) + v.frozen(s) == net_assets(v.executed, s));
        assert(v.frozen(s) == open_sell_qty(q, s));
    }
}

pub proof fn lemma_end_round_wf(v: LedgerView)
    requires
        v.wf(),
    ensures
        v.end_round().wf(),
        v.end_round().min_balance <= v.end_round().balance,
{
    lemma_wf_bounds(v);
    let w = v.end_round();
    assert forall|s: Seq<char>|
        #![trigger w.available(s)]
        #![trigger w.frozen(s)]
        w.available(s) + w.frozen(s) == net_assets(w.executed, s) && w.frozen(s)
            == open_sell_qty(w.queue, s) by {
        assert(v.available(s) + v.frozen(s) == net_assets(v.executed, s));
        assert(v.frozen(s) == open_sell_qty(v.queue, s));
    }
}


/// The frozen quantity of a queued sell covers its own quantity.
pub proof fn lemma_sum_remove_frozen(v: LedgerView, i: int)
    requires
        v.wf(),
        0 <= i < v.queue.len(),
        v.queue[i].side == OrderSide::Sell,
    ensures
        v.queue[i].qty <= v.frozen(v.queue[i].symbol@),
        v.available(v.queue[i].symbol@) + v.queue[i].qty <= order_mass(),
{
    let s = v.queue[i].symbol@;
    lemma_wf_bounds(v);
    lemma_sum_remove(v.queue, i, frozen_fn(s));
    assert(open_ok(v.queue[i], v.next_id));
    lemma_totals(v.executed, v.queue.remove(i), s);
    assert(v.frozen(s) == open_sell_qty(v.queue, s));
}


/// While a bar is settled order by order, the running balance and the
/// running quantity changes stay within their machine types.
pub proof fn lemma_candle_prefix(v: LedgerView, bar: Candle, i: int)
    requires
        v.wf(),
        0 <= i <= v.queue.len(),
    ensures
        -2 * order_mass() <= v.balance + sum_of(v.queue.take(i), balance_delta_fn(bar)) <= u64::MAX
            + order_mass(),
        0 <= sum_of(v.queue.take(i), available_delta_fn(bar)) <= order_mass(),
        0 <= sum_of(v.queue.take(i), frozen_delta_fn(bar)) <= order_mass(),
        order_mass() < 0x4000_0000_0000_0000_0000_0000_0000_0000,
{
    let q = v.queue;
    let a = q.take(i);
    let b = q.skip(i);
    assert(q =~= a + b);
    assert forall|k: int| 0 <= k < a.len() implies open_ok(#[trigger] a[k], v.next_id) by {
        assert(a[k] == q[k]);
    }
    lemma_settle(a, bar, v.next_id, bar.symbol@);
    let e2 = v.executed + settled(a, bar);
    let q2 = kept(a, bar) + b;
    lemma_sum_concat(a, b, reserved_fn());
    lemma_sum_concat(v.executed, settled(a, bar), realized_fn());
    lemma_sum_concat(kept(a, bar), b, reserved_fn());
    assert forall|k: int| 0 <= k < e2.len() implies sized(#[trigger] e2[k]) by {
        if k < v.executed.len() {
            assert(e2[k] == v.executed[k]);
            assert(finished_ok(v.executed[k]));
        } else {
            assert(e2[k] == settled(a, bar)[k - v.executed.len()]);
        }
    }
    assert forall|k: int| 0 <= k < q2.len() implies sized(#[trigger] q2[k]) by {
        if k < kept(a, bar).len() {
            assert(q2[k] == kept(a, bar)[k]);
        } else {
            assert(q2[k] == b[k - kept(a, bar).len()]);
            assert(b[k - kept(a, bar).len()] == q[k - kept(a, bar).len() + i]);
            assert(open_ok(q[k - kept(a, bar).len() + i], v.next_id));
        }
    }
    lemma_totals(e2, q2, bar.symbol@);
    lemma_wf_bounds(v);
    assert forall|k: int| 0 <= k < a.len() implies 0 <= #[trigger] available_delta_fn(bar)(a[k])
        <= NOTIONAL_LIMIT && 0 <= frozen_delta_fn(bar)(a[k]) <= NOTIONAL_LIMIT by {
        assert(a[k] == q[k]);
    }
    assert forall|k: int| 0 <= k < a.len() implies 0 <= #[trigger] frozen_delta_fn(bar)(a[k])
        <= NOTIONAL_LIMIT by {
        assert(a[k] == q[k]);
    }
    lemma_sum_bounds(a, available_delta_fn(bar), 0, NOTIONAL_LIMIT as int);
    lemma_sum_bounds(a, frozen_delta_fn(bar), 0, NOTIONAL_LIMIT as int);
    lemma_totals(a, Seq::empty(), bar.symbol@);
}


/// The first bar of `bars` on `symbol`.
pub open spec fn bar_for(bars: Seq<Candle>, symbol: Seq<char>) -> Option<Candle>
    decreases bars.len(),
{
    if bars.len() == 0 {
        None
    } else if bars[0].symbol@ == symbol {
        Some(bars[0])
    } else {
        bar_for(bars.drop_first(), symbol)
    }
}

impl LedgerView {
    /// Dispatching `cmds` in order, each against the bar of its symbol among
    /// `bars`; a command whose symbol has no bar is dropped, and refused
    /// commands leave the ledger as it was.
    pub open spec fn dispatch(self, cmds: Seq<crate::command::CalculateCommand>, bars: Seq<Candle>) -> LedgerView
        decreases cmds.len(),
    {
        if cmds.len() == 0 {
            self
        } else {
            let u = self.dispatch(cmds.drop_last(), bars);
            match bar_for(bars, cmds.last().symbol()) {
                Some(b) => u.perform_order(cmds.last(), b).0,
                None => u,
            }
        }
    }

    /// Settling every bar of `bars` in order.
    pub open spec fn settle_bars(self, bars: Seq<Candle>) -> LedgerView
        decreases bars.len(),
    {
        if bars.len() == 0 {
            self
        } else {
            self.settle_bars(bars.drop_last()).perform_candle(bars.last())
        }
    }

    /// One tick of the simulation for this ledger: the policy's commands are
    /// dispatched against the current bars, every current bar is settled,
    /// and the round is closed.
    pub open spec fn tick(self, cmds: Seq<crate::command::CalculateCommand>, bars: Seq<Candle>) -> LedgerView {
        self.dispatch(cmds, bars).settle_bars(bars).end_round()
    }
}

pub proof fn lemma_perform_order_wf(v: LedgerView, cmd: crate::command::CalculateCommand, bar: Candle)
    requires
        v.wf(),
    ensures
        v.perform_order(cmd, bar).0.wf(),
{
    match cmd {
        crate::command::CalculateCommand::BuyMarket { stake, .. } => lemma_buy_wf(
            v,
            bar,
            bar.open,
            stake,
            OrderType::Market,
            None,
        ),
        crate::command::CalculateCommand::SellMarket { stake, .. } => lemma_sell_wf(
            v,
            bar,
            bar.open,
            stake,
            OrderType::Market,
            None,
        ),
        crate::command::CalculateCommand::BuyLimit { stake, price, expiration, .. } => lemma_buy_wf(
            v,
            bar,
            price,
            stake,
            OrderType::Limit,
            expiration,
        ),
        crate::command::CalculateCommand::SellLimit { stake, price, expiration, .. } => lemma_sell_wf(
            v,
            bar,
            price,
            stake,
            OrderType::Limit,
            expiration,
        ),
        crate::command::CalculateCommand::CancelLimit { symbol, id } => lemma_cancel_wf(
            v,
            symbol@,
            id,
            bar,
        ),
        _ => {},
    }
}

pub proof fn lemma_tick_wf(v: LedgerView, cmds: Seq<crate::command::CalculateCommand>, bars: Seq<Candle>)
    requires
        v.wf(),
    ensures
        v.dispatch(cmds, bars).wf(),
        v.dispatch(cmds, bars).settle_bars(bars).wf(),
        v.tick(cmds, bars).wf(),
        v.tick(cmds, bars).min_balance <= v.tick(cmds, bars).balance,
{
    lemma_dispatch_wf(v, cmds, bars);
    lemma_settle_bars_wf(v.dispatch(cmds, bars), bars);
    lemma_end_round_wf(v.dispatch(cmds, bars).settle_bars(bars));
}

proof fn lemma_dispatch_wf(v: LedgerView, cmds: Seq<crate::command::CalculateCommand>, bars: Seq<Candle>)
    requires
        v.wf(),
    ensures
        v.dispatch(cmds, bars).wf(),
    decreases cmds.len(),
{
    if cmds.len() > 0 {
        lemma_dispatch_wf(v, cmds.drop_last(), bars);
        match bar_for(bars, cmds.last().symbol()) {
            Some(b) => lemma_perform_order_wf(v.dispatch(cmds.drop_last(), bars), cmds.last(), b),
            None => {},
        }
    }
}

proof fn lemma_settle_bars_wf(v: LedgerView, bars: Seq<Candle>)
    requires
        v.wf(),
    ensures
        v.settle_bars(bars).wf(),
    decreases bars.len(),
{
    if bars.len() > 0 {
        lemma_settle_bars_wf(v, bars.drop_last());
        lemma_candle_wf(v.settle_bars(bars.drop_last()), bars.last());
    }
}


/// Number of orders of `q` on symbol `s`.
pub open spec fn orders_on(q: Seq<Order>, s: Seq<char>) -> int
    decreases q.len(),
{
    if q.len() == 0 {
        0
    } else {
        orders_on(q.drop_last(), s) + if q.last().symbol@ == s {
            1int
        } else {
            0
        }
    }
}

/// The order a successful submission created.
pub open spec fn submitted(r: Result<Order, CalculateAgentError>) -> Seq<Order> {
    match r {
        Ok(o) => seq![o],
        Err(_) => Seq::empty(),
    }
}

/// The order a dispatch created, if it created one.
pub open spec fn submitted_some(r: Result<Option<Order>, CalculateAgentError>) -> Seq<Order> {
    match r {
        Ok(Some(o)) => seq![o],
        _ => Seq::empty(),
    }
}

impl LedgerView {
    /// The records a strategy is told of when `cmd` is dispatched against
    /// `bar`: the order as created, then every record it finished.
    pub open spec fn order_records(self, cmd: crate::command::CalculateCommand, bar: Candle) -> Seq<
        Order,
    > {
        submitted_some(self.perform_order(cmd, bar).1) + self.perform_order(cmd, bar).0.executed.skip(
            self.executed.len() as int,
        )
    }

    /// What a strategy is told while `cmds` are dispatched against `bars`.
    pub open spec fn dispatch_notices(
        self,
        cmds: Seq<crate::command::CalculateCommand>,
        bars: Seq<Candle>,
    ) -> Seq<Notice>
        decreases cmds.len(),
    {
        if cmds.len() == 0 {
            Seq::empty()
        } else {
            let u = self.dispatch(cmds.drop_last(), bars);
            self.dispatch_notices(cmds.drop_last(), bars) + match bar_for(bars, cmds.last().symbol()) {
                Some(b) => order_notices(b.start_time, u.order_records(cmds.last(), b)),
                None => Seq::empty(),
            }
        }
    }

    /// What a strategy is told while `bars` are settled in order.
    pub open spec fn settle_notices(self, bars: Seq<Candle>) -> Seq<Notice>
        decreases bars.len(),
    {
        if bars.len() == 0 {
            Seq::empty()
        } else {
            self.settle_notices(bars.drop_last()) + order_notices(
                bars.last().start_time,
                settled(self.settle_bars(bars.drop_last()).queue, bars.last()),
            )
        }
    }
}

} // verus!
