//! A strategy's ledger and the execution of its orders.
use crate::activate::{order_notices, Activate, Notice};
use crate::candle::Candle;
use crate::command::CalculateCommand;
use crate::errors::CalculateAgentError;
use crate::ledger::{
    submitted, submitted_some,
    available_delta_fn, available_in, balance_delta_fn, bar_for, commission_for, frozen_delta_fn,
    frozen_in, has_symbol, kept, lemma_buy_wf, lemma_cancel_wf, lemma_candle_prefix,
    lemma_candle_wf, lemma_commission, lemma_end_round_wf, lemma_sell_wf, lemma_settle,
    lemma_sum_remove_frozen, lemma_symbol_index, lemma_totals, lemma_wf_bounds, open_ok,
    order_mass, outcome, settled, symbol_index, unique_symbols, with_holding, COMMISSION_SCALE,
    Holding, LedgerView, NOTIONAL_LIMIT, ORDER_ID_LIMIT, Outcome,
};
use crate::order::{notional, Order, OrderId, OrderSide, OrderStatus, OrderType, Symbol, TimeStamp};
use crate::result::{CalculateResult, CalculateStats};
use crate::sums::{lemma_sum_push, sum_of};
use vstd::prelude::*;

verus! {

/// One strategy's ledger together with the strategy itself.
pub struct CalculateAgent<T> {
    balance: i128,
    commission: u64,
    min_balance: i128,
    initial_balance: u64,
    holdings: Vec<Holding>,
    queue_orders: Vec<Order>,
    executed_orders: Vec<Order>,
    next_id: u64,
    activate: T,
}

impl<T> View for CalculateAgent<T> {
    type V = LedgerView;

    closed spec fn view(&self) -> LedgerView {
        LedgerView {
            balance: self.balance as int,
            min_balance: self.min_balance as int,
            initial_balance: self.initial_balance as int,
            commission: self.commission as int,
            holdings: self.holdings@,
            queue: self.queue_orders@,
            executed: self.executed_orders@,
            next_id: self.next_id as int,
        }
    }
}

/// Position of `symbol` in `h`, if it is held.
fn holding_position(h: &Vec<Holding>, symbol: &Symbol) -> (r: Option<usize>)
    requires
        unique_symbols(h@),
    ensures
        match r {
            Some(i) => i < h@.len() && h@[i as int].symbol@ == symbol@ && has_symbol(h@, symbol@)
                && symbol_index(h@, symbol@) == i,
            None => !has_symbol(h@, symbol@),
        },
{
    let mut i: usize = 0;
    while i < h.len()
        invariant
            i <= h@.len(),
            unique_symbols(h@),
            forall|j: int| 0 <= j < i ==> h@[j].symbol@ != symbol@,
        decreases h@.len() - i,
    {
        if h[i].symbol == *symbol {
            proof {
                lemma_symbol_index(h@, i as int);
            }
            return Some(i);
        }
        i += 1;
    }
    None
}

/// Available and frozen quantities of `symbol` in `h`.
fn holding_of(h: &Vec<Holding>, symbol: &Symbol) -> (r: (u128, u128))
    requires
        unique_symbols(h@),
    ensures
        r.0 == available_in(h@, symbol@),
        r.1 == frozen_in(h@, symbol@),
{
    match holding_position(h, symbol) {
        Some(i) => (h[i].available, h[i].frozen),
        None => (0, 0),
    }
}

/// Sets the quantities of `symbol`, appending it if it is not held yet.
fn set_holding(h: &mut Vec<Holding>, symbol: &Symbol, available: u128, frozen: u128)
    requires
        unique_symbols(old(h)@),
    ensures
        final(h)@ == with_holding(old(h)@, *symbol, available as int, frozen as int),
{
    match holding_position(h, symbol) {
        Some(i) => {
            let sym = h[i].symbol.clone();
            h.set(i, Holding { symbol: sym, available: available, frozen: frozen });
        },
        None => {
            h.push(Holding { symbol: symbol.clone(), available: available, frozen: frozen });
        },
    }
}

/// Notional of `qty` lots at `price`.
fn notional_of(qty: u64, price: u64) -> (n: u128)
    ensures
        n == notional(qty, price),
{
    assert(0 <= qty as int * price as int <= u64::MAX as int * u64::MAX as int) by (nonlinear_arith);
    (qty as u128) * (price as u128)
}

/// Position of the first bar of `bars` on `symbol`.
fn find_bar(bars: &Vec<Candle>, symbol: &Symbol) -> (r: Option<usize>)
    ensures
        match r {
            Some(i) => i < bars@.len() && bar_for(bars@, symbol@) == Some(bars@[i as int]),
            None => bar_for(bars@, symbol@) is None,
        },
{
    let mut i: usize = 0;
    assert(bars@.skip(0) =~= bars@);
    while i < bars.len()
        invariant
            i <= bars@.len(),
            bar_for(bars@, symbol@) == bar_for(bars@.skip(i as int), symbol@),
        decreases bars@.len() - i,
    {
        assert(bars@.skip(i as int)[0] == bars@[i as int]);
        assert(bars@.skip(i as int).drop_first() =~= bars@.skip(i + 1));
        if bars[i].symbol == *symbol {
            return Some(i);
        }
        i += 1;
    }
    None
}

/// What `bar` does to the queued order `o`.
fn order_outcome(o: &Order, bar: &Candle) -> (r: Outcome)
    ensures
        r == outcome(*o, *bar),
{
    if o.symbol != bar.symbol {
        Outcome::Keep
    } else if (o.side == OrderSide::Buy && o.price > bar.low) || (o.side == OrderSide::Sell
        && o.price < bar.high) {
        Outcome::Fill
    } else {
        match o.expiration {
            Some(e) => {
                if (o.created_at as u128) + (e as u128) < bar.start_time as u128 {
                    Outcome::Expire
                } else {
                    Outcome::Keep
                }
            },
            None => Outcome::Keep,
        }
    }
}

/// Commission on notional `n` at `rate / COMMISSION_SCALE`, rounded down;
/// `None` when it does not fit in a `u64`.
fn commission_on(n: u128, rate: u64) -> (c: Option<u64>)
    requires
        n <= NOTIONAL_LIMIT,
    ensures
        match c {
            Some(c) => c == commission_for(n as int, rate as int),
            None => commission_for(n as int, rate as int) > u64::MAX,
        },
{
    proof {
        lemma_commission(n as int, rate as int);
    }
    let raw = (n * (rate as u128)) / (COMMISSION_SCALE as u128);
    if raw > u64::MAX as u128 {
        None
    } else {
        Some(raw as u64)
    }
}

impl<T: Activate> CalculateAgent<T> {
    pub open spec fn wf(&self) -> bool {
        self@.wf()
    }

    /// The agent's strategy.
    pub closed spec fn strategy(&self) -> T {
        self.activate
    }

    /// What the strategy has been told so far.
    pub open spec fn told(&self) -> Seq<Notice> {
        self.strategy().notices()@
    }

    /// The open orders, as handed to the strategy.
    pub closed spec fn queue_vec(&self) -> Vec<Order> {
        self.queue_orders
    }

    /// An agent with `balance` quote minor units of cash, no holdings and no
    /// orders, paying `commission / COMMISSION_SCALE` of each fill's
    /// notional.
    pub fn new(balance: u64, commission: u64, activate: T) -> (r: Self)
        ensures
            r.wf(),
            r@.balance == balance,
            r@.min_balance == balance,
            r@.initial_balance == balance,
            r@.commission == commission,
            r@.holdings.len() == 0,
            r@.queue.len() == 0,
            r@.executed.len() == 0,
            r@.next_id == 0,
    {
        let r = CalculateAgent {
            balance: balance as i128,
            commission: commission,
            min_balance: balance as i128,
            initial_balance: balance,
            holdings: Vec::new(),
            queue_orders: Vec::new(),
            executed_orders: Vec::new(),
            next_id: 0,
            activate: activate,
        };
        proof {
            let v = r@;
            assert forall|s: Seq<char>| #[trigger] v.frozen(s) == crate::ledger::open_sell_qty(v.queue, s)
                && v.available(s) + v.frozen(s) == crate::ledger::net_assets(v.executed, s) by {
                assert(!has_symbol(v.holdings, s));
            }
        }
        r
    }

    /// Spendable quantity of `symbol`.
    pub fn available_of(&self, symbol: &Symbol) -> (r: u128)
        requires
            self.wf(),
        ensures
            r == self@.available(symbol@),
    {
        holding_of(&self.holdings, symbol).0
    }

    /// Quantity of `symbol` reserved by open sell-limit orders.
    pub fn frozen_of(&self, symbol: &Symbol) -> (r: u128)
        requires
            self.wf(),
        ensures
            r == self@.frozen(symbol@),
    {
        holding_of(&self.holdings, symbol).1
    }

    /// Submits a buy of `qty` lots at `price` on `candle`: the notional is
    /// taken from the balance at once; a market order is filled on the spot,
    /// a limit order is queued. Returns the order as created.
    pub fn buy_order(
        &mut self,
        candle: &Candle,
        price: u64,
        qty: u64,
        order_type: OrderType,
        expiration: Option<TimeStamp>,
    ) -> (r: Result<Order, CalculateAgentError>)
        requires
            old(self).wf(),
        ensures
            final(self).wf(),
            final(self)@ == old(self)@.buy(*candle, price, qty, order_type, expiration).0,
            r == old(self)@.buy(*candle, price, qty, order_type, expiration).1,
            final(self).told() =~= old(self).told() + order_notices(
                candle.start_time,
                submitted(r) + final(self)@.executed.skip(old(self)@.executed.len() as int),
            ),
    {
        let ghost v = self@;
        proof {
            lemma_wf_bounds(v);
            lemma_buy_wf(v, *candle, price, qty, order_type, expiration);
        }
        let n = notional_of(qty, price);
        if self.balance < 0 || (self.balance as u128) < n {
            return Err(CalculateAgentError::InsufficientBalance { available: self.balance, required: n });
        }
        if n > NOTIONAL_LIMIT || self.next_id >= ORDER_ID_LIMIT {
            return Err(CalculateAgentError::LimitExceeded);
        }
        let c = match commission_on(n, self.commission) {
            Some(c) => c,
            None => {
                return Err(CalculateAgentError::LimitExceeded);
            },
        };
        let t = candle.start_time;
        let order = Order {
            symbol: candle.symbol.clone(),
            created_at: t,
            finished_at: 0,
            price: price,
            qty: qty,
            commission: c,
            id: self.next_id,
            status: OrderStatus::Open,
            side: OrderSide::Buy,
            order_type: order_type,
            expiration: expiration,
        };
        assert(order == v.new_order(*candle, price, qty, OrderSide::Buy, order_type, expiration));
        self.next_id = self.next_id + 1;
        self.balance = self.balance - n as i128;
        self.activate.on_order(t, &order);
        match order_type {
            OrderType::Market => {
                let (available, frozen) = holding_of(&self.holdings, &candle.symbol);
                set_holding(&mut self.holdings, &candle.symbol, available + qty as u128, frozen);
                self.balance = self.balance - c as i128;
                let closed = Order { status: OrderStatus::Close, finished_at: t, ..order.duplicate() };
                self.activate.on_order(t, &closed);
                self.executed_orders.push(closed);
            },
            OrderType::Limit => {
                self.queue_orders.push(order.duplicate());
            },
        }
        assert(self@ == v.buy(*candle, price, qty, order_type, expiration).0);
        Ok(order)
    }

    /// Submits a sell of `qty` lots at `price` on `candle`: the quantity is
    /// moved from available to frozen; a market order is filled on the spot,
    /// a limit order is queued. Returns the order as created.
    pub fn sell_order(
        &mut self,
        candle: &Candle,
        price: u64,
        qty: u64,
        order_type: OrderType,
        expiration: Option<TimeStamp>,
    ) -> (r: Result<Order, CalculateAgentError>)
        requires
            old(self).wf(),
        ensures
            final(self).wf(),
            final(self)@ == old(self)@.sell(*candle, price, qty, order_type, expiration).0,
            r == old(self)@.sell(*candle, price, qty, order_type, expiration).1,
            final(self).told() =~= old(self).told() + order_notices(
                candle.start_time,
                submitted(r) + final(self)@.executed.skip(old(self)@.executed.len() as int),
            ),
    {
        let ghost v = self@;
        proof {
            lemma_wf_bounds(v);
            lemma_sell_wf(v, *candle, price, qty, order_type, expiration);
            lemma_wf_bounds(v.sell(*candle, price, qty, order_type, expiration).0);
        }
        let (available, frozen) = holding_of(&self.holdings, &candle.symbol);
        assert(available + frozen <= order_mass());
        if qty as u128 > available {
            return Err(
                CalculateAgentError::InsufficientAssetBalance {
                    symbol: candle.symbol.clone(),
                    available: available,
                    required: qty,
                },
            );
        }
        let n = notional_of(qty, price);
        if n > NOTIONAL_LIMIT || self.next_id >= ORDER_ID_LIMIT {
            return Err(CalculateAgentError::LimitExceeded);
        }
        let c = match commission_on(n, self.commission) {
            Some(c) => c,
            None => {
                return Err(CalculateAgentError::LimitExceeded);
            },
        };
        let t = candle.start_time;
        let order = Order {
            symbol: candle.symbol.clone(),
            created_at: t,
            finished_at: 0,
            price: price,
            qty: qty,
            commission: c,
            id: self.next_id,
            status: OrderStatus::Open,
            side: OrderSide::Sell,
            order_type: order_type,
            expiration: expiration,
        };
        assert(order == v.new_order(*candle, price, qty, OrderSide::Sell, order_type, expiration));
        self.next_id = self.next_id + 1;
        self.activate.on_order(t, &order);
        match order_type {
            OrderType::Market => {
                set_holding(&mut self.holdings, &candle.symbol, available - qty as u128, frozen);
                self.balance = self.balance + (n as i128 - c as i128);
                let closed = Order { status: OrderStatus::Close, finished_at: t, ..order.duplicate() };
                self.activate.on_order(t, &closed);
                self.executed_orders.push(closed);
            },
            OrderType::Limit => {
                set_holding(
                    &mut self.holdings,
                    &candle.symbol,
                    available - qty as u128,
                    frozen + qty as u128,
                );
                self.queue_orders.push(order.duplicate());
            },
        }
        assert(self@ == v.sell(*candle, price, qty, order_type, expiration).0);
        Ok(order)
    }

    /// Cancels the first open order on `symbol` with identifier `id`, as of
    /// `candle`; does nothing when there is none.
    fn cancel_order(&mut self, symbol: &Symbol, id: OrderId, candle: &Candle)
        requires
            old(self).wf(),
        ensures
            final(self).wf(),
            final(self)@ == old(self)@.cancel(symbol@, id, *candle),
            final(self).told() =~= old(self).told() + order_notices(
                candle.start_time,
                final(self)@.executed.skip(old(self)@.executed.len() as int),
            ),
    {
        let ghost v = self@;
        proof {
            lemma_wf_bounds(v);
            lemma_cancel_wf(v, symbol@, id, *candle);
        }
        let mut i: usize = 0;
        while i < self.queue_orders.len() && !(self.queue_orders[i].id == id
            && self.queue_orders[i].symbol == *symbol)
            invariant
                self@ == v,
                i <= v.queue.len(),
                forall|j: int|
                    0 <= j < i ==> !(#[trigger] v.queue[j].symbol@ == symbol@ && v.queue[j].id == id),
            decreases v.queue.len() - i,
        {
            i += 1;
        }
        if i == self.queue_orders.len() {
            assert(!exists|k: int| v.first_match(symbol@, id, k));
            return;
        }
        assert(v.first_match(symbol@, id, i as int));
        assert forall|k: int| v.first_match(symbol@, id, k) implies k == i by {
            if k < i {
                assert(v.queue[k].symbol@ == symbol@ && v.queue[k].id == id);
            } else if k > i {
                assert(!(v.queue[i as int].symbol@ == symbol@ && v.queue[i as int].id == id));
            }
        }
        let order = self.queue_orders.remove(i);
        let t = candle.start_time;
        match order.side {
            OrderSide::Buy => {
                self.balance = self.balance + notional_of(order.qty, order.price) as i128;
            },
            OrderSide::Sell => {
                let (available, frozen) = holding_of(&self.holdings, &order.symbol);
                proof {
                    lemma_sum_remove_frozen(v, i as int);
                }
                set_holding(
                    &mut self.holdings,
                    &order.symbol,
                    available + order.qty as u128,
                    frozen - order.qty as u128,
                );
            },
        }
        let cancelled = Order { status: OrderStatus::Cancel, finished_at: t, ..order };
        self.activate.on_order(t, &cancelled);
        self.executed_orders.push(cancelled);
        assert(self@ == v.cancel(symbol@, id, *candle));
    }

    /// Dispatches `command` against `candle`, the current bar of the
    /// command's symbol: market orders trade at the bar's open, limit orders
    /// are queued, cancellations take effect at once, `NoOp` and `Unknown`
    /// change nothing.
    pub fn perform_order(&mut self, command: CalculateCommand, candle: &Candle) -> (r: Result<
        Option<Order>,
        CalculateAgentError,
    >)
        requires
            old(self).wf(),
        ensures
            final(self).wf(),
            final(self)@ == old(self)@.perform_order(command, *candle).0,
            r == old(self)@.perform_order(command, *candle).1,
            final(self).told() =~= old(self).told() + order_notices(
                candle.start_time,
                old(self)@.order_records(command, *candle),
            ),
    {
        match command {
            CalculateCommand::BuyMarket { stake, .. } => match self.buy_order(
                candle,
                candle.open,
                stake,
                OrderType::Market,
                None,
            ) {
                Ok(o) => Ok(Some(o)),
                Err(e) => Err(e),
            },
            CalculateCommand::SellMarket { stake, .. } => match self.sell_order(
                candle,
                candle.open,
                stake,
                OrderType::Market,
                None,
            ) {
                Ok(o) => Ok(Some(o)),
                Err(e) => Err(e),
            },
            CalculateCommand::BuyLimit { stake, price, expiration, .. } => match self.buy_order(
                candle,
                price,
                stake,
                OrderType::Limit,
                expiration,
            ) {
                Ok(o) => Ok(Some(o)),
                Err(e) => Err(e),
            },
            CalculateCommand::SellLimit { stake, price, expiration, .. } => match self.sell_order(
                candle,
                price,
                stake,
                OrderType::Limit,
                expiration,
            ) {
                Ok(o) => Ok(Some(o)),
                Err(e) => Err(e),
            },
            CalculateCommand::CancelLimit { symbol, id } => {
                self.cancel_order(&symbol, id, candle);
                Ok(None)
            },
            CalculateCommand::NoOp | CalculateCommand::Unknown => Ok(None),
        }
    }

    /// Settles the queued orders of `candle`'s symbol against it, in queue
    /// order: fills, then expirations. Settled orders leave the queue and are
    /// appended to the executed orders.
    pub fn perform_candle(&mut self, candle: &Candle)
        requires
            old(self).wf(),
        ensures
            final(self).wf(),
            final(self)@ == old(self)@.perform_candle(*candle),
            final(self).told() =~= old(self).told() + order_notices(
                candle.start_time,
                settled(old(self)@.queue, *candle),
            ),
    {
        let ghost v = self@;
        let ghost told0 = self.told();
        proof {
            lemma_candle_wf(v, *candle);
            lemma_wf_bounds(v);
        }
        let mut queue: Vec<Order> = Vec::new();
        std::mem::swap(&mut queue, &mut self.queue_orders);
        let ghost q = queue@;
        let mut kept_orders: Vec<Order> = Vec::new();
        let mut added: u128 = 0;
        let mut released: u128 = 0;
        let t = candle.start_time;
        let mut i: usize = 0;
        assert(q.take(0) =~= Seq::<Order>::empty());
        while i < queue.len()
            invariant
                q == v.queue,
                queue@ == q,
                t == candle.start_time,
                self.told() =~= told0 + order_notices(t, settled(q.take(i as int), *candle)),
                i <= q.len(),
                v.wf(),
                kept_orders@ == kept(q.take(i as int), *candle),
                self.executed_orders@ == v.executed + settled(q.take(i as int), *candle),
                self.balance == v.balance + sum_of(q.take(i as int), balance_delta_fn(*candle)),
                added == sum_of(q.take(i as int), available_delta_fn(*candle)),
                released == sum_of(q.take(i as int), frozen_delta_fn(*candle)),
                self.holdings@ == v.holdings,
                self.next_id == v.next_id,
                self.commission == v.commission,
                self.min_balance == v.min_balance,
                self.initial_balance == v.initial_balance,
            decreases q.len() - i,
        {
            let ghost prefix = q.take(i as int);
            let ghost o = q[i as int];
            proof {
                assert(q.take(i + 1) =~= prefix.push(o));
                assert(q.take(i + 1).drop_last() =~= prefix);
                lemma_sum_push(prefix, o, balance_delta_fn(*candle));
                lemma_sum_push(prefix, o, available_delta_fn(*candle));
                lemma_sum_push(prefix, o, frozen_delta_fn(*candle));
                lemma_candle_prefix(v, *candle, i + 1);
                assert(open_ok(q[i as int], v.next_id));
            }
            let order = &queue[i];
            match order_outcome(order, candle) {
                Outcome::Keep => {
                    kept_orders.push(order.duplicate());
                },
                Outcome::Fill => {
                    match order.side {
                        OrderSide::Buy => {
                            self.balance = self.balance - order.commission as i128;
                            added = added + order.qty as u128;
                        },
                        OrderSide::Sell => {
                            let n = notional_of(order.qty, order.price);
                            self.balance = self.balance + (n as i128 - order.commission as i128);
                            released = released + order.qty as u128;
                        },
                    }
                    let closed = Order {
                        status: OrderStatus::Close,
                        finished_at: t,
                        ..order.duplicate()
                    };
                    self.activate.on_order(t, &closed);
                    self.executed_orders.push(closed);
                },
                Outcome::Expire => {
                    match order.side {
                        OrderSide::Buy => {
                            let n = notional_of(order.qty, order.price);
                            self.balance = self.balance + n as i128;
                        },
                        OrderSide::Sell => {
                            added = added + order.qty as u128;
                            released = released + order.qty as u128;
                        },
                    }
                    let cancelled = Order {
                        status: OrderStatus::Cancel,
                        finished_at: t,
                        ..order.duplicate()
                    };
                    self.activate.on_order(t, &cancelled);
                    self.executed_orders.push(cancelled);
                },
            }
            proof {
                assert(self.executed_orders@ =~= v.executed + settled(q.take(i + 1), *candle));
                assert(self.told() =~= told0 + order_notices(t, settled(q.take(i + 1), *candle)));
            }
            i += 1;
        }
        proof {
            assert(q.take(q.len() as int) =~= q);
            lemma_candle_prefix(v, *candle, q.len() as int);
            lemma_settle(q, *candle, v.next_id, candle.symbol@);
            lemma_totals(Seq::empty(), kept(q, *candle), candle.symbol@);
            assert(v.frozen(candle.symbol@) == crate::ledger::open_sell_qty(q, candle.symbol@));
            assert(v.available(candle.symbol@) + v.frozen(candle.symbol@) == crate::ledger::net_assets(
                v.executed,
                candle.symbol@,
            ));
        }
        self.queue_orders = kept_orders;
        if added != 0 || released != 0 {
            let (available, frozen) = holding_of(&self.holdings, &candle.symbol);
            set_holding(&mut self.holdings, &candle.symbol, available + added, frozen - released);
        }
        assert(self@ == v.perform_candle(*candle));
    }

    /// Dispatches `commands` in order, each against the bar of its symbol in
    /// `candles`; commands without such a bar are dropped and refused ones
    /// are discarded.
    pub fn perform_orders(&mut self, commands: Vec<CalculateCommand>, candles: &Vec<Candle>)
        requires
            old(self).wf(),
        ensures
            final(self).wf(),
            final(self)@ == old(self)@.dispatch(commands@, candles@),
            final(self).told() =~= old(self).told() + old(self)@.dispatch_notices(commands@, candles@),
    {
        let ghost v = self@;
        let ghost told0 = self.told();
        let mut i: usize = 0;
        while i < commands.len()
            invariant
                i <= commands@.len(),
                self.wf(),
                self@ == v.dispatch(commands@.take(i as int), candles@),
                self.told() =~= told0 + v.dispatch_notices(commands@.take(i as int), candles@),
            decreases commands@.len() - i,
        {
            let ghost before = self.told();
            assert(commands@.take(i + 1).drop_last() =~= commands@.take(i as int));
            let symbol = commands[i].get_symbol();
            match find_bar(candles, &symbol) {
                Some(k) => {
                    let _ = self.perform_order(commands[i].duplicate(), &candles[k]);
                },
                None => {},
            }
            assert(self.told() =~= told0 + v.dispatch_notices(commands@.take(i + 1), candles@));
            i += 1;
        }
        assert(commands@.take(commands@.len() as int) =~= commands@);
    }

    /// Settles every bar of `candles` in order.
    pub fn perform_candles(&mut self, candles: &Vec<Candle>)
        requires
            old(self).wf(),
        ensures
            final(self).wf(),
            final(self)@ == old(self)@.settle_bars(candles@),
            final(self).told() =~= old(self).told() + old(self)@.settle_notices(candles@),
    {
        let ghost v = self@;
        let ghost told0 = self.told();
        let mut i: usize = 0;
        while i < candles.len()
            invariant
                i <= candles@.len(),
                self.wf(),
                self@ == v.settle_bars(candles@.take(i as int)),
                self.told() =~= told0 + v.settle_notices(candles@.take(i as int)),
            decreases candles@.len() - i,
        {
            assert(candles@.take(i + 1).drop_last() =~= candles@.take(i as int));
            self.perform_candle(&candles[i]);
            assert(self.told() =~= told0 + v.settle_notices(candles@.take(i + 1)));
            i += 1;
        }
        assert(candles@.take(candles@.len() as int) =~= candles@);
    }

    /// Snapshot of the ledger.
    pub fn get_result(&self) -> (r: CalculateResult)
        requires
            self.wf(),
        ensures
            r.describes(self@),
    {
        let mut available: Vec<(Symbol, u128)> = Vec::new();
        let mut frozen: Vec<(Symbol, u128)> = Vec::new();
        let mut i: usize = 0;
        while i < self.holdings.len()
            invariant
                i <= self.holdings@.len(),
                available@.len() == i,
                frozen@.len() == i,
                forall|k: int|
                    0 <= k < i ==> #[trigger] available@[k] == (
                        self.holdings@[k].symbol,
                        self.holdings@[k].available,
                    ),
                forall|k: int|
                    0 <= k < i ==> #[trigger] frozen@[k] == (
                        self.holdings@[k].symbol,
                        self.holdings@[k].frozen,
                    ),
            decreases self.holdings@.len() - i,
        {
            let h = &self.holdings[i];
            available.push((h.symbol.clone(), h.available));
            frozen.push((h.symbol.clone(), h.frozen));
            i += 1;
        }
        CalculateResult {
            balance: self.balance,
            min_balance: self.min_balance,
            opened_orders: self.queue_orders.len(),
            executed_orders: self.executed_orders.len(),
            assets_available: available,
            assets_frozen: frozen,
        }
    }

    /// Position on `candle`'s symbol: cash, queued orders on the symbol, the
    /// spendable quantity and its value at the bar's open price.
    pub fn get_stats(&self, candle: &Candle) -> (r: CalculateStats)
        requires
            self.wf(),
        ensures
            r.balance == self@.balance,
            r.orders == crate::ledger::orders_on(self@.queue, candle.symbol@),
            r.count == self@.available(candle.symbol@),
            r.real == if self@.available(candle.symbol@) * candle.open <= u128::MAX {
                Some((self@.available(candle.symbol@) * candle.open) as u128)
            } else {
                None
            },
            r.assets_available@.len() == self@.holdings.len(),
            r.assets_frozen@.len() == self@.holdings.len(),
            forall|i: int|
                0 <= i < self@.holdings.len() ==> #[trigger] r.assets_available@[i] == (
                    self@.holdings[i].symbol,
                    self@.holdings[i].available,
                ),
            forall|i: int|
                0 <= i < self@.holdings.len() ==> #[trigger] r.assets_frozen@[i] == (
                    self@.holdings[i].symbol,
                    self@.holdings[i].frozen,
                ),
    {
        proof {
            lemma_wf_bounds(self@);
        }
        let count = self.available_of(&candle.symbol);
        let mut orders: usize = 0;
        let mut i: usize = 0;
        let ghost q = self.queue_orders@;
        while i < self.queue_orders.len()
            invariant
                q == self.queue_orders@,
                i <= q.len(),
                orders == crate::ledger::orders_on(q.take(i as int), candle.symbol@),
                orders <= i,
            decreases q.len() - i,
        {
            proof {
                assert(q.take(i + 1).drop_last() =~= q.take(i as int));
            }
            if self.queue_orders[i].symbol == candle.symbol {
                orders += 1;
            }
            i += 1;
        }
        assert(q.take(q.len() as int) =~= q);
        let result = self.get_result();
        CalculateStats {
            balance: self.balance,
            orders: orders,
            count: count,
            real: count.checked_mul(candle.open as u128),
            assets_available: result.assets_available,
            assets_frozen: result.assets_frozen,
        }
    }

    /// Asks the strategy for its commands, given the bars of the previous
    /// tick and the open price of each symbol on the current tick.
    pub fn activate(&self, candles: &Vec<Candle>, prices: &Vec<(Symbol, u64)>) -> (r: Vec<
        CalculateCommand,
    >)
        requires
            self.wf(),
        ensures
            exists|result: CalculateResult|
                #[trigger] result.describes(self@) && r@ == self.strategy().decide(
                    *candles,
                    *prices,
                    result,
                    self.queue_vec(),
                )@,
    {
        let result = self.get_result();
        self.activate.activate(candles, prices, &result, &self.queue_orders)
    }

    /// Closes a tick: the minimum balance takes in the current balance, then
    /// the strategy is told the round is over.
    pub fn on_end_round(&mut self, ts: TimeStamp, candles: &Vec<Candle>)
        requires
            old(self).wf(),
        ensures
            final(self).wf(),
            final(self)@ == old(self)@.end_round(),
            final(self)@.min_balance <= final(self)@.balance,
            exists|result: CalculateResult|
                #[trigger] result.describes(final(self)@) && final(self).told() == old(self).told().push(
                    Notice::EndRound(ts, result, *candles),
                ),
    {
        proof {
            lemma_end_round_wf(self@);
        }
        if self.balance < self.min_balance {
            self.min_balance = self.balance;
        }
        let result = self.get_result();
        self.activate.on_end_round(ts, &result, candles);
        assert(result.describes(self@));
    }

    /// Hands the final snapshot to the strategy.
    pub fn on_end(&mut self)
        requires
            old(self).wf(),
        ensures
            final(self).wf(),
            final(self)@ == old(self)@,
            exists|result: CalculateResult|
                #[trigger] result.describes(old(self)@) && final(self).told() == old(self).told().push(
                    Notice::End(result),
                ),
    {
        let result = self.get_result();
        let ghost r = result;
        self.activate.on_end(result);
        assert(r.describes(old(self)@));
    }

    pub fn get_balance(&self) -> (r: i128)
        ensures
            r == self@.balance,
    {
        self.balance
    }

    pub fn get_min_balance(&self) -> (r: i128)
        ensures
            r == self@.min_balance,
    {
        self.min_balance
    }

    /// Open limit orders, in the order they were queued.
    pub fn get_orders(&self) -> (r: &Vec<Order>)
        ensures
            r@ == self@.queue,
    {
        &self.queue_orders
    }

    /// Closed and cancelled orders, in the order they finished.
    pub fn get_executed_orders(&self) -> (r: &Vec<Order>)
        ensures
            r@ == self@.executed,
    {
        &self.executed_orders
    }

    pub fn get_executed_orders_len(&self) -> (r: usize)
        ensures
            r == self@.executed.len(),
    {
        self.executed_orders.len()
    }

    /// The strategy.
    pub fn get_activate(&self) -> &T {
        &self.activate
    }
}

} // verus!
