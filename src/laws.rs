//! Properties of the ledger that hold across operations.
use crate::candle::Candle;
use crate::command::CalculateCommand;
use crate::ledger::{
    expired, lemma_tick_wf, lemma_totals, open_ok, open_sell_qty, outcome, realized_total,
    settled, LedgerView, Outcome,
};
use crate::result::CalculateResult;
use crate::order::{Order, OrderSide, OrderStatus, OrderType, TimeStamp};
use vstd::prelude::*;

verus! {

/// After every tick the minimum balance is at most the balance, and the
/// balance never exceeds the initial balance plus the net proceeds of all
/// finished orders.
pub proof fn tick_balance_bounds(v: LedgerView, cmds: Seq<CalculateCommand>, bars: Seq<Candle>)
    requires
        v.wf(),
    ensures
        v.tick(cmds, bars).wf(),
        v.tick(cmds, bars).min_balance <= v.tick(cmds, bars).balance,
        v.tick(cmds, bars).balance <= v.tick(cmds, bars).initial_balance + realized_total(
            v.tick(cmds, bars).executed,
        ),
{
    lemma_tick_wf(v, cmds, bars);
    balance_within_realized(v.tick(cmds, bars));
}

/// The balance of a well-formed ledger never exceeds the initial balance
/// plus the net proceeds of all finished orders.
pub proof fn balance_within_realized(v: LedgerView)
    requires
        v.wf(),
    ensures
        v.balance <= v.initial_balance + realized_total(v.executed),
{
    assert forall|i: int| 0 <= i < v.queue.len() implies crate::ledger::sized(#[trigger] v.queue[i]) by {
        assert(open_ok(v.queue[i], v.next_id));
    }
    assert forall|i: int| 0 <= i < v.executed.len() implies crate::ledger::sized(
        #[trigger] v.executed[i],
    ) by {
        assert(crate::ledger::finished_ok(v.executed[i]));
    }
    lemma_totals(v.executed, v.queue, Seq::empty());
}

/// Available and frozen quantities are never negative.
pub proof fn holdings_non_negative(v: LedgerView, s: Seq<char>)
    ensures
        v.available(s) >= 0,
        v.frozen(s) >= 0,
{
}

/// The frozen quantity of a symbol is exactly the quantity of its open sell
/// orders.
pub proof fn frozen_matches_open_sells(v: LedgerView, s: Seq<char>)
    requires
        v.wf(),
    ensures
        v.frozen(s) == open_sell_qty(v.queue, s),
{
}

/// Every finished record stands for one transition out of `Open`: the
/// executed orders are the orders ever created less those still queued, and
/// each of them is closed or cancelled.
pub proof fn executed_counts_transitions(v: LedgerView)
    requires
        v.wf(),
    ensures
        v.executed.len() == v.next_id - v.queue.len(),
        forall|i: int|
            0 <= i < v.executed.len() ==> (#[trigger] v.executed[i]).status == OrderStatus::Close
                || v.executed[i].status == OrderStatus::Cancel,
{
    assert forall|i: int| 0 <= i < v.executed.len() implies (#[trigger] v.executed[i]).status
        == OrderStatus::Close || v.executed[i].status == OrderStatus::Cancel by {
        assert(crate::ledger::finished_ok(v.executed[i]));
    }
}

/// A bar appends one finished record for each order it takes out of the
/// queue.
pub proof fn candle_records_each_exit(v: LedgerView, bar: Candle)
    requires
        v.wf(),
    ensures
        v.perform_candle(bar).executed.len() - v.executed.len() == v.queue.len()
            - v.perform_candle(bar).queue.len(),
{
    crate::ledger::lemma_settle(v.queue, bar, v.next_id, Seq::empty());
}

/// A buy limit order that is accepted and then cancelled on the same bar
/// leaves balance, holdings and queue as they were; the cancelled order is
/// recorded once.
pub proof fn buy_limit_then_cancel(
    v: LedgerView,
    bar: Candle,
    stake: u64,
    price: u64,
    expiration: Option<TimeStamp>,
)
    requires
        v.wf(),
        v.perform_order(
            CalculateCommand::BuyLimit {
                symbol: bar.symbol,
                stake: stake,
                price: price,
                expiration: expiration,
            },
            bar,
        ).1 is Ok,
    ensures
        ({
            let w = v.perform_order(
                CalculateCommand::BuyLimit {
                    symbol: bar.symbol,
                    stake: stake,
                    price: price,
                    expiration: expiration,
                },
                bar,
            ).0;
            let u = w.perform_order(
                CalculateCommand::CancelLimit { symbol: bar.symbol, id: v.next_id as u64 },
                bar,
            ).0;
            &&& u.balance == v.balance
            &&& u.holdings == v.holdings
            &&& u.queue == v.queue
            &&& u.executed == v.executed.push(
                v.new_order(bar, price, stake, OrderSide::Buy, OrderType::Limit, expiration).finished(
                    OrderStatus::Cancel,
                    bar.start_time,
                ),
            )
        }),
{
    let o = v.new_order(bar, price, stake, OrderSide::Buy, OrderType::Limit, expiration);
    let w = v.buy(bar, price, stake, OrderType::Limit, expiration).0;
    limit_then_cancel_finds(v, w, o, bar);
}

/// A sell limit order that is accepted and then cancelled on the same bar
/// leaves balance, queue and every available and frozen quantity as they
/// were; the cancelled order is recorded once.
pub proof fn sell_limit_then_cancel(
    v: LedgerView,
    bar: Candle,
    stake: u64,
    price: u64,
    expiration: Option<TimeStamp>,
)
    requires
        v.wf(),
        v.perform_order(
            CalculateCommand::SellLimit {
                symbol: bar.symbol,
                stake: stake,
                price: price,
                expiration: expiration,
            },
            bar,
        ).1 is Ok,
    ensures
        ({
            let w = v.perform_order(
                CalculateCommand::SellLimit {
                    symbol: bar.symbol,
                    stake: stake,
                    price: price,
                    expiration: expiration,
                },
                bar,
            ).0;
            let u = w.perform_order(
                CalculateCommand::CancelLimit { symbol: bar.symbol, id: v.next_id as u64 },
                bar,
            ).0;
            &&& u.balance == v.balance
            &&& u.queue == v.queue
            &&& forall|s: Seq<char>|
                #[trigger] u.available(s) == v.available(s) && u.frozen(s) == v.frozen(s)
            &&& u.executed == v.executed.push(
                v.new_order(bar, price, stake, OrderSide::Sell, OrderType::Limit, expiration).finished(
                    OrderStatus::Cancel,
                    bar.start_time,
                ),
            )
        }),
{
    let o = v.new_order(bar, price, stake, OrderSide::Sell, OrderType::Limit, expiration);
    let w = v.sell(bar, price, stake, OrderType::Limit, expiration).0;
    let sym = bar.symbol@;
    crate::ledger::lemma_wf_bounds(v);
    crate::ledger::lemma_sell_wf(v, bar, price, stake, OrderType::Limit, expiration);
    limit_then_cancel_finds(v, w, o, bar);
    crate::ledger::lemma_with_holding(
        v.holdings,
        bar.symbol,
        v.available(sym) - stake,
        v.frozen(sym) + stake,
    );
    let h1 = w.holdings;
    crate::ledger::lemma_with_holding(h1, o.symbol, v.available(sym), v.frozen(sym));
}

/// The order just queued is the one a cancellation of its identifier finds.
proof fn limit_then_cancel_finds(v: LedgerView, w: LedgerView, o: Order, bar: Candle)
    requires
        v.wf(),
        w.queue == v.queue.push(o),
        o.id == v.next_id,
        o.symbol == bar.symbol,
    ensures
        w.first_match(bar.symbol@, v.next_id as u64, v.queue.len() as int),
        (choose|i: int| #[trigger] w.first_match(bar.symbol@, v.next_id as u64, i)) == v.queue.len(),
        w.queue.remove(v.queue.len() as int) == v.queue,
{
    let n = v.queue.len() as int;
    assert forall|j: int| 0 <= j < n implies !(#[trigger] w.queue[j].symbol@ == bar.symbol@
        && w.queue[j].id == v.next_id as u64) by {
        assert(w.queue[j] == v.queue[j]);
        assert(open_ok(v.queue[j], v.next_id));
    }
    assert(w.first_match(bar.symbol@, v.next_id as u64, n));
    let k = choose|i: int| #[trigger] w.first_match(bar.symbol@, v.next_id as u64, i);
    assert(k == n);
    assert(w.queue.remove(n) =~= v.queue);
}

/// After a cancellation no open order on `symbol` carries `id`, and
/// cancelling a sell leaves the balance as it was.
pub proof fn cancel_removes_id(v: LedgerView, symbol: Seq<char>, id: u64, bar: Candle)
    requires
        v.wf(),
    ensures
        forall|k: int|
            0 <= k < v.cancel(symbol, id, bar).queue.len() ==> !((#[trigger] v.cancel(
                symbol,
                id,
                bar,
            ).queue[k]).symbol@ == symbol && v.cancel(symbol, id, bar).queue[k].id == id),
        (forall|k: int|
            0 <= k < v.queue.len() && (#[trigger] v.queue[k]).symbol@ == symbol && v.queue[k].id == id
                ==> v.queue[k].side == OrderSide::Sell) ==> v.cancel(symbol, id, bar).balance
            == v.balance,
{
    let w = v.cancel(symbol, id, bar);
    if exists|i: int| v.first_match(symbol, id, i) {
        let i = choose|i: int| v.first_match(symbol, id, i);
        assert forall|k: int| 0 <= k < w.queue.len() implies !((#[trigger] w.queue[k]).symbol@
            == symbol && w.queue[k].id == id) by {
            if k < i {
                assert(w.queue[k] == v.queue[k]);
            } else {
                assert(w.queue[k] == v.queue[k + 1]);
                assert(v.queue[i].id != v.queue[k + 1].id);
            }
        }
    } else {
        assert forall|k: int| 0 <= k < w.queue.len() implies !((#[trigger] w.queue[k]).symbol@
            == symbol && w.queue[k].id == id) by {
            if w.queue[k].symbol@ == symbol && w.queue[k].id == id {
                assert forall|j: int| 0 <= j < k implies !(#[trigger] v.queue[j].symbol@ == symbol
                    && v.queue[j].id == id) by {
                    assert(v.queue[j].id != v.queue[k].id);
                }
                assert(v.first_match(symbol, id, k));
            }
        }
    }
}

/// A buy priced exactly at the bar's low, or a sell priced exactly at its
/// high, does not fill on that bar.
pub proof fn extreme_price_does_not_fill(o: Order, bar: Candle)
    requires
        (o.side == OrderSide::Buy && o.price == bar.low) || (o.side == OrderSide::Sell && o.price
            == bar.high),
    ensures
        outcome(o, bar) != Outcome::Fill,
{
}

/// An order on the bar's symbol priced strictly between the bar's low and
/// high fills on that bar.
pub proof fn inside_price_fills(o: Order, bar: Candle)
    requires
        o.symbol@ == bar.symbol@,
        bar.low < o.price < bar.high,
    ensures
        outcome(o, bar) == Outcome::Fill,
        settled(seq![o], bar) == seq![o.finished(OrderStatus::Close, bar.start_time)],
{
    assert(seq![o].drop_last() =~= Seq::<Order>::empty());
    assert(seq![o].last() == o);
    assert(settled(Seq::<Order>::empty(), bar) == Seq::<Order>::empty());
    assert(settled(seq![o], bar) =~= seq![o.finished(OrderStatus::Close, bar.start_time)]);
}

/// An unfilled order with expiration `e` created at `t` stays queued while
/// the bar starts no later than `t + e`, and is cancelled by the first bar
/// that starts later.
pub proof fn expiration_boundary(o: Order, bar: Candle, e: TimeStamp)
    requires
        o.symbol@ == bar.symbol@,
        o.expiration == Some(e),
        outcome(o, bar) != Outcome::Fill,
    ensures
        bar.start_time <= o.created_at + e ==> outcome(o, bar) == Outcome::Keep,
        bar.start_time > o.created_at + e ==> outcome(o, bar) == Outcome::Expire,
        expired(o, bar.start_time) <==> bar.start_time > o.created_at + e,
{
}

/// Ticks are deterministic: equal ledgers given equal commands and bars end
/// equal.
pub proof fn tick_deterministic(
    v1: LedgerView,
    v2: LedgerView,
    cmds: Seq<CalculateCommand>,
    bars: Seq<Candle>,
)
    requires
        v1 == v2,
    ensures
        v1.tick(cmds, bars) == v2.tick(cmds, bars),
{
}

/// Two snapshots of equal ledgers are equal field for field.
pub proof fn snapshots_deterministic(
    r1: CalculateResult,
    r2: CalculateResult,
    v1: LedgerView,
    v2: LedgerView,
)
    requires
        v1 == v2,
        r1.describes(v1),
        r2.describes(v2),
    ensures
        r1.balance == r2.balance,
        r1.min_balance == r2.min_balance,
        r1.opened_orders == r2.opened_orders,
        r1.executed_orders == r2.executed_orders,
        r1.assets_available@ == r2.assets_available@,
        r1.assets_frozen@ == r2.assets_frozen@,
{
    assert(r1.assets_available@ =~= r2.assets_available@);
    assert(r1.assets_frozen@ =~= r2.assets_frozen@);
}

} // verus!
