//! The simulation driver: replays the timeline tick by tick over every agent.
use crate::activate::{Activate, Notice};
use crate::result::CalculateResult;
use crate::agent::CalculateAgent;
use crate::candle::Candle;
use crate::command::CalculateCommand;
use crate::ledger::LedgerView;
use crate::order::{Symbol, TimeStamp};
use std::collections::HashMap;
use vstd::prelude::*;

verus! {

/// Whether `after` is `before` after one tick on `bars`, for some commands
/// of the strategy.
pub open spec fn ticked(after: LedgerView, before: LedgerView, bars: Seq<Candle>) -> bool {
    exists|cmds: Seq<CalculateCommand>| after == #[trigger] before.tick(cmds, bars)
}

/// Each bar's symbol with its open price, in the order of `bars`.
pub open spec fn price_list(bars: Seq<Candle>) -> Seq<(Symbol, u64)> {
    bars.map_values(|b: Candle| (b.symbol, b.open))
}

/// One tick of agent `before` at time `ts`, with the given inputs: its
/// strategy is asked on `prev`, the open prices `prices` of `curr` and the
/// snapshot `seen`; the commands are dispatched, `curr` is settled and the
/// round is closed with the snapshot `done`; the strategy is told of every
/// order record in that order, then of the end of the round.
pub open spec fn stepped_with<T: Activate>(
    after: CalculateAgent<T>,
    before: CalculateAgent<T>,
    prev: Vec<Candle>,
    curr: Vec<Candle>,
    ts: TimeStamp,
    prices: Vec<(Symbol, u64)>,
    seen: CalculateResult,
    done: CalculateResult,
) -> bool {
    let cmds = before.strategy().decide(prev, prices, seen, before.queue_vec())@;
    let dispatched = before@.dispatch(cmds, curr@);
    &&& prices@ == price_list(curr@)
    &&& seen.describes(before@)
    &&& done.describes(after@)
    &&& after@ == before@.tick(cmds, curr@)
    &&& after.told() == before.told() + before@.dispatch_notices(cmds, curr@)
        + dispatched.settle_notices(curr@) + seq![Notice::EndRound(ts, done, curr)]
}

/// Agent `after` is agent `before` after one tick at time `ts` on the bars
/// `prev` of the previous tick and `curr` of the current one.
pub open spec fn stepped<T: Activate>(
    after: CalculateAgent<T>,
    before: CalculateAgent<T>,
    prev: Vec<Candle>,
    curr: Vec<Candle>,
    ts: TimeStamp,
) -> bool {
    exists|prices: Vec<(Symbol, u64)>, seen: CalculateResult, done: CalculateResult|
        #[trigger] stepped_with(after, before, prev, curr, ts, prices, seen, done)
}

/// Agent `after` is agent `before` once its strategy has been handed the
/// final snapshot.
pub open spec fn ended<T: Activate>(after: CalculateAgent<T>, before: CalculateAgent<T>) -> bool {
    &&& after@ == before@
    &&& exists|result: CalculateResult|
        #[trigger] result.describes(before@) && after.told() == before.told().push(Notice::End(result))
}

/// Agent `after` is agent `before` ticked once on each element of `ticks`,
/// in order, and then handed its final snapshot.
pub open spec fn ran_through<T: Activate>(
    after: CalculateAgent<T>,
    before: CalculateAgent<T>,
    ticks: Seq<Seq<Candle>>,
) -> bool {
    exists|last: CalculateAgent<T>|
        #[trigger] ended(after, last) && ticked_through(last@, before@, ticks)
}

/// Whether `trace` runs from `before` through one tick on each element of
/// `ticks`, in order.
pub open spec fn is_trace(trace: Seq<LedgerView>, before: LedgerView, ticks: Seq<Seq<Candle>>) -> bool {
    &&& trace.len() == ticks.len() + 1
    &&& trace[0] == before
    &&& forall|k: int| 0 <= k < ticks.len() ==> ticked(#[trigger] trace[k + 1], trace[k], ticks[k])
}

/// Whether `after` is `before` after one tick on each element of `ticks`,
/// in order.
pub open spec fn ticked_through(after: LedgerView, before: LedgerView, ticks: Seq<Seq<Candle>>) -> bool {
    exists|trace: Seq<LedgerView>| #[trigger] is_trace(trace, before, ticks) && trace.last() == after
}

pub open spec fn strictly_increasing(s: Seq<TimeStamp>) -> bool {
    forall|i: int, j: int| 0 <= i < j < s.len() ==> s[i] < s[j]
}

/// Inserts `k` into the strictly increasing `v`, unless it is there already.
fn insert_sorted(v: &mut Vec<TimeStamp>, k: TimeStamp)
    requires
        strictly_increasing(old(v)@),
    ensures
        strictly_increasing(final(v)@),
        forall|x: TimeStamp| #[trigger] final(v)@.contains(x) <==> (old(v)@.contains(x) || x == k),
{
    let mut p: usize = 0;
    while p < v.len() && v[p] < k
        invariant
            p <= v@.len(),
            forall|j: int| 0 <= j < p ==> v@[j] < k,
        decreases v@.len() - p,
    {
        p += 1;
    }
    if p < v.len() && v[p] == k {
        assert(v@.contains(k));
        return;
    }
    let ghost w = v@;
    v.insert(p, k);
    assert(v@ =~= w.subrange(0, p as int).push(k) + w.subrange(p as int, w.len() as int));
    assert forall|x: TimeStamp| #[trigger] v@.contains(x) <==> (w.contains(x) || x == k) by {
        if w.contains(x) {
            let j = choose|j: int| 0 <= j < w.len() && w[j] == x;
            if j < p {
                assert(v@[j] == x);
            } else {
                assert(v@[j + 1] == x);
            }
        }
        if v@.contains(x) {
            let j = choose|j: int| 0 <= j < v@.len() && v@[j] == x;
            if j < p {
                assert(w[j] == x);
            } else if j > p {
                assert(w[j - 1] == x);
            }
        }
        if x == k {
            assert(v@[p as int] == k);
        }
    }
}

/// The open price of each bar, keyed by its symbol, in the order of `bars`.
pub fn open_prices(bars: &Vec<Candle>) -> (r: Vec<(Symbol, u64)>)
    ensures
        r@.len() == bars@.len(),
        forall|i: int| 0 <= i < bars@.len() ==> #[trigger] r@[i] == (bars@[i].symbol, bars@[i].open),
        r@ == price_list(bars@),
{
    let mut prices: Vec<(Symbol, u64)> = Vec::new();
    let mut k: usize = 0;
    while k < bars.len()
        invariant
            k <= bars@.len(),
            prices@.len() == k,
            forall|i: int| 0 <= i < k ==> #[trigger] prices@[i] == (bars@[i].symbol, bars@[i].open),
        decreases bars@.len() - k,
    {
        prices.push((bars[k].symbol.clone(), bars[k].open));
        k += 1;
    }
    assert(prices@ =~= price_list(bars@));
    prices
}

/// The timeline and the agents that replay it.
pub struct Calculate<'a, T> {
    candles: &'a HashMap<TimeStamp, Vec<Candle>>,
    pointer: usize,
    ts: Vec<TimeStamp>,
    agents: Vec<CalculateAgent<T>>,
}

impl<'a, T: Activate> Calculate<'a, T> {
    pub open spec fn wf(&self) -> bool {
        &&& self.spec_pointer() >= 1
        &&& strictly_increasing(self.timeline())
        &&& forall|i: int| 0 <= i < self.spec_agents().len() ==> (#[trigger] self.spec_agents()[i]).wf()
        &&& forall|k: int|
            0 <= k < self.timeline().len() ==> self.spec_candles().contains_key(
                #[trigger] self.timeline()[k],
            )
    }

    /// The bars of the timestamps from position `from` up to `to`, exclusive.
    pub open spec fn bars_between(&self, from: int, to: int) -> Seq<Seq<Candle>> {
        Seq::new((to - from) as nat, |k: int| self.spec_candles()[self.timeline()[from + k]]@)
    }

    pub closed spec fn spec_pointer(&self) -> int {
        self.pointer as int
    }

    /// The timestamps of the timeline, in increasing order.
    pub closed spec fn timeline(&self) -> Seq<TimeStamp> {
        self.ts@
    }

    pub closed spec fn spec_agents(&self) -> Seq<CalculateAgent<T>> {
        self.agents@
    }

    pub closed spec fn spec_candles(&self) -> Map<TimeStamp, Vec<Candle>> {
        self.candles@
    }

    /// A driver over `candles` with the tick pointer on the second timestamp.
    pub fn new(candles: &'a HashMap<TimeStamp, Vec<Candle>>, agents: Vec<CalculateAgent<T>>) -> (r:
        Self)
        requires
            forall|i: int| 0 <= i < agents@.len() ==> (#[trigger] agents@[i]).wf(),
        ensures
            r.wf(),
            r.spec_pointer() == 1,
            r.spec_agents() == agents@,
            r.spec_candles() == candles@,
            forall|k: TimeStamp| #[trigger] r.timeline().contains(k) <==> candles@.contains_key(k),
    {
        let mut ts: Vec<TimeStamp> = Vec::new();
        let keys = candles.keys();
        proof {
            vstd::std_specs::hash::axiom_spec_keys_iter(candles);
        }
        let ghost all = vstd::std_specs::iter::IteratorSpec::remaining(&keys);
        let ghost mut seen: int = 0;
        for k in it: keys
            invariant
                it.seq() == all,
                seen == it.index(),
                seen <= all.len(),
                strictly_increasing(ts@),
                forall|x: TimeStamp|
                    #[trigger] ts@.contains(x) <==> exists|j: int| 0 <= j < seen && *all[j] == x,
        {
            insert_sorted(&mut ts, *k);
            proof {
                assert(*all[seen] == *k);
                assert forall|x: TimeStamp|
                    #[trigger] ts@.contains(x) <==> exists|j: int| 0 <= j < seen + 1 && *all[j] == x by {
                    if x == *k {
                        assert(*all[seen] == x);
                    }
                }
                seen = seen + 1;
            }
        }
        assert(seen == all.len());
        assert(all.unref().to_set() == candles@.dom());
        assert forall|x: TimeStamp| #[trigger] ts@.contains(x) <==> candles@.contains_key(x) by {
            if ts@.contains(x) {
                let j = choose|j: int| 0 <= j < seen && *all[j] == x;
                assert(all.unref()[j] == x);
                assert(all.unref().contains(x));
                assert(all.unref().to_set().contains(x));
            }
            if candles@.contains_key(x) {
                assert(all.unref().to_set().contains(x));
                let j = choose|j: int| 0 <= j < all.unref().len() && all.unref()[j] == x;
                assert(*all[j] == x);
            }
        }
        assert forall|k: int| 0 <= k < ts@.len() implies candles@.contains_key(#[trigger] ts@[k]) by {
            assert(ts@.contains(ts@[k]));
        }
        Calculate { candles: candles, pointer: 1, ts: ts, agents: agents }
    }

    pub fn get_agents(&self) -> (r: &Vec<CalculateAgent<T>>)
        ensures
            r@ == self.spec_agents(),
    {
        &self.agents
    }

    pub fn get_pointer(&self) -> (r: usize)
        ensures
            r == self.spec_pointer(),
    {
        self.pointer
    }

    /// The bars of the timeline's `k`-th timestamp, if the timeline has it.
    pub open spec fn bars_at(&self, k: int) -> Option<Seq<Candle>> {
        if 0 <= k < self.timeline().len() && self.spec_candles().contains_key(self.timeline()[k]) {
            Some(self.spec_candles()[self.timeline()[k]]@)
        } else {
            None
        }
    }

    /// Runs one tick: every agent, in registration order, asks its strategy
    /// for commands on the previous tick's bars, dispatches them against the
    /// current bars, settles every current bar and closes the round. Returns
    /// `None`, changing nothing, once the timeline is exhausted.
    pub fn next(&mut self) -> (r: Option<()>)
        requires
            old(self).wf(),
        ensures
            final(self).wf(),
            final(self).timeline() == old(self).timeline(),
            final(self).spec_candles() == old(self).spec_candles(),
            final(self).spec_agents().len() == old(self).spec_agents().len(),
            r is None <==> old(self).spec_pointer() >= old(self).timeline().len(),
            r is None ==> *final(self) == *old(self),
            r is Some ==> final(self).spec_pointer() == old(self).spec_pointer() + 1,
            r is Some ==> forall|i: int|
                0 <= i < old(self).spec_agents().len() ==> (#[trigger] final(self).spec_agents()[i])@.min_balance
                    <= final(self).spec_agents()[i]@.balance,
            r is Some ==> forall|i: int|
                0 <= i < old(self).spec_agents().len() ==> ticked(
                    (#[trigger] final(self).spec_agents()[i])@,
                    old(self).spec_agents()[i]@,
                    old(self).bars_at(old(self).spec_pointer()).unwrap(),
                ),
            r is Some ==> forall|i: int|
                0 <= i < old(self).spec_agents().len() ==> stepped(
                    #[trigger] final(self).spec_agents()[i],
                    old(self).spec_agents()[i],
                    old(self).spec_candles()[old(self).timeline()[old(self).spec_pointer() - 1]],
                    old(self).spec_candles()[old(self).timeline()[old(self).spec_pointer()]],
                    old(self).timeline()[old(self).spec_pointer()],
                ),
    {
        if self.pointer >= self.ts.len() {
            return None;
        }
        let prev_ts = self.ts[self.pointer - 1];
        let curr_ts = self.ts[self.pointer];
        let prev = match self.candles.get(&prev_ts) {
            Some(c) => c,
            None => {
                return None;
            },
        };
        let curr = match self.candles.get(&curr_ts) {
            Some(c) => c,
            None => {
                return None;
            },
        };
        let prices = open_prices(curr);
        let ghost old_agents = self.agents@;
        let mut i: usize = 0;
        while i < self.agents.len()
            invariant
                self.pointer == old(self).pointer,
                self.ts == old(self).ts,
                self.candles == old(self).candles,
                curr@ == old(self).bars_at(old(self).spec_pointer()).unwrap(),
                old_agents == old(self).agents@,
                self.agents@.len() == old_agents.len(),
                i <= old_agents.len(),
                forall|j: int| 0 <= j < old_agents.len() ==> (#[trigger] self.agents@[j]).wf(),
                forall|j: int| i <= j < old_agents.len() ==> #[trigger] self.agents@[j] == old_agents[j],
                forall|j: int|
                    0 <= j < i ==> ticked((#[trigger] self.agents@[j])@, old_agents[j]@, curr@),
                forall|j: int|
                    0 <= j < i ==> (#[trigger] self.agents@[j])@.min_balance <= self.agents@[j]@.balance,
                *prev == old(self).spec_candles()[old(self).timeline()[old(self).spec_pointer() - 1]],
                *curr == old(self).spec_candles()[old(self).timeline()[old(self).spec_pointer()]],
                curr_ts == old(self).timeline()[old(self).spec_pointer()],
                prices@ == price_list(curr@),
                forall|j: int|
                    0 <= j < i ==> stepped(#[trigger] self.agents@[j], old_agents[j], *prev, *curr, curr_ts),
            decreases old_agents.len() - i,
        {
            let cmds = self.agents[i].activate(prev, &prices);
            let ghost c = cmds@;
            let ghost before = self.agents@;
            let ghost a0 = self.agents@[i as int];
            let ghost seen = choose|res: CalculateResult|
                #[trigger] res.describes(a0@) && c == a0.strategy().decide(*prev, prices, res, a0.queue_vec())@;
            let agent = &mut self.agents[i];
            agent.perform_orders(cmds, curr);
            agent.perform_candles(curr);
            let ghost t2 = agent.told();
            agent.on_end_round(curr_ts, curr);
            proof {
                let a1 = self.agents@[i as int];
                let done = choose|res: CalculateResult|
                    #[trigger] res.describes(a1@) && a1.told() == t2.push(Notice::EndRound(curr_ts, res, *curr));
                assert(a1.told() =~= a0.told() + a0@.dispatch_notices(c, curr@)
                    + a0@.dispatch(c, curr@).settle_notices(curr@) + seq![Notice::EndRound(curr_ts, done, *curr)]);
                assert(a1@ == a0@.tick(c, curr@));
                assert(stepped_with(a1, a0, *prev, *curr, curr_ts, prices, seen, done));
                assert forall|j: int|
                    0 <= j < i + 1 implies stepped(#[trigger] self.agents@[j], old_agents[j], *prev, *curr, curr_ts) by {
                    if j != i {
                        assert(self.agents@[j] == before[j]);
                    }
                }
            }
            assert forall|j: int|
                0 <= j < i + 1 implies ticked((#[trigger] self.agents@[j])@, old_agents[j]@, curr@) by {
                if j == i {
                    assert(self.agents@[j]@ == old_agents[j]@.tick(c, curr@));
                } else {
                    assert(self.agents@[j] == before[j]);
                }
            }
            i += 1;
        }
        self.pointer = self.pointer + 1;
        Some(())
    }

    /// Hands every agent's final snapshot to its strategy.
    pub fn on_end(&mut self)
        requires
            old(self).wf(),
        ensures
            final(self).wf(),
            final(self).spec_pointer() == old(self).spec_pointer(),
            final(self).timeline() == old(self).timeline(),
            final(self).spec_candles() == old(self).spec_candles(),
            final(self).spec_agents().len() == old(self).spec_agents().len(),
            forall|i: int|
                0 <= i < old(self).spec_agents().len() ==> (#[trigger] final(self).spec_agents()[i])@
                    == old(self).spec_agents()[i]@,
            forall|i: int|
                0 <= i < old(self).spec_agents().len() ==> ended(
                    #[trigger] final(self).spec_agents()[i],
                    old(self).spec_agents()[i],
                ),
    {
        let ghost old_agents = self.agents@;
        let mut i: usize = 0;
        while i < self.agents.len()
            invariant
                self.pointer == old(self).pointer,
                self.ts == old(self).ts,
                self.candles == old(self).candles,
                old_agents == old(self).agents@,
                self.agents@.len() == old_agents.len(),
                i <= old_agents.len(),
                forall|j: int| 0 <= j < old_agents.len() ==> (#[trigger] self.agents@[j]).wf(),
                forall|j: int|
                    0 <= j < old_agents.len() ==> (#[trigger] self.agents@[j])@ == old_agents[j]@,
                forall|j: int| i <= j < old_agents.len() ==> #[trigger] self.agents@[j] == old_agents[j],
                forall|j: int| 0 <= j < i ==> ended(#[trigger] self.agents@[j], old_agents[j]),
            decreases old_agents.len() - i,
        {
            let ghost before = self.agents@;
            let agent = &mut self.agents[i];
            agent.on_end();
            proof {
                assert forall|j: int| 0 <= j < i + 1 implies ended(#[trigger] self.agents@[j], old_agents[j]) by {
                    if j != i {
                        assert(self.agents@[j] == before[j]);
                    }
                }
            }
            i += 1;
        }
    }

    /// Runs ticks until the timeline is exhausted, then hands every agent's
    /// final snapshot to its strategy.
    pub fn run_to_end(&mut self)
        requires
            old(self).wf(),
        ensures
            final(self).wf(),
            final(self).timeline() == old(self).timeline(),
            final(self).spec_candles() == old(self).spec_candles(),
            final(self).spec_pointer() >= final(self).timeline().len(),
            final(self).spec_agents().len() == old(self).spec_agents().len(),
            forall|i: int|
                0 <= i < old(self).spec_agents().len() ==> ticked_through(
                    (#[trigger] final(self).spec_agents()[i])@,
                    old(self).spec_agents()[i]@,
                    old(self).bars_between(old(self).spec_pointer(), final(self).spec_pointer()),
                ),
            forall|i: int|
                0 <= i < old(self).spec_agents().len() ==> ran_through(
                    #[trigger] final(self).spec_agents()[i],
                    old(self).spec_agents()[i],
                    old(self).bars_between(old(self).spec_pointer(), final(self).spec_pointer()),
                ),
    {
        let ghost start = self.pointer as int;
        let ghost old_agents = self.agents@;
        proof {
            assert forall|i: int| 0 <= i < old_agents.len() implies ticked_through(
                (#[trigger] self.agents@[i])@,
                old_agents[i]@,
                self.bars_between(start, start),
            ) by {
                assert(self.bars_between(start, start).len() == 0);
                assert(is_trace(seq![old_agents[i]@], old_agents[i]@, self.bars_between(start, start)));
            }
        }
        while self.pointer < self.ts.len()
            invariant
                self.wf(),
                self.timeline() == old(self).timeline(),
                self.spec_candles() == old(self).spec_candles(),
                start == old(self).spec_pointer(),
                start <= self.pointer,
                old_agents == old(self).spec_agents(),
                self.spec_agents().len() == old_agents.len(),
                forall|i: int|
                    0 <= i < old_agents.len() ==> ticked_through(
                        (#[trigger] self.agents@[i])@,
                        old_agents[i]@,
                        old(self).bars_between(start, self.pointer as int),
                    ),
            decreases self.ts@.len() - self.pointer,
        {
            let ghost before = self.agents@;
            let ghost p = self.pointer as int;
            let r = self.next();
            proof {
                let b = old(self).bars_between(start, p + 1);
                assert(b.drop_last() =~= old(self).bars_between(start, p));
                assert(b.last() == old(self).bars_at(p).unwrap());
                assert forall|i: int| 0 <= i < old_agents.len() implies ticked_through(
                    (#[trigger] self.agents@[i])@,
                    old_agents[i]@,
                    b,
                ) by {
                    let mid = before[i]@;
                    let after = self.agents@[i]@;
                    assert(ticked(after, mid, b.last()));
                    let d = b.drop_last();
                    assert(ticked_through(mid, old_agents[i]@, d));
                    let t = choose|t: Seq<LedgerView>| #[trigger] is_trace(t, old_agents[i]@, d) && t.last() == mid;
                    let t2 = t.push(after);
                    assert forall|k: int| 0 <= k < b.len() implies ticked(#[trigger] t2[k + 1], t2[k], b[k]) by {
                        if k < d.len() {
                            assert(t2[k + 1] == t[k + 1]);
                            assert(t2[k] == t[k]);
                            assert(b[k] == d[k]);
                        } else {
                            assert(t2[k] == mid);
                        }
                    }
                    assert(is_trace(t2, old_agents[i]@, b));
                    assert(ticked_through(self.agents@[i]@, old_agents[i]@, b));
                }
            }
        }
        let ghost pre = self.agents@;
        self.on_end();
        assert forall|i: int| 0 <= i < old_agents.len() implies ran_through(
            #[trigger] self.agents@[i],
            old_agents[i],
            old(self).bars_between(start, self.pointer as int),
        ) by {
            assert(ended(self.agents@[i], pre[i]));
        }
    }
}

} // verus!
