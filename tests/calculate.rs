use new_york_calculate_core::{
    Activate, Calculate, CalculateAgent, CalculateCommand, CalculateResult, Candle, Notice, Order,
    Symbol,
};
use std::cell::RefCell;
use std::collections::HashMap;

struct Scripted {
    // commands handed out per call, in order
    script: RefCell<Vec<Vec<CalculateCommand>>>,
    seen_prices: RefCell<Vec<Vec<(Symbol, u64)>>>,
    seen_bars: RefCell<Vec<u64>>,
    rounds: RefCell<Vec<u64>>,
    ended: RefCell<Option<CalculateResult>>,
    log: RefCell<Vec<Notice>>,
}

impl Scripted {
    fn new(script: Vec<Vec<CalculateCommand>>) -> Scripted {
        Scripted {
            script: RefCell::new(script),
            seen_prices: RefCell::new(vec![]),
            seen_bars: RefCell::new(vec![]),
            rounds: RefCell::new(vec![]),
            ended: RefCell::new(None),
            log: RefCell::new(vec![]),
        }
    }
}

impl Activate for &Scripted {
    fn notices(&self) -> Vec<Notice> {
        self.log.borrow().clone()
    }

    fn decide(
        &self,
        _candles: Vec<Candle>,
        _prices: Vec<(Symbol, u64)>,
        _results: CalculateResult,
        _active: Vec<Order>,
    ) -> Vec<CalculateCommand> {
        self.script.borrow().first().cloned().unwrap_or_default()
    }

    fn activate(
        &self,
        candles: &Vec<Candle>,
        prices: &Vec<(Symbol, u64)>,
        _results: &CalculateResult,
        _active: &Vec<Order>,
    ) -> Vec<CalculateCommand> {
        self.seen_prices.borrow_mut().push(prices.clone());
        self.seen_bars.borrow_mut().push(candles[0].start_time);
        let mut script = self.script.borrow_mut();
        if script.is_empty() {
            vec![]
        } else {
            script.remove(0)
        }
    }

    fn on_order(&mut self, ts: u64, order: &Order) {
        self.log.borrow_mut().push(Notice::Order(ts, order.clone()));
    }

    fn on_end_round(&mut self, ts: u64, result: &CalculateResult, candles: &Vec<Candle>) {
        self.rounds.borrow_mut().push(ts);
        self.log.borrow_mut().push(Notice::EndRound(ts, result.clone(), candles.clone()));
    }

    fn on_end(&mut self, result: CalculateResult) {
        *self.ended.borrow_mut() = Some(result.clone());
        self.log.borrow_mut().push(Notice::End(result));
    }
}

fn bar(symbol: &str, t: u64, open: u64, high: u64, low: u64) -> Candle {
    Candle { symbol: symbol.to_string(), start_time: t, open, high, low, close: open }
}

fn timeline() -> HashMap<u64, Vec<Candle>> {
    let mut candles = HashMap::new();
    candles.insert(30, vec![bar("BTC", 30, 130, 140, 120), bar("ETH", 30, 13, 14, 12)]);
    candles.insert(10, vec![bar("BTC", 10, 100, 110, 90), bar("ETH", 10, 10, 11, 9)]);
    candles.insert(20, vec![bar("BTC", 20, 110, 120, 100), bar("ETH", 20, 11, 12, 10)]);
    candles
}

#[test]
fn driver_replays_ticks_in_order() {
    let candles = timeline();
    let policy = Scripted::new(vec![
        vec![
            CalculateCommand::BuyMarket { symbol: "BTC".to_string(), stake: 2 },
            CalculateCommand::BuyMarket { symbol: "DOGE".to_string(), stake: 2 },
        ],
        vec![CalculateCommand::SellMarket { symbol: "BTC".to_string(), stake: 2 }],
    ]);
    let agent = CalculateAgent::new(1_000, 0, &policy);
    let mut calculate = Calculate::new(&candles, vec![agent]);
    assert_eq!(calculate.get_pointer(), 1);
    assert_eq!(calculate.next(), Some(()));
    assert_eq!(calculate.get_pointer(), 2);
    // bought 2 at the open of t = 20
    assert_eq!(calculate.get_agents()[0].get_result().balance, 1_000 - 220);
    assert_eq!(calculate.next(), Some(()));
    // sold 2 at the open of t = 30
    assert_eq!(calculate.get_agents()[0].get_result().balance, 1_000 - 220 + 260);
    assert_eq!(calculate.get_agents()[0].get_result().executed_orders, 2);
    assert_eq!(calculate.get_agents()[0].get_result().min_balance, 780);
    assert_eq!(calculate.next(), None);
    assert_eq!(calculate.get_pointer(), 3);
    calculate.on_end();
    assert_eq!(*policy.seen_bars.borrow(), vec![10, 20]);
    assert_eq!(*policy.rounds.borrow(), vec![20, 30]);
    assert_eq!(
        policy.seen_prices.borrow()[0],
        vec![("BTC".to_string(), 110), ("ETH".to_string(), 11)]
    );
    assert_eq!(policy.ended.borrow().as_ref().unwrap().balance, 1_040);
}

#[test]
fn identical_runs_give_identical_snapshots() {
    let candles = timeline();
    let run = || {
        let policy = Scripted::new(vec![
            vec![CalculateCommand::BuyLimit { symbol: "ETH".to_string(), stake: 10, price: 11, expiration: Some(5) }],
            vec![CalculateCommand::SellLimit { symbol: "ETH".to_string(), stake: 10, price: 13, expiration: None }],
        ]);
        let agent = CalculateAgent::new(500, 1_000_000, &policy);
        let mut calculate = Calculate::new(&candles, vec![agent]);
        while calculate.next().is_some() {}
        let r = calculate.get_agents()[0].get_result();
        (r.balance, r.min_balance, r.opened_orders, r.executed_orders, r.assets_available, r.assets_frozen)
    };
    let first = run();
    let second = run();
    assert_eq!(first, second);
    // bought 10 ETH at 11 (commission 1%: 1), sold them at 13 (commission 1)
    assert_eq!(first.0, 500 - 110 - 1 + 130 - 1);
}

#[test]
fn empty_timeline_is_exhausted() {
    let candles: HashMap<u64, Vec<Candle>> = HashMap::new();
    let policy = Scripted::new(vec![]);
    let agent = CalculateAgent::new(1_000, 0, &policy);
    let mut calculate = Calculate::new(&candles, vec![agent]);
    assert_eq!(calculate.next(), None);
    assert_eq!(calculate.get_pointer(), 1);
}

#[test]
fn run_to_end_exhausts_the_timeline() {
    let candles = timeline();
    let policy = Scripted::new(vec![vec![CalculateCommand::BuyMarket { symbol: "BTC".to_string(), stake: 1 }]]);
    let agent = CalculateAgent::new(1_000, 0, &policy);
    let mut calculate = Calculate::new(&candles, vec![agent]);
    calculate.run_to_end();
    assert_eq!(calculate.get_pointer(), 3);
    assert_eq!(*policy.rounds.borrow(), vec![20, 30]);
    assert_eq!(policy.ended.borrow().as_ref().unwrap().balance, 1_000 - 110);
    let log = policy.log.borrow();
    // open and close of the market buy, two round ends, the end
    assert_eq!(log.len(), 5);
    assert!(matches!(&log[0], Notice::Order(20, _)));
    assert!(matches!(&log[4], Notice::End(_)));
}
