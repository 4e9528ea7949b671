use new_york_calculate_core::{
    Activate, CalculateAgent, CalculateAgentError, CalculateCommand, CalculateResult, Candle,
    Notice, Order, OrderSide, OrderStatus, OrderType, Symbol,
};
use std::cell::RefCell;

// Amounts in these tests use four decimals: 1000.0 is 10_000_000 minor units,
// a price of 100.0 is 1_000_000 per lot, and a commission rate of 0.0001 is
// 10_000 parts of 100_000_000.
const BALANCE: u64 = 10_000_000;
const RATE: u64 = 10_000;

fn price(units: u64) -> u64 {
    units * 10_000
}

#[derive(Debug, Default)]
struct CalculateIterActivate {
    orders: RefCell<Vec<Order>>,
    log: RefCell<Vec<Notice>>,
}

impl Activate for &CalculateIterActivate {
    fn notices(&self) -> Vec<Notice> {
        self.log.borrow().clone()
    }

    fn decide(
        &self,
        _candles: Vec<Candle>,
        _prices: Vec<(Symbol, u64)>,
        _results: CalculateResult,
        _active: Vec<Order>,
    ) -> Vec<CalculateCommand> {
        vec![CalculateCommand::NoOp]
    }

    fn activate(
        &self,
        _candles: &Vec<Candle>,
        _prices: &Vec<(Symbol, u64)>,
        _results: &CalculateResult,
        _active: &Vec<Order>,
    ) -> Vec<CalculateCommand> {
        vec![CalculateCommand::NoOp]
    }

    fn on_order(&mut self, ts: u64, order: &Order) {
        self.orders.borrow_mut().push(order.clone());
        self.log.borrow_mut().push(Notice::Order(ts, order.clone()));
    }

    fn on_end_round(&mut self, ts: u64, result: &CalculateResult, candles: &Vec<Candle>) {
        self.log.borrow_mut().push(Notice::EndRound(ts, result.clone(), candles.clone()));
    }

    fn on_end(&mut self, result: CalculateResult) {
        self.log.borrow_mut().push(Notice::End(result));
    }
}

fn candle(symbol: &str, start_time: u64, open: u64, high: u64, low: u64, close: u64) -> Candle {
    Candle {
        symbol: symbol.to_string(),
        start_time,
        open: price(open),
        high: price(high),
        low: price(low),
        close: price(close),
    }
}

fn assert_agent_state(
    results: &CalculateResult,
    balance: i128,
    opened: usize,
    executed: usize,
    activate: &CalculateIterActivate,
    notified: usize,
) {
    assert_eq!(results.balance, balance);
    assert_eq!(results.opened_orders, opened);
    assert_eq!(results.executed_orders, executed);
    assert_eq!(activate.orders.borrow().len(), notified);
}

#[test]
fn test_calculate_agent_market() {
    let activate = CalculateIterActivate::default();
    let mut agent = CalculateAgent::new(BALANCE, RATE, &activate);
    let symbol = "BTC".to_string();

    let candle_1 = candle(&symbol, 0, 100, 120, 90, 110);
    let result = agent.perform_order(
        CalculateCommand::BuyMarket { symbol: symbol.clone(), stake: 5 },
        &candle_1,
    );
    assert!(matches!(result, Ok(Some(_))));
    agent.perform_candle(&candle_1);
    agent.on_end_round(0, &vec![candle_1]);
    let results = agent.get_result();
    // 499.95
    assert_agent_state(&results, 4_999_500, 0, 1, &activate, 2);

    let candle_2 = candle(&symbol, 1, 120, 130, 90, 110);
    let result = agent.perform_order(
        CalculateCommand::SellMarket { symbol: symbol.clone(), stake: 5 },
        &candle_2,
    );
    assert!(matches!(result, Ok(Some(_))));
    agent.perform_candle(&candle_2);
    agent.on_end_round(1, &vec![candle_2]);
    let results = agent.get_result();
    // 1099.89 exactly; single-precision arithmetic gives 1099.8899.
    assert_agent_state(&results, 10_998_900, 0, 2, &activate, 4);
    assert!((results.balance as f64 / 10_000.0 - 1099.8899).abs() < 1e-3);
}

#[test]
fn test_calculate_agent_limit() {
    let activate = CalculateIterActivate::default();
    let mut agent = CalculateAgent::new(BALANCE, RATE, &activate);
    let symbol = "BTC".to_string();

    let candle_1 = candle(&symbol, 0, 100, 120, 90, 110);
    let result = agent.perform_order(
        CalculateCommand::BuyLimit { symbol: symbol.clone(), price: price(85), stake: 5, expiration: None },
        &candle_1,
    );
    assert!(matches!(result, Ok(Some(_))));
    agent.perform_candle(&candle_1);
    agent.on_end_round(candle_1.start_time, &vec![candle_1.clone()]);
    let results = agent.get_result();
    assert_agent_state(&results, 5_750_000, 1, 0, &activate, 1);

    let candle_2 = candle("BTC", 1, 120, 130, 80, 110);
    agent.perform_candle(&candle_2);
    agent.on_end_round(candle_2.start_time, &vec![candle_2.clone()]);
    let results = agent.get_result();
    // 574.9575
    assert_agent_state(&results, 5_749_575, 0, 1, &activate, 2);
    assert_eq!(results.assets_available, vec![(symbol.to_string(), 5)]);

    let candle_3 = candle(&symbol, 3, 120, 130, 90, 110);
    let result = agent.perform_order(
        CalculateCommand::SellLimit { symbol: symbol.clone(), stake: 5, price: price(135), expiration: None },
        &candle_3,
    );
    assert!(matches!(result, Ok(Some(_))));
    agent.perform_candle(&candle_3);
    agent.on_end_round(candle_3.start_time, &vec![candle_3.clone()]);
    let results = agent.get_result();
    assert_agent_state(&results, 5_749_575, 1, 1, &activate, 3);
    assert_eq!(results.assets_available, vec![(symbol.to_string(), 0)]);
    assert_eq!(results.assets_frozen, vec![(symbol.to_string(), 5)]);

    let candle_4 = candle("BTC", 3, 120, 140, 90, 110);
    agent.perform_candle(&candle_4);
    agent.on_end_round(candle_4.start_time, &vec![candle_4.clone()]);
    let results = agent.get_result();
    // 1249.89
    assert_agent_state(&results, 12_498_900, 0, 2, &activate, 4);
    assert_eq!(results.assets_available, vec![(symbol.to_string(), 0)]);
    assert_eq!(results.assets_frozen, vec![(symbol.to_string(), 0)]);
}

#[test]
fn test_calculate_agent_buy_expiration() {
    let activate = CalculateIterActivate::default();
    let mut agent = CalculateAgent::new(BALANCE, RATE, &activate);
    let symbol = "BTC".to_string();

    let candle_1 = candle(&symbol, 0, 100, 120, 90, 110);
    let result = agent.perform_order(
        CalculateCommand::BuyLimit { symbol: symbol.clone(), price: price(85), stake: 5, expiration: Some(1) },
        &candle_1,
    );
    assert!(matches!(result, Ok(Some(_))));
    agent.perform_candle(&candle_1);
    agent.on_end_round(candle_1.start_time, &vec![candle_1.clone()]);
    let results = agent.get_result();
    assert_agent_state(&results, 5_750_000, 1, 0, &activate, 1);

    let candle_2 = candle("BTC", 1, 120, 130, 90, 110);
    agent.perform_candle(&candle_2);
    agent.on_end_round(candle_2.start_time, &vec![candle_2.clone()]);
    let results = agent.get_result();
    assert_agent_state(&results, 5_750_000, 1, 0, &activate, 1);

    let candle_3 = candle(&symbol, 3, 120, 130, 90, 110);
    agent.perform_candle(&candle_3);
    agent.on_end_round(candle_3.start_time, &vec![candle_3.clone()]);
    let results = agent.get_result();
    assert_agent_state(&results, BALANCE as i128, 0, 1, &activate, 2);
    assert_eq!(agent.get_executed_orders()[0].status, OrderStatus::Cancel);
    assert_eq!(agent.get_executed_orders()[0].finished_at, 3);
}

#[test]
fn test_calculate_agent_sell_expiration() {
    let activate = CalculateIterActivate::default();
    let mut agent = CalculateAgent::new(BALANCE, RATE, &activate);
    let symbol = "BTC".to_string();

    let candle_1 = candle(&symbol, 1, 100, 120, 90, 110);
    let result = agent.perform_order(
        CalculateCommand::BuyMarket { symbol: symbol.clone(), stake: 5 },
        &candle_1,
    );
    assert!(matches!(result, Ok(Some(_))));
    let result = agent.perform_order(
        CalculateCommand::SellLimit { symbol: symbol.clone(), stake: 5, price: price(150), expiration: Some(1) },
        &candle_1,
    );
    assert!(matches!(result, Ok(Some(_))));
    agent.perform_candle(&candle_1);
    agent.on_end_round(candle_1.start_time, &vec![candle_1.clone()]);
    let results = agent.get_result();
    assert_agent_state(&results, 4_999_500, 1, 1, &activate, 3);

    let candle_2 = candle(&symbol, 2, 120, 130, 90, 110);
    agent.perform_candle(&candle_2);
    agent.on_end_round(candle_2.start_time, &vec![candle_2.clone()]);
    let results = agent.get_result();
    assert_agent_state(&results, 4_999_500, 1, 1, &activate, 3);

    let candle_3 = candle("BTC", 3, 120, 130, 90, 110);
    agent.perform_candle(&candle_3);
    agent.on_end_round(candle_3.start_time, &vec![candle_3.clone()]);
    let results = agent.get_result();
    assert_eq!(results.balance, 4_999_500);
    assert_eq!(results.opened_orders, 0);
    assert_eq!(results.executed_orders, 2);
    assert_eq!(results.assets_available, vec![(symbol.to_string(), 5)]);
    assert_eq!(results.assets_frozen, vec![(symbol.to_string(), 0)]);
}

#[test]
fn test_calculate_agent_buy_cancel() {
    let activate = CalculateIterActivate::default();
    let mut agent = CalculateAgent::new(BALANCE, RATE, &activate);
    let symbol = "BTC".to_string();

    let candle_1 = candle(&symbol, 0, 100, 120, 90, 110);
    let result = agent.perform_order(
        CalculateCommand::BuyLimit { symbol: symbol.clone(), price: price(85), stake: 5, expiration: None },
        &candle_1,
    );
    assert!(matches!(result, Ok(Some(_))));
    let Ok(Some(Order { id, .. })) = result else {
        panic!("Order not found");
    };
    agent.perform_candle(&candle_1);
    agent.on_end_round(candle_1.start_time, &vec![candle_1.clone()]);
    let results = agent.get_result();
    assert_eq!(results.balance, 5_750_000);
    assert_eq!(results.opened_orders, 1);
    assert_eq!(results.executed_orders, 0);

    let candle_2 = candle("BTC", 1, 120, 130, 90, 110);
    agent.perform_candle(&candle_2);
    agent.on_end_round(candle_2.start_time, &vec![candle_2.clone()]);
    let results = agent.get_result();
    assert_agent_state(&results, 5_750_000, 1, 0, &activate, 1);

    let candle_3 = candle(&symbol, 3, 120, 130, 90, 110);
    let result = agent.perform_order(
        CalculateCommand::CancelLimit { symbol: symbol.clone(), id },
        &candle_3,
    );
    assert!(matches!(result, Ok(None)));
    agent.perform_candle(&candle_3);
    agent.on_end_round(candle_3.start_time, &vec![candle_3.clone()]);
    let results = agent.get_result();
    assert_agent_state(&results, BALANCE as i128, 0, 1, &activate, 2);
    assert_eq!(agent.get_executed_orders()[0].status, OrderStatus::Cancel);
}

#[test]
fn test_calculate_agent_sell_cancel() {
    let activate = CalculateIterActivate::default();
    let mut agent = CalculateAgent::new(BALANCE, RATE, &activate);
    let symbol = "BTC".to_string();

    let candle_1 = candle(&symbol, 1, 100, 120, 90, 110);
    let result = agent.perform_order(
        CalculateCommand::BuyMarket { symbol: symbol.clone(), stake: 5 },
        &candle_1,
    );
    assert!(matches!(result, Ok(Some(_))));
    let result = agent.perform_order(
        CalculateCommand::SellLimit { symbol: symbol.clone(), stake: 5, price: price(150), expiration: None },
        &candle_1,
    );
    assert!(matches!(result, Ok(Some(_))));
    let Ok(Some(Order { id, .. })) = result else {
        panic!("Order not found");
    };
    agent.perform_candle(&candle_1);
    agent.on_end_round(candle_1.start_time, &vec![candle_1.clone()]);
    let results = agent.get_result();
    assert_agent_state(&results, 4_999_500, 1, 1, &activate, 3);

    let candle_2 = candle(&symbol, 2, 120, 130, 90, 110);
    agent.perform_candle(&candle_2);
    agent.on_end_round(candle_2.start_time, &vec![candle_2.clone()]);
    let results = agent.get_result();
    assert_agent_state(&results, 4_999_500, 1, 1, &activate, 3);

    let candle_3 = candle("BTC", 3, 120, 130, 90, 110);
    let result = agent.perform_order(
        CalculateCommand::CancelLimit { symbol: symbol.clone(), id },
        &candle_3,
    );
    assert!(matches!(result, Ok(None)));
    agent.perform_candle(&candle_3);
    agent.on_end_round(candle_3.start_time, &vec![candle_3.clone()]);
    let results = agent.get_result();
    assert_agent_state(&results, 4_999_500, 0, 2, &activate, 4);
    assert_eq!(results.assets_available, vec![(symbol.to_string(), 5)]);
    assert_eq!(results.assets_frozen, vec![(symbol.to_string(), 0)]);
}

#[test]
fn insufficient_balance_leaves_ledger_untouched() {
    let activate = CalculateIterActivate::default();
    let mut agent = CalculateAgent::new(1_000_000, RATE, &activate);
    let bar = candle("BTC", 0, 120, 130, 90, 110);
    let result = agent.perform_order(
        CalculateCommand::BuyMarket { symbol: "BTC".to_string(), stake: 5 },
        &bar,
    );
    // available 100.0, required 600.0
    assert_eq!(
        result,
        Err(CalculateAgentError::InsufficientBalance { available: 1_000_000, required: 6_000_000 })
    );
    let results = agent.get_result();
    assert_eq!(results.balance, 1_000_000);
    assert_eq!(results.executed_orders, 0);
    assert_eq!(results.opened_orders, 0);
    assert!(results.assets_available.is_empty());
    assert_eq!(activate.orders.borrow().len(), 0);
}

#[test]
fn insufficient_assets_leaves_ledger_untouched() {
    let activate = CalculateIterActivate::default();
    let mut agent = CalculateAgent::new(BALANCE, RATE, &activate);
    let bar = candle("BTC", 0, 100, 120, 90, 110);
    agent.perform_order(CalculateCommand::BuyMarket { symbol: "BTC".to_string(), stake: 2 }, &bar).unwrap();
    let result = agent.perform_order(
        CalculateCommand::SellLimit { symbol: "BTC".to_string(), stake: 3, price: price(150), expiration: None },
        &bar,
    );
    assert_eq!(
        result,
        Err(CalculateAgentError::InsufficientAssetBalance { symbol: "BTC".to_string(), available: 2, required: 3 })
    );
    assert_eq!(agent.get_result().assets_frozen, vec![("BTC".to_string(), 0)]);
    assert_eq!(agent.get_result().opened_orders, 0);
}

#[test]
fn oversized_notional_is_refused() {
    let activate = CalculateIterActivate::default();
    let mut agent = CalculateAgent::new(u64::MAX, 0, &activate);
    let bar = candle("BTC", 0, 100, 120, 90, 110);
    agent.perform_order(CalculateCommand::BuyMarket { symbol: "BTC".to_string(), stake: 1 }, &bar).unwrap();
    let result = agent.perform_order(
        CalculateCommand::SellLimit { symbol: "BTC".to_string(), stake: 1, price: u64::MAX, expiration: None },
        &bar,
    );
    assert!(result.is_ok());
    let result = agent.perform_order(
        CalculateCommand::BuyLimit { symbol: "BTC".to_string(), stake: 2, price: u64::MAX, expiration: None },
        &bar,
    );
    assert!(matches!(result, Err(CalculateAgentError::InsufficientBalance { .. })));
    let mut rich = CalculateAgent::new(u64::MAX, 0, &activate);
    rich.perform_order(CalculateCommand::BuyMarket { symbol: "BTC".to_string(), stake: 3 }, &bar).unwrap();
    let result = rich.perform_order(
        CalculateCommand::SellLimit { symbol: "BTC".to_string(), stake: 3, price: u64::MAX, expiration: None },
        &bar,
    );
    assert_eq!(result, Err(CalculateAgentError::LimitExceeded));
}

#[test]
fn sell_at_bar_high_does_not_fill() {
    let activate = CalculateIterActivate::default();
    let mut agent = CalculateAgent::new(BALANCE, RATE, &activate);
    let bar = candle("BTC", 0, 100, 120, 90, 110);
    agent.perform_order(CalculateCommand::BuyMarket { symbol: "BTC".to_string(), stake: 1 }, &bar).unwrap();
    agent.perform_order(
        CalculateCommand::SellLimit { symbol: "BTC".to_string(), stake: 1, price: price(120), expiration: None },
        &bar,
    ).unwrap();
    agent.perform_candle(&bar);
    assert_eq!(agent.get_result().opened_orders, 1);
    let inside = candle("BTC", 1, 100, 121, 90, 110);
    agent.perform_candle(&inside);
    assert_eq!(agent.get_result().opened_orders, 0);
    assert_eq!(agent.get_executed_orders()[1].status, OrderStatus::Close);
}

#[test]
fn buy_at_bar_low_does_not_fill() {
    let activate = CalculateIterActivate::default();
    let mut agent = CalculateAgent::new(BALANCE, RATE, &activate);
    let bar = candle("BTC", 0, 100, 120, 90, 110);
    agent.perform_order(
        CalculateCommand::BuyLimit { symbol: "BTC".to_string(), stake: 1, price: price(90), expiration: None },
        &bar,
    ).unwrap();
    agent.perform_candle(&bar);
    assert_eq!(agent.get_result().opened_orders, 1);
    let inside = candle("BTC", 1, 100, 120, 89, 110);
    agent.perform_candle(&inside);
    assert_eq!(agent.get_result().opened_orders, 0);
    // 1000 - 90 - 0.009
    assert_eq!(agent.get_result().balance, 10_000_000 - 900_000 - 90);
    assert_eq!(agent.get_result().assets_available, vec![("BTC".to_string(), 1)]);
}

#[test]
fn expiration_is_strict() {
    let activate = CalculateIterActivate::default();
    let mut agent = CalculateAgent::new(BALANCE, RATE, &activate);
    let bar = candle("BTC", 10, 100, 120, 90, 110);
    agent.perform_order(
        CalculateCommand::BuyLimit { symbol: "BTC".to_string(), stake: 1, price: price(50), expiration: Some(5) },
        &bar,
    ).unwrap();
    agent.perform_candle(&candle("BTC", 15, 100, 120, 90, 110));
    assert_eq!(agent.get_result().opened_orders, 1);
    agent.perform_candle(&candle("BTC", 16, 100, 120, 90, 110));
    assert_eq!(agent.get_result().opened_orders, 0);
    assert_eq!(agent.get_result().balance, BALANCE as i128);
}

#[test]
fn orders_on_other_symbols_are_untouched() {
    let activate = CalculateIterActivate::default();
    let mut agent = CalculateAgent::new(BALANCE, RATE, &activate);
    let btc = candle("BTC", 0, 100, 120, 90, 110);
    agent.perform_order(
        CalculateCommand::BuyLimit { symbol: "BTC".to_string(), stake: 1, price: price(95), expiration: Some(0) },
        &btc,
    ).unwrap();
    agent.perform_candle(&candle("ETH", 5, 1, 2, 1, 1));
    assert_eq!(agent.get_result().opened_orders, 1);
}

#[test]
fn fifo_fills_and_cancel_of_unknown_id() {
    let activate = CalculateIterActivate::default();
    let mut agent = CalculateAgent::new(BALANCE, RATE, &activate);
    let bar = candle("BTC", 0, 100, 120, 90, 110);
    let a = agent.perform_order(
        CalculateCommand::BuyLimit { symbol: "BTC".to_string(), stake: 1, price: price(80), expiration: None },
        &bar,
    ).unwrap().unwrap();
    let b = agent.perform_order(
        CalculateCommand::BuyLimit { symbol: "BTC".to_string(), stake: 2, price: price(85), expiration: None },
        &bar,
    ).unwrap().unwrap();
    assert_ne!(a.id, b.id);
    let before = agent.get_result();
    let result = agent.perform_order(CalculateCommand::CancelLimit { symbol: "BTC".to_string(), id: 999 }, &bar);
    assert!(matches!(result, Ok(None)));
    assert_eq!(agent.get_result().balance, before.balance);
    agent.perform_candle(&candle("BTC", 1, 100, 120, 70, 110));
    let executed = agent.get_executed_orders();
    assert_eq!(executed.len(), 2);
    assert_eq!(executed[0].id, a.id);
    assert_eq!(executed[1].id, b.id);
    assert_eq!(executed[1].side, OrderSide::Buy);
    assert_eq!(executed[1].order_type, OrderType::Limit);
}

#[test]
fn buy_limit_then_cancel_restores_ledger() {
    let activate = CalculateIterActivate::default();
    let mut agent = CalculateAgent::new(BALANCE, RATE, &activate);
    let bar = candle("BTC", 0, 100, 120, 90, 110);
    agent.perform_order(CalculateCommand::BuyMarket { symbol: "BTC".to_string(), stake: 1 }, &bar).unwrap();
    let before = agent.get_result();
    let order = agent.perform_order(
        CalculateCommand::BuyLimit { symbol: "BTC".to_string(), stake: 3, price: price(95), expiration: None },
        &bar,
    ).unwrap().unwrap();
    agent.perform_order(CalculateCommand::CancelLimit { symbol: "BTC".to_string(), id: order.id }, &bar).unwrap();
    let after = agent.get_result();
    assert_eq!(after.balance, before.balance);
    assert_eq!(after.assets_available, before.assets_available);
    assert_eq!(after.assets_frozen, before.assets_frozen);
    assert_eq!(after.opened_orders, before.opened_orders);
    assert_eq!(after.executed_orders, before.executed_orders + 1);
}

#[test]
fn min_balance_tracks_completed_ticks() {
    let activate = CalculateIterActivate::default();
    let mut agent = CalculateAgent::new(BALANCE, RATE, &activate);
    let bar = candle("BTC", 0, 100, 120, 90, 110);
    agent.perform_order(CalculateCommand::BuyMarket { symbol: "BTC".to_string(), stake: 5 }, &bar).unwrap();
    assert_eq!(agent.get_result().min_balance, BALANCE as i128);
    agent.on_end_round(0, &vec![bar.clone()]);
    assert_eq!(agent.get_result().min_balance, 4_999_500);
    let bar_2 = candle("BTC", 1, 120, 130, 90, 110);
    agent.perform_order(CalculateCommand::SellMarket { symbol: "BTC".to_string(), stake: 5 }, &bar_2).unwrap();
    agent.on_end_round(1, &vec![bar_2.clone()]);
    let results = agent.get_result();
    assert_eq!(results.min_balance, 4_999_500);
    assert!(results.min_balance <= results.balance);
}

#[test]
fn stats_for_a_symbol() {
    let activate = CalculateIterActivate::default();
    let mut agent = CalculateAgent::new(BALANCE, RATE, &activate);
    let bar = candle("BTC", 0, 100, 120, 90, 110);
    agent.perform_order(CalculateCommand::BuyMarket { symbol: "BTC".to_string(), stake: 2 }, &bar).unwrap();
    agent.perform_order(
        CalculateCommand::BuyLimit { symbol: "BTC".to_string(), stake: 1, price: price(50), expiration: None },
        &bar,
    ).unwrap();
    let stats = agent.get_stats(&bar);
    assert_eq!(stats.orders, 1);
    assert_eq!(stats.count, 2);
    assert_eq!(stats.real, Some(2 * price(100) as u128));
    assert_eq!(stats.balance, 10_000_000 - 2_000_000 - 200 - 500_000);
}

#[test]
fn commission_is_rounded_down() {
    let activate = CalculateIterActivate::default();
    let mut agent = CalculateAgent::new(1_000, 10_000, &activate);
    let bar = Candle { symbol: "X".to_string(), start_time: 0, open: 3, high: 4, low: 2, close: 3 };
    let order = agent.perform_order(CalculateCommand::BuyMarket { symbol: "X".to_string(), stake: 5 }, &bar).unwrap().unwrap();
    assert_eq!(order.commission, 0);
    assert_eq!(order.status, OrderStatus::Open);
    assert_eq!(agent.get_result().balance, 985);
}

#[test]
fn executed_records_match_transitions() {
    let activate = CalculateIterActivate::default();
    let mut agent = CalculateAgent::new(BALANCE, RATE, &activate);
    let bar = candle("BTC", 0, 100, 120, 90, 110);
    let eth = candle("ETH", 0, 10, 12, 9, 11);
    // two market orders, three limit orders
    agent.perform_order(CalculateCommand::BuyMarket { symbol: "BTC".to_string(), stake: 4 }, &bar).unwrap();
    agent.perform_order(CalculateCommand::SellMarket { symbol: "BTC".to_string(), stake: 1 }, &bar).unwrap();
    agent.perform_order(
        CalculateCommand::SellLimit { symbol: "BTC".to_string(), stake: 2, price: price(125), expiration: None },
        &bar,
    ).unwrap();
    let eth_order = agent.perform_order(
        CalculateCommand::BuyLimit { symbol: "ETH".to_string(), stake: 3, price: price(8), expiration: None },
        &eth,
    ).unwrap().unwrap();
    agent.perform_order(
        CalculateCommand::BuyLimit { symbol: "BTC".to_string(), stake: 1, price: price(95), expiration: None },
        &bar,
    ).unwrap();
    assert_eq!(agent.get_result().executed_orders, 2);
    assert_eq!(agent.get_result().opened_orders, 3);
    assert_eq!(agent.frozen_of(&"BTC".to_string()), 2);
    assert_eq!(agent.available_of(&"BTC".to_string()), 1);
    // the BTC buy fills (95 > 90), the BTC sell stays (125 >= 120)
    agent.perform_candle(&bar);
    assert_eq!(agent.get_result().executed_orders, 3);
    assert_eq!(agent.get_result().opened_orders, 2);
    agent.perform_order(CalculateCommand::CancelLimit { symbol: "ETH".to_string(), id: eth_order.id }, &eth).unwrap();
    assert_eq!(agent.get_result().executed_orders, 4);
    assert_eq!(agent.get_result().opened_orders, 1);
    assert_eq!(agent.frozen_of(&"BTC".to_string()), 2);
    assert_eq!(agent.available_of(&"BTC".to_string()), 2);
    assert_eq!(agent.available_of(&"ETH".to_string()), 0);
    let statuses: Vec<OrderStatus> = agent.get_executed_orders().iter().map(|o| o.status).collect();
    assert_eq!(
        statuses,
        vec![OrderStatus::Close, OrderStatus::Close, OrderStatus::Close, OrderStatus::Cancel]
    );
}

#[test]
fn strategy_is_told_of_every_transition() {
    let activate = CalculateIterActivate::default();
    let mut agent = CalculateAgent::new(BALANCE, RATE, &activate);
    let bar = candle("BTC", 7, 100, 120, 90, 110);
    agent.perform_order(CalculateCommand::BuyMarket { symbol: "BTC".to_string(), stake: 1 }, &bar).unwrap();
    agent.perform_order(
        CalculateCommand::BuyLimit { symbol: "BTC".to_string(), stake: 1, price: price(80), expiration: Some(1) },
        &bar,
    ).unwrap();
    let refused = agent.perform_order(
        CalculateCommand::SellMarket { symbol: "BTC".to_string(), stake: 9 },
        &bar,
    );
    assert!(refused.is_err());
    agent.perform_candle(&candle("BTC", 9, 100, 120, 90, 110));
    agent.on_end_round(9, &vec![]);
    agent.on_end();
    let log = activate.log.borrow();
    let seen: Vec<(u64, OrderStatus, OrderType)> = log
        .iter()
        .filter_map(|n| match n {
            Notice::Order(t, o) => Some((*t, o.status, o.order_type)),
            _ => None,
        })
        .collect();
    assert_eq!(
        seen,
        vec![
            (7, OrderStatus::Open, OrderType::Market),
            (7, OrderStatus::Close, OrderType::Market),
            (7, OrderStatus::Open, OrderType::Limit),
            (9, OrderStatus::Cancel, OrderType::Limit),
        ]
    );
    assert_eq!(log.len(), 6);
    assert!(matches!(&log[4], Notice::EndRound(9, r, _) if r.executed_orders == 2));
    assert!(matches!(&log[5], Notice::End(r) if r.balance == BALANCE as i128 - 1_000_000 - 100));
}

#[test]
fn any_commission_rate_is_accepted() {
    let activate = CalculateIterActivate::default();
    // a rate of 200% of the notional
    let mut agent = CalculateAgent::new(BALANCE, 200_000_000, &activate);
    let bar = candle("BTC", 0, 100, 120, 90, 110);
    agent.perform_order(CalculateCommand::BuyMarket { symbol: "BTC".to_string(), stake: 1 }, &bar).unwrap();
    assert_eq!(agent.get_result().balance, 10_000_000 - 1_000_000 - 2_000_000);
    agent.perform_order(CalculateCommand::SellMarket { symbol: "BTC".to_string(), stake: 1 }, &bar).unwrap();
    // the sale brings less than its commission
    assert_eq!(agent.get_result().balance, 10_000_000 - 1_000_000 - 2_000_000 + 1_000_000 - 2_000_000);
}

#[test]
fn oversized_commission_is_refused() {
    let activate = CalculateIterActivate::default();
    let mut agent = CalculateAgent::new(u64::MAX, u64::MAX, &activate);
    let bar = Candle { symbol: "BTC".to_string(), start_time: 0, open: 1_000_000_000_000, high: 1, low: 1, close: 1 };
    let result = agent.perform_order(CalculateCommand::BuyMarket { symbol: "BTC".to_string(), stake: 1 }, &bar);
    assert_eq!(result, Err(CalculateAgentError::LimitExceeded));
    assert_eq!(agent.get_result().balance, u64::MAX as i128);
    assert_eq!(activate.log.borrow().len(), 0);
}
