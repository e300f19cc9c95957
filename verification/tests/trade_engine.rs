use candid::{Nat, Principal};
use kongbot::common_types::{TradeError, TradeRequest, TradeResponse, TradeStatus, TradeType};
use kongbot::pair::parse_trading_pair;
use kongbot::trade_engine::{
    cancel_trade, check_pending_orders, execute_market_order, execute_trade, get_active_trades,
    get_trade_history, is_limit_triggered, notional_of, pending_limit_orders,
    process_pending_order, settle, validate_trade_request, OrderStore,
};
use kongbot::wallet::{deposit, get_balance, get_wallet, withdraw, Ledger};

fn owner(tag: u8) -> Principal {
    Principal::from_slice(&[tag])
}

fn units(value: u64) -> Nat {
    Nat::from(value)
}

fn order(user: Principal, pair: &str, trade_type: TradeType, amount: u64, limit: Option<u64>) -> TradeRequest {
    TradeRequest {
        pair: pair.to_string(),
        trade_type,
        amount,
        limit_price: limit,
        stop_loss: None,
        take_profit: None,
        expiry: None,
        user_id: user,
        chat_id: "chat".to_string(),
    }
}

const BTC_PRICE: u64 = 2_000_000;

const ONE: u64 = 100;

#[test]
fn pair_splits_at_its_one_separator() {
    assert_eq!(parse_trading_pair("BTC/USD"), Ok(("BTC", "USD")));
    assert_eq!(parse_trading_pair("/USD"), Ok(("", "USD")));
    assert_eq!(parse_trading_pair("BTC/"), Ok(("BTC", "")));
    assert_eq!(parse_trading_pair("/"), Ok(("", "")));
}

#[test]
fn pair_without_separator_is_refused() {
    assert_eq!(parse_trading_pair("BTCUSD"), Err(TradeError::InvalidTradePair));
    assert_eq!(parse_trading_pair(""), Err(TradeError::InvalidTradePair));
}

#[test]
fn pair_with_more_than_one_separator_is_refused() {
    assert_eq!(parse_trading_pair("A/B/C"), Err(TradeError::InvalidTradePair));
    assert_eq!(parse_trading_pair("BTC//USD"), Err(TradeError::InvalidTradePair));
    assert_eq!(parse_trading_pair("/BTC/"), Err(TradeError::InvalidTradePair));
    assert_eq!(parse_trading_pair("//"), Err(TradeError::InvalidTradePair));
}

#[test]
fn order_on_a_pair_with_two_separators_is_refused() {
    let mut ledger = Ledger::new();
    let mut store = OrderStore::new();
    let a = owner(1);
    deposit(&mut ledger, a, "b/c".to_string(), units(5_000_000), 1);
    deposit(&mut ledger, a, "a".to_string(), units(5_000_000), 1);
    let request = order(a, "A/B/C", TradeType::MarketBuy, ONE, None);
    assert_eq!(validate_trade_request(&request), Err(TradeError::InvalidTradePair));
    assert_eq!(
        execute_market_order(&mut ledger, a, &request, BTC_PRICE, 2),
        Err(TradeError::InvalidTradePair)
    );
    assert_eq!(
        execute_trade(&mut store, &mut ledger, request, Some(BTC_PRICE), 3),
        Err(TradeError::InvalidTradePair)
    );
    assert_eq!(store.trade_counter(), 0);
    assert_eq!(get_balance(&ledger, a, "a"), units(5_000_000));
}

#[test]
fn validation_checks_pair_then_amount_then_limit() {
    let a = owner(1);
    assert_eq!(validate_trade_request(&order(a, "BTC/USD", TradeType::MarketBuy, ONE, None)), Ok(()));
    assert_eq!(
        validate_trade_request(&order(a, "BTCUSD", TradeType::MarketBuy, 0, None)),
        Err(TradeError::InvalidTradePair)
    );
    assert_eq!(
        validate_trade_request(&order(a, "BTC/USD", TradeType::LimitBuy, 0, None)),
        Err(TradeError::InvalidTradeAmount)
    );
    assert_eq!(
        validate_trade_request(&order(a, "BTC/USD", TradeType::LimitBuy, ONE, None)),
        Err(TradeError::InvalidOrderType)
    );
    assert_eq!(
        validate_trade_request(&order(a, "BTC/USD", TradeType::LimitSell, ONE, Some(0))),
        Err(TradeError::InvalidTradePrice)
    );
    assert_eq!(
        validate_trade_request(&order(a, "BTC/USD", TradeType::LimitSell, ONE, Some(1))),
        Ok(())
    );
    assert_eq!(
        validate_trade_request(&order(a, "BTC/USD", TradeType::MarketSell, ONE, Some(0))),
        Ok(())
    );
}

#[test]
fn notional_is_amount_times_price_rounded_down() {
    assert_eq!(notional_of(ONE, BTC_PRICE), 2_000_000);
    assert_eq!(notional_of(150, 2_000_050), 3_000_075);
    assert_eq!(notional_of(1, 199), 1);
    assert_eq!(notional_of(1, 99), 0);
    assert_eq!(notional_of(0, 7), 0);
    assert_eq!(
        notional_of(u64::MAX, u64::MAX),
        (u64::MAX as u128) * (u64::MAX as u128) / 100
    );
}

#[test]
fn limit_trigger_by_side() {
    assert!(is_limit_triggered(TradeType::LimitBuy, 1_900_000, 1_850_000));
    assert!(is_limit_triggered(TradeType::LimitBuy, 1_900_000, 1_900_000));
    assert!(!is_limit_triggered(TradeType::LimitBuy, 1_900_000, 1_900_001));
    assert!(is_limit_triggered(TradeType::LimitSell, 1_900_000, 1_900_000));
    assert!(is_limit_triggered(TradeType::LimitSell, 1_900_000, 2_000_000));
    assert!(!is_limit_triggered(TradeType::LimitSell, 1_900_000, 1_899_999));
    assert!(!is_limit_triggered(TradeType::MarketBuy, 1_900_000, 1));
    assert!(!is_limit_triggered(TradeType::MarketSell, 1, 1_900_000));
}

#[test]
fn market_buy_fills_at_the_oracle_price() {
    let mut ledger = Ledger::new();
    let mut store = OrderStore::new();
    let a = owner(1);
    deposit(&mut ledger, a, "usd".to_string(), units(5_000_000), 1);
    let response = execute_trade(
        &mut store,
        &mut ledger,
        order(a, "BTC/USD", TradeType::MarketBuy, ONE, None),
        Some(BTC_PRICE),
        7,
    )
    .unwrap();
    assert_eq!(
        response,
        TradeResponse {
            trade_id: 1,
            status: TradeStatus::Filled,
            executed_price: Some(BTC_PRICE),
            timestamp: 7,
            amount: ONE,
            limit_price: None,
        }
    );
    assert_eq!(get_balance(&ledger, a, "usd"), units(3_000_000));
    assert_eq!(get_balance(&ledger, a, "btc"), units(ONE));
    assert_eq!(get_trade_history(&store, a), vec![response]);
}

#[test]
fn market_sell_fills_at_the_oracle_price() {
    let mut ledger = Ledger::new();
    let mut store = OrderStore::new();
    let a = owner(1);
    deposit(&mut ledger, a, "btc".to_string(), units(250), 1);
    let response = execute_trade(
        &mut store,
        &mut ledger,
        order(a, "BTC/USD", TradeType::MarketSell, 150, None),
        Some(2_000_050),
        7,
    )
    .unwrap();
    assert_eq!(response.status, TradeStatus::Filled);
    assert_eq!(response.executed_price, Some(2_000_050));
    assert_eq!(get_balance(&ledger, a, "btc"), units(100));
    assert_eq!(get_balance(&ledger, a, "usd"), units(3_000_075));
}

#[test]
fn market_buy_with_exactly_enough() {
    let mut ledger = Ledger::new();
    let mut store = OrderStore::new();
    let a = owner(1);
    deposit(&mut ledger, a, "usd".to_string(), units(2_000_000), 1);
    let request = order(a, "BTC/USD", TradeType::MarketBuy, ONE, None);
    assert!(execute_trade(&mut store, &mut ledger, request, Some(BTC_PRICE), 7).is_ok());
    assert_eq!(get_balance(&ledger, a, "usd"), units(0));
}

#[test]
fn submission_without_funds_is_refused() {
    let mut ledger = Ledger::new();
    let mut store = OrderStore::new();
    let a = owner(1);
    deposit(&mut ledger, a, "usd".to_string(), units(1_999_999), 1);
    let request = order(a, "BTC/USD", TradeType::MarketBuy, ONE, None);
    assert_eq!(
        execute_trade(&mut store, &mut ledger, request, Some(BTC_PRICE), 7),
        Err(TradeError::InsufficientBalance)
    );
    let sell = order(a, "BTC/USD", TradeType::LimitSell, ONE, Some(BTC_PRICE));
    assert_eq!(
        execute_trade(&mut store, &mut ledger, sell, None, 7),
        Err(TradeError::InsufficientBalance)
    );
    assert_eq!(store.trade_counter(), 0);
    assert!(get_active_trades(&store, a).is_empty());
    assert!(get_trade_history(&store, a).is_empty());
    assert_eq!(get_balance(&ledger, a, "usd"), units(1_999_999));
}

#[test]
fn limit_buy_is_checked_at_its_limit_price() {
    let mut ledger = Ledger::new();
    let mut store = OrderStore::new();
    let a = owner(1);
    deposit(&mut ledger, a, "usd".to_string(), units(1_900_000), 1);
    let request = order(a, "BTC/USD", TradeType::LimitBuy, ONE, Some(1_900_000));
    assert!(execute_trade(&mut store, &mut ledger, request, Some(BTC_PRICE), 7).is_ok());
    let dearer = order(a, "BTC/USD", TradeType::LimitBuy, ONE, Some(1_900_001));
    assert_eq!(
        execute_trade(&mut store, &mut ledger, dearer, Some(1), 7),
        Err(TradeError::InsufficientBalance)
    );
}

#[test]
fn market_buy_without_price_is_refused_before_it_takes_an_id() {
    let mut ledger = Ledger::new();
    let mut store = OrderStore::new();
    let a = owner(1);
    deposit(&mut ledger, a, "usd".to_string(), units(5_000_000), 1);
    let request = order(a, "BTC/USD", TradeType::MarketBuy, ONE, None);
    assert_eq!(
        execute_trade(&mut store, &mut ledger, request, None, 7),
        Err(TradeError::PriceDataUnavailable)
    );
    assert_eq!(store.trade_counter(), 0);
    assert!(get_trade_history(&store, a).is_empty());
}

#[test]
fn market_sell_without_price_spends_its_id() {
    let mut ledger = Ledger::new();
    let mut store = OrderStore::new();
    let a = owner(1);
    deposit(&mut ledger, a, "btc".to_string(), units(ONE), 1);
    let request = order(a, "BTC/USD", TradeType::MarketSell, ONE, None);
    assert_eq!(
        execute_trade(&mut store, &mut ledger, request, None, 7),
        Err(TradeError::PriceDataUnavailable)
    );
    assert_eq!(store.trade_counter(), 1);
    assert!(get_active_trades(&store, a).is_empty());
    assert!(get_trade_history(&store, a).is_empty());
    assert_eq!(get_balance(&ledger, a, "btc"), units(ONE));
    let again = order(a, "BTC/USD", TradeType::MarketSell, ONE, None);
    let response = execute_trade(&mut store, &mut ledger, again, Some(BTC_PRICE), 8).unwrap();
    assert_eq!(response.trade_id, 2);
}

#[test]
fn limit_buy_waits_and_fills_when_the_price_falls() {
    let mut ledger = Ledger::new();
    let mut store = OrderStore::new();
    let a = owner(1);
    deposit(&mut ledger, a, "usd".to_string(), units(5_000_000), 1);
    let request = order(a, "BTC/USD", TradeType::LimitBuy, ONE, Some(1_900_000));
    let response = execute_trade(&mut store, &mut ledger, request, Some(BTC_PRICE), 7).unwrap();
    assert_eq!(
        response,
        TradeResponse {
            trade_id: 1,
            status: TradeStatus::Pending,
            executed_price: None,
            timestamp: 7,
            amount: ONE,
            limit_price: Some(1_900_000),
        }
    );
    assert_eq!(get_balance(&ledger, a, "usd"), units(5_000_000));
    assert_eq!(get_balance(&ledger, a, "btc"), units(0));
    assert_eq!(get_active_trades(&store, a).len(), 1);

    let pending = pending_limit_orders(&store);
    assert_eq!(pending.len(), 1);
    assert_eq!(pending[0].0, 1);
    assert_eq!(pending[0].1.pair, "BTC/USD");

    assert_eq!(check_pending_orders(&mut store, &mut ledger, &vec![(1, Some(1_850_000))], 9), 1);
    assert!(get_active_trades(&store, a).is_empty());
    assert_eq!(
        get_trade_history(&store, a),
        vec![TradeResponse {
            trade_id: 1,
            status: TradeStatus::Filled,
            executed_price: Some(1_850_000),
            timestamp: 7,
            amount: ONE,
            limit_price: Some(1_900_000),
        }]
    );
    assert_eq!(get_balance(&ledger, a, "usd"), units(3_150_000));
    assert_eq!(get_balance(&ledger, a, "btc"), units(ONE));
}

#[test]
fn limit_buy_stays_pending_above_its_target() {
    let mut ledger = Ledger::new();
    let mut store = OrderStore::new();
    let a = owner(1);
    deposit(&mut ledger, a, "usd".to_string(), units(5_000_000), 1);
    let request = order(a, "BTC/USD", TradeType::LimitBuy, ONE, Some(1_900_000));
    execute_trade(&mut store, &mut ledger, request, None, 7).unwrap();
    assert!(!process_pending_order(&mut store, &mut ledger, 1, Some(1_900_001), 8));
    assert!(!process_pending_order(&mut store, &mut ledger, 1, None, 8));
    assert_eq!(get_active_trades(&store, a).len(), 1);
    assert_eq!(get_trade_history(&store, a)[0].status, TradeStatus::Pending);
    assert_eq!(get_balance(&ledger, a, "usd"), units(5_000_000));
    assert!(process_pending_order(&mut store, &mut ledger, 1, Some(1_900_000), 9));
    assert_eq!(get_trade_history(&store, a)[0].status, TradeStatus::Filled);
    assert_eq!(get_balance(&ledger, a, "usd"), units(3_100_000));
}

#[test]
fn limit_sell_fills_when_the_price_rises() {
    let mut ledger = Ledger::new();
    let mut store = OrderStore::new();
    let a = owner(1);
    deposit(&mut ledger, a, "btc".to_string(), units(ONE), 1);
    let request = order(a, "BTC/USD", TradeType::LimitSell, ONE, Some(2_100_000));
    execute_trade(&mut store, &mut ledger, request, None, 7).unwrap();
    assert!(!process_pending_order(&mut store, &mut ledger, 1, Some(2_099_999), 8));
    assert_eq!(get_balance(&ledger, a, "btc"), units(ONE));
    assert!(process_pending_order(&mut store, &mut ledger, 1, Some(2_200_000), 9));
    assert_eq!(get_balance(&ledger, a, "btc"), units(0));
    assert_eq!(get_balance(&ledger, a, "usd"), units(2_200_000));
    assert_eq!(get_trade_history(&store, a)[0].executed_price, Some(2_200_000));
    assert!(pending_limit_orders(&store).is_empty());
}

#[test]
fn due_order_without_funds_stays_pending() {
    let mut ledger = Ledger::new();
    let mut store = OrderStore::new();
    let a = owner(1);
    deposit(&mut ledger, a, "usd".to_string(), units(1_900_000), 1);
    let request = order(a, "BTC/USD", TradeType::LimitBuy, ONE, Some(1_900_000));
    execute_trade(&mut store, &mut ledger, request, None, 7).unwrap();
    withdraw(&mut ledger, a, "usd".to_string(), units(1_000_000), 8).unwrap();
    assert!(!process_pending_order(&mut store, &mut ledger, 1, Some(1_800_000), 9));
    assert_eq!(get_active_trades(&store, a).len(), 1);
    assert_eq!(get_trade_history(&store, a)[0].status, TradeStatus::Pending);
    assert_eq!(get_balance(&ledger, a, "usd"), units(900_000));
    assert_eq!(get_balance(&ledger, a, "btc"), units(0));
    deposit(&mut ledger, a, "usd".to_string(), units(900_000), 10);
    assert!(process_pending_order(&mut store, &mut ledger, 1, Some(1_800_000), 11));
    assert_eq!(get_balance(&ledger, a, "usd"), units(0));
}

#[test]
fn one_order_that_fails_does_not_stop_the_scan() {
    let mut ledger = Ledger::new();
    let mut store = OrderStore::new();
    let a = owner(1);
    let b = owner(2);
    deposit(&mut ledger, a, "usd".to_string(), units(1_900_000), 1);
    deposit(&mut ledger, b, "usd".to_string(), units(1_900_000), 1);
    execute_trade(&mut store, &mut ledger, order(a, "BTC/USD", TradeType::LimitBuy, ONE, Some(1_900_000)), None, 2).unwrap();
    execute_trade(&mut store, &mut ledger, order(b, "BTC/USD", TradeType::LimitBuy, ONE, Some(1_900_000)), None, 3).unwrap();
    execute_trade(&mut store, &mut ledger, order(b, "ETH/USD", TradeType::LimitSell, ONE, Some(5)), None, 3).unwrap_err();
    withdraw(&mut ledger, a, "usd".to_string(), units(1), 4).unwrap();
    let observations = vec![(1, Some(1_900_000)), (7, Some(1)), (2, Some(1_900_000)), (2, Some(1))];
    assert_eq!(check_pending_orders(&mut store, &mut ledger, &observations, 5), 1);
    assert_eq!(get_active_trades(&store, a).len(), 1);
    assert!(get_active_trades(&store, b).is_empty());
    assert_eq!(get_balance(&ledger, b, "btc"), units(ONE));
    assert_eq!(get_balance(&ledger, b, "usd"), units(0));
    assert_eq!(get_balance(&ledger, a, "btc"), units(0));
}

#[test]
fn scan_passes_over_market_orders_and_unknown_ids() {
    let mut ledger = Ledger::new();
    let mut store = OrderStore::new();
    let a = owner(1);
    deposit(&mut ledger, a, "usd".to_string(), units(5_000_000), 1);
    execute_trade(&mut store, &mut ledger, order(a, "BTC/USD", TradeType::MarketBuy, ONE, None), Some(BTC_PRICE), 2).unwrap();
    assert!(pending_limit_orders(&store).is_empty());
    assert!(!process_pending_order(&mut store, &mut ledger, 1, Some(1), 3));
    assert!(!process_pending_order(&mut store, &mut ledger, 99, Some(1), 3));
    assert_eq!(get_balance(&ledger, a, "usd"), units(3_000_000));
    assert_eq!(get_active_trades(&store, a).len(), 1);
}

#[test]
fn cancel_is_for_the_owner_and_works_once() {
    let mut ledger = Ledger::new();
    let mut store = OrderStore::new();
    let x = owner(1);
    let y = owner(2);
    deposit(&mut ledger, x, "usd".to_string(), units(5_000_000), 1);
    let request = order(x, "BTC/USD", TradeType::LimitBuy, ONE, Some(1_900_000));
    let id = execute_trade(&mut store, &mut ledger, request, None, 2).unwrap().trade_id;
    assert_eq!(cancel_trade(&mut store, y, id, 3), Err(TradeError::NotAuthorized));
    assert_eq!(get_active_trades(&store, x).len(), 1);
    let cancelled = cancel_trade(&mut store, x, id, 4).unwrap();
    assert_eq!(
        cancelled,
        TradeResponse {
            trade_id: id,
            status: TradeStatus::Cancelled,
            executed_price: None,
            timestamp: 4,
            amount: ONE,
            limit_price: Some(1_900_000),
        }
    );
    let history = get_trade_history(&store, x);
    assert_eq!(history.len(), 2);
    assert_eq!(history[0].status, TradeStatus::Pending);
    assert_eq!(history[1], cancelled);
    assert!(get_active_trades(&store, x).is_empty());
    assert_eq!(cancel_trade(&mut store, x, id, 5), Err(TradeError::NotFound));
    assert_eq!(cancel_trade(&mut store, y, id, 5), Err(TradeError::NotFound));
    assert_eq!(get_balance(&ledger, x, "usd"), units(5_000_000));
    assert!(get_trade_history(&store, y).is_empty());
}

#[test]
fn cancel_of_an_unknown_id_is_not_found() {
    let mut store = OrderStore::new();
    assert_eq!(cancel_trade(&mut store, owner(1), 1, 5), Err(TradeError::NotFound));
    assert_eq!(cancel_trade(&mut store, owner(1), 0, 5), Err(TradeError::NotFound));
}

#[test]
fn cancelled_order_is_not_filled_by_a_later_scan() {
    let mut ledger = Ledger::new();
    let mut store = OrderStore::new();
    let a = owner(1);
    deposit(&mut ledger, a, "usd".to_string(), units(5_000_000), 1);
    let request = order(a, "BTC/USD", TradeType::LimitBuy, ONE, Some(1_900_000));
    execute_trade(&mut store, &mut ledger, request, None, 2).unwrap();
    cancel_trade(&mut store, a, 1, 3).unwrap();
    assert_eq!(check_pending_orders(&mut store, &mut ledger, &vec![(1, Some(1))], 4), 0);
    assert_eq!(get_balance(&ledger, a, "usd"), units(5_000_000));
}

#[test]
fn trade_ids_rise_and_are_not_used_again() {
    let mut ledger = Ledger::new();
    let mut store = OrderStore::new();
    let a = owner(1);
    let b = owner(2);
    deposit(&mut ledger, a, "usd".to_string(), units(9_000_000), 1);
    deposit(&mut ledger, b, "btc".to_string(), units(500), 1);
    let first = execute_trade(&mut store, &mut ledger, order(a, "BTC/USD", TradeType::LimitBuy, ONE, Some(1_000_000)), None, 2).unwrap();
    let second = execute_trade(&mut store, &mut ledger, order(b, "BTC/USD", TradeType::LimitSell, ONE, Some(3_000_000)), None, 3).unwrap();
    assert_eq!((first.trade_id, second.trade_id), (1, 2));
    cancel_trade(&mut store, b, 2, 4).unwrap();
    let _ = execute_trade(&mut store, &mut ledger, order(a, "BTCUSD", TradeType::LimitBuy, ONE, Some(1)), None, 5);
    let third = execute_trade(&mut store, &mut ledger, order(b, "BTC/USD", TradeType::MarketSell, ONE, None), Some(BTC_PRICE), 6).unwrap();
    assert_eq!(third.trade_id, 3);
    cancel_trade(&mut store, a, 1, 7).unwrap();
    let fourth = execute_trade(&mut store, &mut ledger, order(a, "BTC/USD", TradeType::LimitBuy, ONE, Some(1_000_000)), None, 8).unwrap();
    assert_eq!(fourth.trade_id, 4);
    assert_eq!(store.trade_counter(), 4);
}

#[test]
fn invalid_pair_leaves_no_trace() {
    let mut ledger = Ledger::new();
    let mut store = OrderStore::new();
    let a = owner(1);
    deposit(&mut ledger, a, "usd".to_string(), units(5_000_000), 1);
    let request = order(a, "BTCUSD", TradeType::MarketBuy, ONE, None);
    assert_eq!(
        execute_trade(&mut store, &mut ledger, request, Some(BTC_PRICE), 2),
        Err(TradeError::InvalidTradePair)
    );
    assert!(get_active_trades(&store, a).is_empty());
    assert!(get_trade_history(&store, a).is_empty());
    assert!(pending_limit_orders(&store).is_empty());
    assert_eq!(store.trade_counter(), 0);
    assert_eq!(get_balance(&ledger, a, "usd"), units(5_000_000));
}

#[test]
fn invalid_amount_and_price_leave_no_trace() {
    let mut ledger = Ledger::new();
    let mut store = OrderStore::new();
    let a = owner(1);
    assert_eq!(
        execute_trade(&mut store, &mut ledger, order(a, "BTC/USD", TradeType::MarketSell, 0, None), Some(1), 2),
        Err(TradeError::InvalidTradeAmount)
    );
    assert_eq!(
        execute_trade(&mut store, &mut ledger, order(a, "BTC/USD", TradeType::LimitSell, ONE, None), Some(1), 2),
        Err(TradeError::InvalidOrderType)
    );
    assert_eq!(
        execute_trade(&mut store, &mut ledger, order(a, "BTC/USD", TradeType::LimitBuy, ONE, Some(0)), Some(1), 2),
        Err(TradeError::InvalidTradePrice)
    );
    assert_eq!(store.trade_counter(), 0);
    assert!(get_trade_history(&store, a).is_empty());
}

#[test]
fn active_trades_and_history_are_per_owner() {
    let mut ledger = Ledger::new();
    let mut store = OrderStore::new();
    let a = owner(1);
    let b = owner(2);
    deposit(&mut ledger, a, "usd".to_string(), units(9_000_000), 1);
    deposit(&mut ledger, b, "usd".to_string(), units(9_000_000), 1);
    execute_trade(&mut store, &mut ledger, order(a, "BTC/USD", TradeType::LimitBuy, ONE, Some(1_000_000)), None, 2).unwrap();
    execute_trade(&mut store, &mut ledger, order(b, "ETH/USD", TradeType::LimitBuy, 200, Some(300_000)), None, 3).unwrap();
    execute_trade(&mut store, &mut ledger, order(a, "ICP/USD", TradeType::MarketBuy, 300, None), Some(500), 4).unwrap();
    let of_a = get_active_trades(&store, a);
    assert_eq!(of_a.len(), 2);
    assert_eq!((of_a[0].0, of_a[0].1.pair.as_str(), of_a[0].1.amount), (1, "BTC/USD", ONE));
    assert_eq!((of_a[1].0, of_a[1].1.pair.as_str(), of_a[1].1.amount), (3, "ICP/USD", 300));
    let of_b = get_active_trades(&store, b);
    assert_eq!(of_b.len(), 1);
    assert_eq!((of_b[0].0, of_b[0].1.user_id, of_b[0].1.limit_price), (2, b, Some(300_000)));
    let history_a = get_trade_history(&store, a);
    assert_eq!(history_a.len(), 2);
    assert_eq!((history_a[0].trade_id, history_a[1].trade_id), (1, 3));
    assert_eq!(get_trade_history(&store, b).len(), 1);
    assert!(get_trade_history(&store, owner(3)).is_empty());
}

#[test]
fn pair_symbols_ignore_case_in_the_ledger() {
    let mut ledger = Ledger::new();
    let mut store = OrderStore::new();
    let a = owner(1);
    deposit(&mut ledger, a, "Usd".to_string(), units(5_000_000), 1);
    execute_trade(&mut store, &mut ledger, order(a, "Btc/USD", TradeType::MarketBuy, ONE, None), Some(BTC_PRICE), 2).unwrap();
    assert_eq!(get_balance(&ledger, a, "BTC"), units(ONE));
    assert_eq!(get_balance(&ledger, a, "usd"), units(3_000_000));
}

#[test]
fn executor_pays_before_it_receives() {
    let mut ledger = Ledger::new();
    let a = owner(1);
    deposit(&mut ledger, a, "usd".to_string(), units(1_999_999), 1);
    let request = order(a, "BTC/USD", TradeType::MarketBuy, ONE, None);
    assert_eq!(
        execute_market_order(&mut ledger, a, &request, BTC_PRICE, 2),
        Err(TradeError::ExecutionFailed)
    );
    assert_eq!(get_balance(&ledger, a, "usd"), units(1_999_999));
    assert_eq!(get_balance(&ledger, a, "btc"), units(0));
    assert_eq!(get_wallet(&mut ledger, a, 3).last_updated, 1);
    deposit(&mut ledger, a, "usd".to_string(), units(1), 4);
    assert_eq!(
        execute_market_order(&mut ledger, a, &request, BTC_PRICE, 5),
        Ok((TradeStatus::Filled, Some(BTC_PRICE)))
    );
    assert_eq!(get_balance(&ledger, a, "usd"), units(0));
    assert_eq!(get_balance(&ledger, a, "btc"), units(ONE));
    assert_eq!(get_wallet(&mut ledger, a, 6).last_updated, 5);
}

#[test]
fn executor_refuses_a_text_that_is_no_pair() {
    let mut ledger = Ledger::new();
    let a = owner(1);
    let request = order(a, "BTCUSD", TradeType::MarketSell, ONE, None);
    assert_eq!(
        execute_market_order(&mut ledger, a, &request, BTC_PRICE, 2),
        Err(TradeError::InvalidTradePair)
    );
}

#[test]
fn executor_sells_a_limit_order_by_its_side() {
    let mut ledger = Ledger::new();
    let a = owner(1);
    deposit(&mut ledger, a, "btc".to_string(), units(ONE), 1);
    let request = order(a, "BTC/USD", TradeType::LimitSell, ONE, Some(1));
    assert_eq!(
        execute_market_order(&mut ledger, a, &request, BTC_PRICE, 2),
        Ok((TradeStatus::Filled, Some(BTC_PRICE)))
    );
    assert_eq!(get_balance(&ledger, a, "usd"), units(BTC_PRICE));
}

#[test]
fn settle_moves_both_legs_or_none() {
    let mut ledger = Ledger::new();
    let a = owner(1);
    deposit(&mut ledger, a, "usd".to_string(), units(10), 1);
    assert_eq!(
        settle(&mut ledger, a, "usd".to_string(), &units(11), "btc".to_string(), &units(1), 2),
        Err(TradeError::ExecutionFailed)
    );
    assert_eq!(get_balance(&ledger, a, "usd"), units(10));
    assert_eq!(get_balance(&ledger, a, "btc"), units(0));
    assert_eq!(
        settle(&mut ledger, a, "usd".to_string(), &units(10), "btc".to_string(), &units(1), 3),
        Ok(())
    );
    assert_eq!(get_balance(&ledger, a, "usd"), units(0));
    assert_eq!(get_balance(&ledger, a, "btc"), units(1));
    assert_eq!(
        settle(&mut ledger, a, "btc".to_string(), &units(1), "btc".to_string(), &units(3), 4),
        Ok(())
    );
    assert_eq!(get_balance(&ledger, a, "btc"), units(3));
}
