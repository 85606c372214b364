use hiquant::date::Date;
use hiquant::enums::Direction;
use hiquant::market_system::{MarketOrder, QAMarketSystem};

const UNIT: i128 = 1_000_000;

#[test]
fn buy_then_sell_through_market_system() {
    let mut mkt = QAMarketSystem::new("test".to_string());
    mkt.register_account("acc1".to_string(), 100_000 * UNIT);

    // buy 100 at 10
    mkt.schedule_order(MarketOrder::buy("acc1", "000001", 100, 10_000_000));
    mkt.process_order_queue();
    assert!(mkt.get_account("acc1").unwrap().has_position("000001"));

    // the price rises to 11
    mkt.update_price("000001", 11_000_000);
    let summary = mkt.get_account("acc1").unwrap().summary();
    assert!(summary.float_pnl > 90 * UNIT);
}

#[test]
fn unknown_account_gives_no_trades() {
    let mut mkt = QAMarketSystem::new("test".to_string());
    let trades = mkt.execute_order(&MarketOrder::buy("nobody", "000001", 100, 10_000_000));
    assert!(trades.is_empty());
}

#[test]
fn auto_fill_uses_latest_price_for_market_orders() {
    let mut mkt = QAMarketSystem::new("test".to_string());
    mkt.register_account("acc1".to_string(), 100_000 * UNIT);
    mkt.update_price("000001", 12_000_000);
    let trades = mkt.execute_order(&MarketOrder::buy("acc1", "000001", 100, 0));
    assert_eq!(trades.len(), 1);
    assert_eq!(trades[0].price, 12_000_000);
    assert_eq!(trades[0].volume, 100);
    assert!(trades[0].trade_id.starts_with("TRD_000001_"));
    assert_eq!(mkt.last_trades("000001").len(), 1);
}

#[test]
fn refused_order_gives_no_trades() {
    let mut mkt = QAMarketSystem::new("test".to_string());
    mkt.register_account("acc1".to_string(), 100 * UNIT);
    let trades = mkt.execute_order(&MarketOrder::buy("acc1", "000001", 100, 10_000_000));
    assert!(trades.is_empty());
    assert!(!mkt.get_account("acc1").unwrap().has_position("000001"));
}

#[test]
fn simulated_market_matches_in_book() {
    let mut mkt = QAMarketSystem::new_sim("sim".to_string());
    mkt.register_account("buyer".to_string(), 100_000 * UNIT);
    mkt.register_account("seller".to_string(), 100_000 * UNIT);
    // give the seller shares through an automatic fill first
    mkt.backtest_auto_fill = true;
    mkt.execute_order(&MarketOrder::buy("seller", "000001", 100, 10_000_000));
    mkt.backtest_auto_fill = false;
    let none = mkt.execute_order(&MarketOrder::sell("seller", "000001", 100, 10_000_000));
    assert!(none.is_empty());
    assert_eq!(mkt.get_orderbook("000001").unwrap().best_ask(), Some(10_000_000));
    let trades = mkt.execute_order(&MarketOrder::buy("buyer", "000001", 60, 10_000_000));
    assert_eq!(trades.len(), 1);
    assert_eq!(trades[0].volume, 60);
    assert!(mkt.get_account("buyer").unwrap().has_position("000001"));
}

#[test]
fn dates_and_names() {
    let mut mkt = QAMarketSystem::new("test".to_string());
    mkt.register_account("a".to_string(), 1 * UNIT);
    mkt.register_account("b".to_string(), 1 * UNIT);
    assert_eq!(mkt.account_names(), vec!["a".to_string(), "b".to_string()]);
    mkt.set_date(Date::from_ymd(2024, 1, 2));
    assert_eq!(mkt.current_datetime(), "2024-01-02");
    assert_eq!(mkt.current_date(), Some(Date::from_ymd(2024, 1, 2)));
    let order = MarketOrder::sell("a", "000001", 1, 0);
    assert_eq!(order.direction, Direction::Sell);
    assert_eq!(order.offset, "close");
}
