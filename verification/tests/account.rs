use hiquant::account::Account;
use hiquant::enums::{Direction, Offset, OrderSide, OrderStatus};
use hiquant::error::HiquantError;
use hiquant::order::OrderFactory;
use hiquant::position::Position;

const UNIT: i128 = 1_000_000;

#[test]
fn stock_buy_and_close() {
    let mut acc = Account::new_stock("acc1".to_string(), 100_000 * UNIT);
    let oid = acc.buy("000001", 100, 10_000_000).unwrap();
    acc.on_trade(&oid, 100, 10_000_000).unwrap();
    let pos = acc.position("000001").unwrap();
    assert_eq!(pos.volume_long(), 100);
    acc.update_market_data("000001", 11_000_000);
    let summary = acc.summary();
    assert!(summary.float_pnl > 90 * UNIT && summary.float_pnl < 110 * UNIT);
}

#[test]
fn insufficient_cash_rejected() {
    let mut acc = Account::new_stock("acc1".to_string(), 1_000 * UNIT);
    let r = acc.buy("000001", 10000, 100_000_000);
    assert!(r.is_err());
}

#[test]
fn cancel_releases_frozen() {
    let mut acc = Account::new_stock("acc1".to_string(), 100_000 * UNIT);
    let oid = acc.buy("000001", 100, 10_000_000).unwrap();
    // 100 * 10 plus the minimum fee of 5
    assert!(acc.frozen_cash() >= 1000 * UNIT);
    acc.cancel_order(&oid).unwrap();
    assert!(acc.frozen_cash() < 1);
}

#[test]
fn order_lifecycle() {
    let mut o = OrderFactory::create_stock_buy("acc", "000001", 100, 10_000_000);
    assert_eq!(o.status, OrderStatus::Pending);
    o.update(50, 10_000_000);
    assert_eq!(o.status, OrderStatus::PartialFilled);
    o.update(50, 10_500_000);
    assert_eq!(o.status, OrderStatus::Filled);
    assert_eq!(o.price_fill, 10_250_000);
}

#[test]
fn buy_then_close_profit() {
    let mut p = Position::new("000001".to_string());
    p.receive_deal("t1", Direction::Buy, Offset::Open, 100, 10_000_000, "2024-01-02".to_string());
    assert_eq!(p.volume_long(), 100);
    p.on_price_change(11_000_000, "2024-01-02".to_string());
    assert_eq!(p.float_profit(), 100 * UNIT);
    p.receive_deal("t2", Direction::Sell, Offset::Close, 100, 11_000_000, "2024-01-02".to_string());
    assert_eq!(p.volume_long(), 0);
}

#[test]
fn buy_freezes_value_plus_minimum_fee() {
    let mut acc = Account::new_stock("acc1".to_string(), 100_000 * UNIT);
    acc.buy("000001", 100, 10_000_000).unwrap();
    // 1000 of value; 0.03% of it is 0.3, below the minimum fee of 5
    assert_eq!(acc.frozen_cash(), 1005 * UNIT);
    assert_eq!(acc.available_cash(), (100_000 - 1005) * UNIT);
    assert_eq!(acc.cash(), 100_000 * UNIT);
}

#[test]
fn full_fill_pays_value_and_fee() {
    let mut acc = Account::new_stock("acc1".to_string(), 100_000 * UNIT);
    let oid = acc.buy("000001", 100, 10_000_000).unwrap();
    acc.on_trade(&oid, 100, 10_000_000).unwrap();
    assert_eq!(acc.frozen_cash(), 0);
    assert_eq!(acc.cash(), (100_000 - 1005) * UNIT);
    assert_eq!(acc.commission_total(), 5 * UNIT);
    let o = acc.order(&oid).unwrap();
    assert_eq!(o.status, OrderStatus::Filled);
}

#[test]
fn sell_then_close_realizes_profit_and_tax() {
    let mut acc = Account::new_stock("acc1".to_string(), 100_000 * UNIT);
    let b = acc.buy("000001", 1000, 10_000_000).unwrap();
    acc.on_trade(&b, 1000, 10_000_000).unwrap();
    // today's volume is not sellable until it is held frozen for the order
    let s = acc.sell("000001", 1000, 11_000_000).unwrap();
    acc.on_trade(&s, 1000, 11_000_000).unwrap();
    // profit 1000 * (11 - 10) = 1000
    assert_eq!(acc.close_pnl(), 1000 * UNIT);
    // stamp tax 0.1% of 11000 = 11
    let pos = acc.position("000001").unwrap();
    assert_eq!(pos.volume_long(), 0);
    assert!(!acc.has_position("000001"));
}

#[test]
fn sell_without_position_is_refused() {
    let mut acc = Account::new_stock("acc1".to_string(), 100_000 * UNIT);
    match acc.sell("000001", 100, 10_000_000) {
        Err(HiquantError::RiskCheck(m)) => {
            assert_eq!(m, "insufficient long position: avail 0 < need 100");
        }
        _ => panic!("expected a risk refusal"),
    }
}

#[test]
fn insufficient_cash_message() {
    let mut acc = Account::new_stock("acc1".to_string(), 1_000 * UNIT);
    match acc.buy("000001", 10000, 100_000_000) {
        Err(HiquantError::RiskCheck(m)) => {
            assert_eq!(m, "insufficient cash: available 1000.00 < need 1000300.00");
        }
        _ => panic!("expected a risk refusal"),
    }
}

#[test]
fn bad_volume_and_price_are_refused() {
    let mut acc = Account::new_stock("acc1".to_string(), 1_000 * UNIT);
    match acc.buy("000001", 0, 10_000_000) {
        Err(HiquantError::Order(m)) => assert_eq!(m, "volume must be positive"),
        _ => panic!("expected an order error"),
    }
    match acc.buy("000001", 10, -1) {
        Err(HiquantError::Order(m)) => assert_eq!(m, "price must be non-negative"),
        _ => panic!("expected an order error"),
    }
    match acc.buy("000001", 10, i64::MAX) {
        Err(HiquantError::InvalidArgument(m)) => assert_eq!(m, "value out of range"),
        _ => panic!("expected a range error"),
    }
}

#[test]
fn cancel_unknown_and_finished_orders() {
    let mut acc = Account::new_stock("acc1".to_string(), 100_000 * UNIT);
    match acc.cancel_order("nope") {
        Err(HiquantError::Order(m)) => assert_eq!(m, "order not found: nope"),
        _ => panic!("expected an order error"),
    }
    let oid = acc.buy("000001", 100, 10_000_000).unwrap();
    acc.on_trade(&oid, 100, 10_000_000).unwrap();
    match acc.cancel_order(&oid) {
        Err(HiquantError::Order(m)) => assert_eq!(m, "order cannot be cancelled: status Filled"),
        _ => panic!("expected an order error"),
    }
    match acc.on_trade(&oid, 1, 10_000_000) {
        Err(HiquantError::Order(m)) => assert_eq!(m, "order not active: status Filled"),
        _ => panic!("expected an order error"),
    }
}

#[test]
fn partial_fill_releases_share_of_frozen() {
    let mut acc = Account::new_stock("acc1".to_string(), 100_000 * UNIT);
    let oid = acc.buy("000001", 100, 10_000_000).unwrap();
    acc.on_trade(&oid, 40, 10_000_000).unwrap();
    // 40% of 1005 is released
    assert_eq!(acc.frozen_cash(), 603 * UNIT);
    assert_eq!(acc.pending_orders().len(), 1);
    assert_eq!(acc.filled_orders().len(), 0);
    acc.on_trade(&oid, 60, 10_000_000).unwrap();
    assert_eq!(acc.pending_orders().len(), 0);
    assert_eq!(acc.filled_orders().len(), 1);
}

#[test]
fn finishing_fill_releases_all_frozen() {
    let mut acc = Account::new_stock("acc1".to_string(), 100_000 * UNIT);
    let oid = acc.buy("000001", 100, 10_000_000).unwrap();
    acc.on_trade(&oid, 50, 10_000_000).unwrap();
    assert!(acc.on_trade(&oid, 50, 10_000_000).is_ok());
    assert_eq!(acc.order(&oid).unwrap().status, OrderStatus::Filled);
    assert_eq!(acc.frozen_cash(), 0);
    assert_eq!(acc.cash(), 98_990 * UNIT);
}

#[test]
fn daily_settle_moves_today_to_history() {
    let mut acc = Account::new_stock("acc1".to_string(), 100_000 * UNIT);
    let oid = acc.buy("000001", 100, 10_000_000).unwrap();
    acc.on_trade(&oid, 100, 10_000_000).unwrap();
    acc.daily_settle();
    let p = acc.position("000001").unwrap();
    assert_eq!(p.volume_long_today, 0);
    assert_eq!(p.volume_long_his, 100);
    assert_eq!(p.volume_long(), 100);
}

#[test]
fn short_open_freezes_margin() {
    let mut acc = Account::new_future("f1".to_string(), 1_000_000 * UNIT);
    // IF: multiplier 300, margin 12%; 1 lot at 4000 is 1.2 million of value
    acc.place_order(OrderSide::SellOpen, "IF2401", 1, 4_000_000_000).unwrap();
    assert_eq!(acc.frozen_cash(), 144_000 * UNIT);
}

#[test]
fn qifi_snapshot_lists_positions_and_orders() {
    let mut acc = Account::new_stock("acc1".to_string(), 100_000 * UNIT);
    let oid = acc.buy("000001", 100, 10_000_000).unwrap();
    acc.on_trade(&oid, 100, 10_000_000).unwrap();
    let q = acc.to_qifi();
    assert_eq!(q.account_cookie, "acc1");
    assert_eq!(q.source, "hiquant-rs");
    assert_eq!(q.positions.len(), 1);
    assert_eq!(q.orders.len(), 1);
    assert_eq!(q.accounts.static_balance, 100_000 * UNIT);
    assert_eq!(q.accounts.commission, 5 * UNIT);
    // balance = static - commission + position profit (0 at cost)
    assert_eq!(q.accounts.balance, (100_000 - 5) * UNIT);
}

#[test]
fn high_priced_buy_and_sell_are_accepted() {
    let mut acc = Account::new_stock("acc1".to_string(), 10_000_000 * UNIT);
    let price: i64 = 5_000_000 * 1_000_000;
    let oid = acc.buy("000001", 1, price).unwrap();
    acc.on_trade(&oid, 1, price).unwrap();
    assert_eq!(acc.position("000001").unwrap().volume_long(), 1);
    acc.daily_settle();
    assert!(acc.sell("000001", 1, price).is_ok());
}
