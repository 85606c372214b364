use hiquant::enums::{Direction, Offset};
use hiquant::position::Position;
use hiquant::qifi::{Account as QifiAccount, Qifi};

const U: i64 = 1_000_000;

fn long_position() -> Position {
    let mut p = Position::new("000001".to_string());
    assert!(p.deal_fits(Direction::Buy, Offset::Open, 300, 10 * U));
    p.receive_deal("t1", Direction::Buy, Offset::Open, 300, 10 * U, "2024-01-02".to_string());
    p.daily_settle();
    p.receive_deal("t2", Direction::Buy, Offset::Open, 100, 10 * U, "2024-01-03".to_string());
    p
}

#[test]
fn settle_keeps_holdings() {
    let mut p = long_position();
    assert_eq!(p.volume_long(), 400);
    assert_eq!(p.volume_long_today, 100);
    let avail = p.volume_long_avaliable();
    p.daily_settle();
    assert_eq!(p.volume_long(), 400);
    assert_eq!(p.volume_long_today, 0);
    assert_eq!(p.volume_long_his, 400);
    assert_eq!(p.volume_long_avaliable(), avail);
}

#[test]
fn unfreeze_undoes_freeze() {
    let mut p = long_position();
    let avail = p.volume_long_avaliable();
    assert!(p.freeze_fits(Direction::Sell, 250));
    assert!(p.freeze_position(Direction::Sell, 250));
    // today's volume is frozen first
    assert_eq!(p.volume_long_frozen_today, 100);
    assert_eq!(p.volume_long_frozen_his, 150);
    assert_eq!(p.volume_long_avaliable(), avail - 250);
    assert!(p.unfreeze_fits(Direction::Sell, 250));
    p.unfreeze_position(Direction::Sell, 250);
    assert_eq!(p.volume_long_avaliable(), avail);
    assert_eq!(p.volume_long_frozen_today + p.volume_long_frozen_his, 0);
}

#[test]
fn freeze_beyond_available_changes_nothing() {
    let mut p = long_position();
    assert!(!p.freeze_position(Direction::Sell, 401));
    assert_eq!(p.volume_long_frozen_today + p.volume_long_frozen_his, 0);
    assert!(!p.freeze_position(Direction::Buy, 1));
}

#[test]
fn prices_and_values() {
    let mut p = long_position();
    p.on_price_change(11 * U, "2024-01-03 15:00".to_string());
    assert_eq!(p.market_value(), (400 * 11 * U) as i128);
    assert_eq!(p.float_profit(), (400 * U) as i128);
    assert_eq!(p.avg_price_long(), (10 * U) as i128);
    assert!(!p.is_empty());
}

#[test]
fn qifi_derived_values() {
    let mut q = Qifi::new("acc".to_string(), 1000 * U as i128);
    let mut a = QifiAccount::new_zero();
    a.static_balance = 1000;
    a.deposit = 100;
    a.withdraw = 50;
    a.close_profit = 20;
    a.commission = 5;
    a.tax = 1;
    a.position_profit = 30;
    a.margin = 200;
    a.frozen_margin = 10;
    q.accounts = a;
    q.calculate_derived_values();
    assert_eq!(q.accounts.balance, 1094);
    assert_eq!(q.accounts.available, 884);
    assert_eq!(q.account_cookie, "acc");
}

#[test]
fn close_undoes_open() {
    let mut p = long_position();
    let (t, h) = (p.volume_long_today, p.volume_long_his);
    p.receive_deal("t3", Direction::Buy, Offset::Open, 50, 11 * U, "2024-01-04".to_string());
    assert_eq!(p.volume_long_today, t + 50);
    assert!(p.deal_fits(Direction::Sell, Offset::Close, 50, 12 * U));
    p.receive_deal("t4", Direction::Sell, Offset::Close, 50, 12 * U, "2024-01-04".to_string());
    assert_eq!((p.volume_long_today, p.volume_long_his), (t, h));
}

#[test]
fn position_price_is_weighted_over_whole_long_side() {
    let mut p = Position::new("000001".to_string());
    p.receive_deal("a", Direction::Buy, Offset::Open, 100, 10 * U, "d".to_string());
    p.daily_settle();
    p.receive_deal("b", Direction::Buy, Offset::Open, 50, 10 * U, "d".to_string());
    assert_eq!(p.volume_long(), 150);
    assert_eq!(p.position_cost_long, (1500 * U) as i128);
    assert_eq!(p.position_price_long, 10 * U);
}

#[test]
fn float_profit_measured_against_open_cost() {
    let mut p = Position::new("000001".to_string());
    p.receive_deal("a", Direction::Buy, Offset::Open, 100, 10 * U, "d".to_string());
    p.receive_deal("b", Direction::Buy, Offset::Open, 100, 12 * U, "d".to_string());
    p.on_price_change(12 * U, "d".to_string());
    assert_eq!(p.open_cost_long, (2200 * U) as i128);
    assert_eq!(p.float_profit(), (200 * U) as i128);
}
