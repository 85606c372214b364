use hiquant::bar::Bar;
use hiquant::date::Date;
use hiquant::enums::Frequency;
use hiquant::mifi::{Kline, Tick as MifiTick};
use hiquant::tick::Tick;

const U: i64 = 1_000_000;

#[test]
fn kline_from_bar_and_back() {
    let mut b = Bar::new("000001".to_string(), Frequency::Day, "2024-01-02".to_string());
    b.trading_date = Some(Date::from_ymd(2024, 1, 2));
    b.open = 10 * U;
    b.high = 11 * U;
    b.low = 9 * U;
    b.close = 10_500_000;
    b.volume = 1000;
    b.amount = 10_250_000_000;
    let k = Kline::from_bar(b);
    assert_eq!(k.instrument_id, "000001");
    assert_eq!(k.trading_date, "2024-01-02");
    // 10250 money over 1000 shares: 10.25 a share
    assert_eq!(k.avg_price, 10_250_000);
    assert_eq!(k.settle_price, 0);
    let back = Bar::from_kline(k);
    assert_eq!(back.frequency, Frequency::Day);
    assert_eq!(back.trading_date, Some(Date::from_ymd(2024, 1, 2)));
    assert_eq!(back.close, 10_500_000);
    assert_eq!(back.split_coefficient_to, 1_000_000);
}

#[test]
fn kline_without_volume_averages_to_close() {
    let mut b = Bar::new("000001".to_string(), Frequency::Day, "2024-01-02".to_string());
    b.close = 7 * U;
    let k = Kline::from_bar(b);
    assert_eq!(k.avg_price, 7 * U);
    assert_eq!(k.trading_date, "");
    let back = Bar::from_kline(k);
    assert!(back.trading_date.is_none());
}

#[test]
fn kline_limits() {
    let mut k = Kline::default();
    k.close = 11 * U;
    k.limit_up = 11 * U;
    assert!(k.is_limit_up());
    assert!(!k.is_limit_down());
}

#[test]
fn tick_levels() {
    let mut t = MifiTick::default();
    assert_eq!(t.bid1(), None);
    assert_eq!(t.spread(), None);
    t.bid_prices = vec![10 * U, 9 * U];
    t.bid_volumes = vec![100, 200];
    t.ask_prices = vec![10_010_000];
    t.ask_volumes = vec![300];
    assert_eq!(t.bid1(), Some((10 * U, 100)));
    assert_eq!(t.ask1(), Some((10_010_000, 300)));
    assert_eq!(t.spread(), Some(10_000));
    assert_eq!(t.mid_price(), Some(10_005_000));
    t.ask_prices = vec![10_000_001];
    // half a micro-unit is truncated
    assert_eq!(t.mid_price(), Some(10_000_000));
}

#[test]
fn data_tick() {
    let mut t = Tick::new("000001".to_string(), "2024-01-02 09:30:00".to_string(), 10 * U);
    assert_eq!(t.last_price, 10 * U);
    assert_eq!(t.bid1(), None);
    assert_eq!(t.mid_price(), None);
    t.bid_prices = vec![9 * U];
    t.bid_volumes = vec![1];
    t.ask_prices = vec![11 * U];
    t.ask_volumes = vec![2];
    assert_eq!(t.mid_price(), Some(10 * U));
    let m = t.to_mifi();
    assert_eq!(m.instrument_id, "000001");
    assert_eq!(m.trade_count, 0);
    assert_eq!(m.ask1(), Some((11 * U, 2)));
}
