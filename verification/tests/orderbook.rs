use hiquant::enums::Direction;
use hiquant::orderbook::{BookOrder, Orderbook};

fn order(id: &str, direction: Direction, price: i64, volume: i64) -> BookOrder {
    BookOrder { order_id: id.to_string(), direction, price, volume, timestamp: 0 }
}

#[test]
fn limit_order_matches_opposite_book() {
    let mut ob = Orderbook::new("000001".to_string());
    let asks = ob.add_order(order("s1", Direction::Sell, 10_000_000, 100));
    assert!(asks.is_empty());
    assert_eq!(ob.best_ask(), Some(10_000_000));
    let trades = ob.add_order(order("b1", Direction::Buy, 10_000_000, 50));
    assert_eq!(trades.len(), 1);
    assert_eq!(trades[0].volume, 50);
    assert_eq!(trades[0].price, 10_000_000);
    assert_eq!(ob.best_ask(), Some(10_000_000));
}

#[test]
fn price_priority() {
    let mut ob = Orderbook::new("000001".to_string());
    ob.add_order(order("s1", Direction::Sell, 10_000_000, 100));
    ob.add_order(order("s2", Direction::Sell, 9_900_000, 100));
    let trades = ob.add_order(order("b1", Direction::Buy, 0, 60));
    assert_eq!(trades.len(), 1);
    assert_eq!(trades[0].price, 9_900_000);
    assert_eq!(trades[0].volume, 60);
    assert_eq!(ob.best_ask(), Some(9_900_000));
}

#[test]
fn cancel_removes_from_book() {
    let mut ob = Orderbook::new("000001".to_string());
    ob.add_order(order("s1", Direction::Sell, 10_000_000, 100));
    assert!(ob.cancel("s1"));
    assert!(ob.best_ask().is_none());
}

#[test]
fn trade_ids_and_sides() {
    let mut ob = Orderbook::new("IF2306".to_string());
    ob.add_order(order("s1", Direction::Sell, 10_000_000, 30));
    ob.add_order(order("s2", Direction::Sell, 10_100_000, 30));
    let trades = ob.add_order(order("b1", Direction::Buy, 10_100_000, 50));
    assert_eq!(trades.len(), 2);
    assert_eq!(trades[0].trade_id, "TRD_IF2306_1");
    assert_eq!(trades[1].trade_id, "TRD_IF2306_2");
    assert_eq!(trades[0].bid_order_id, "b1");
    assert_eq!(trades[0].ask_order_id, "s1");
    assert_eq!(trades[1].price, 10_100_000);
    assert_eq!(trades[1].volume, 20);
    // 10 of s2 remain; the buy is fully filled and does not rest
    assert_eq!(ob.best_bid(), None);
    assert_eq!(ob.depth_asks(5), vec![(10_100_000, 10)]);
}

#[test]
fn limit_leftover_rests_and_market_leftover_is_dropped() {
    let mut ob = Orderbook::new("000001".to_string());
    ob.add_order(order("s1", Direction::Sell, 10_000_000, 40));
    let t = ob.add_order(order("b1", Direction::Buy, 10_050_000, 100));
    assert_eq!(t.len(), 1);
    assert_eq!(t[0].volume, 40);
    assert_eq!(ob.best_bid(), Some(10_050_000));
    assert_eq!(ob.depth_bids(3), vec![(10_050_000, 60)]);
    // market sell larger than the bid book: the rest vanishes
    let t = ob.add_order(order("s2", Direction::Sell, 0, 100));
    assert_eq!(t.len(), 1);
    assert_eq!(t[0].volume, 60);
    assert_eq!(t[0].bid_order_id, "b1");
    assert_eq!(ob.best_bid(), None);
    assert_eq!(ob.best_ask(), None);
}

#[test]
fn spread_mid_and_depth_levels() {
    let mut ob = Orderbook::new("000001".to_string());
    ob.add_order(order("b1", Direction::Buy, 9_990_000, 10));
    ob.add_order(order("b2", Direction::Buy, 9_990_000, 5));
    ob.add_order(order("b3", Direction::Buy, 9_980_000, 7));
    ob.add_order(order("s1", Direction::Sell, 10_010_000, 3));
    assert_eq!(ob.spread(), Some(20_000));
    assert_eq!(ob.mid_price(), Some(10_000_000));
    assert_eq!(ob.depth_bids(1), vec![(9_990_000, 15)]);
    assert_eq!(ob.depth_bids(5), vec![(9_990_000, 15), (9_980_000, 7)]);
    // the earlier order at a price trades first
    let t = ob.add_order(order("s2", Direction::Sell, 9_990_000, 12));
    assert_eq!(t.len(), 2);
    assert_eq!(t[0].bid_order_id, "b1");
    assert_eq!(t[0].volume, 10);
    assert_eq!(t[1].bid_order_id, "b2");
    assert_eq!(t[1].volume, 2);
}

#[test]
fn cancel_twice_and_unknown() {
    let mut ob = Orderbook::new("000001".to_string());
    ob.add_order(order("b1", Direction::Buy, 9_000_000, 10));
    assert!(ob.cancel("b1"));
    assert!(!ob.cancel("b1"));
    assert!(!ob.cancel("nope"));
    assert_eq!(ob.best_bid(), None);
}

#[test]
fn time_priority_at_one_price() {
    let mut ob = Orderbook::new("000001".to_string());
    ob.add_order(order("s1", Direction::Sell, 10_000_000, 40));
    ob.add_order(order("s2", Direction::Sell, 10_000_000, 40));
    ob.add_order(order("s3", Direction::Sell, 9_900_000, 10));
    let trades = ob.add_order(order("b1", Direction::Buy, 10_000_000, 70));
    let makers: Vec<&str> = trades.iter().map(|t| t.ask_order_id.as_str()).collect();
    // best price first, then the earlier order at the same price
    assert_eq!(makers, vec!["s3", "s1", "s2"]);
    assert_eq!(trades[2].volume, 20);
    assert_eq!(ob.depth_asks(5), vec![(10_000_000, 20)]);
}

fn total(levels: &[(i64, i128)]) -> i128 {
    levels.iter().map(|l| l.1).sum()
}

#[test]
fn matching_moves_volume_between_sides() {
    let mut ob = Orderbook::new("000001".to_string());
    ob.add_order(order("s1", Direction::Sell, 10_000_000, 100));
    ob.add_order(order("s2", Direction::Sell, 10_100_000, 100));
    let before = total(&ob.depth_asks(10));
    let trades = ob.add_order(order("b1", Direction::Buy, 10_050_000, 150));
    let traded: i64 = trades.iter().map(|t| t.volume).sum();
    assert_eq!(traded, 100);
    assert_eq!(total(&ob.depth_asks(10)), before - 100);
    assert_eq!(total(&ob.depth_bids(10)), 50);
}
