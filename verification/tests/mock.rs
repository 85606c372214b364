use hiquant::broker::{BrokerOrder, MiniQmtConfig};
use hiquant::error::HiquantError;
use hiquant::mock::{MockBroker, MockConfig};
use hiquant::strmap::StrMap;

const UNIT: i128 = 1_000_000;

fn broker_with_quote() -> MockBroker {
    let mut quotes = StrMap::new();
    quotes.insert("000001".to_string(), 10_000_000);
    MockBroker::new(MockConfig { account_id: "m".to_string(), init_cash: 100_000 * UNIT, quotes })
}

#[test]
fn mock_buy_sell() {
    let mut broker = broker_with_quote();
    // buy 100 at 10
    let r = broker.place_order(BrokerOrder::buy("000001", 100, 10_000_000)).unwrap();
    assert!(r.accepted);
    // the price rises to 11
    broker.set_price("000001", 11_000_000);
    let acc = broker.query_account();
    assert!(acc.balance > 100_000 * UNIT);
    // sell 100 at 11
    let r = broker.place_order(BrokerOrder::sell("000001", 100, 11_000_000)).unwrap();
    assert!(r.accepted);
    let pos = broker.query_positions();
    assert!(pos.is_empty());
}

#[test]
fn market_order_fills_at_quote() {
    let mut broker = broker_with_quote();
    let r = broker.place_order(BrokerOrder::buy("000001", 10, 0)).unwrap();
    assert!(r.accepted);
    assert_eq!(r.broker_order_id, "MKT_0");
    assert_eq!(r.message, "filled");
    let trades = broker.query_trades();
    assert_eq!(trades.len(), 1);
    assert_eq!(trades[0].price, 10_000_000);
    assert_eq!(trades[0].trade_id, "TRD_0");
    assert_eq!(trades[0].direction, "buy");
    assert_eq!(broker.query_account().available, 100_000 * UNIT - 100 * UNIT);
}

#[test]
fn market_order_without_quote_is_an_error() {
    let mut broker = broker_with_quote();
    match broker.place_order(BrokerOrder::buy("600000", 10, 0)) {
        Err(HiquantError::Broker(m)) => assert_eq!(m, "no quote for 600000 cannot fill market order"),
        _ => panic!("expected a broker error"),
    }
    match broker.query_quote("600000") {
        Err(HiquantError::Broker(m)) => assert_eq!(m, "no quote for 600000"),
        _ => panic!("expected a broker error"),
    }
}

#[test]
fn sell_beyond_holding_is_refused() {
    let mut broker = broker_with_quote();
    let r = broker.place_order(BrokerOrder::sell("000001", 10, 10_000_000)).unwrap();
    assert!(!r.accepted);
    assert_eq!(r.message, "insufficient long position");
    assert_eq!(r.broker_order_id, "");
    // the refused attempt still used a sequence number
    let r = broker.place_order(BrokerOrder::buy("000001", 10, 10_000_000)).unwrap();
    assert_eq!(r.broker_order_id, "MKT_1");
}

#[test]
fn average_price_is_volume_weighted() {
    let mut broker = broker_with_quote();
    broker.place_order(BrokerOrder::buy("000001", 100, 10_000_000)).unwrap();
    broker.place_order(BrokerOrder::buy("000001", 100, 11_000_000)).unwrap();
    let pos = broker.query_positions();
    assert_eq!(pos.len(), 1);
    assert_eq!(pos[0].volume_long, 200);
    assert_eq!(pos[0].price_long, 10_500_000);
    assert_eq!(pos[0].market_value, 200 * 10_000_000);
    assert_eq!(pos[0].float_pnl, -500_000 * 200);
}

#[test]
fn quotes_cancel_and_name() {
    let broker = broker_with_quote();
    let q = broker.query_quote("000001").unwrap();
    assert_eq!(q.last_price, 10_000_000);
    assert_eq!(q.bid_price, 10_000_000);
    assert!(!broker.cancel_order("MKT_0").unwrap());
    assert!(broker.is_connected());
    assert_eq!(broker.name(), "mock");
    let d: MockConfig = Default::default();
    assert_eq!(d.account_id, "mock");
    assert_eq!(d.init_cash, 1_000_000 * UNIT);
    let c: MiniQmtConfig = Default::default();
    assert_eq!(c.base_url, "http://127.0.0.1:7788");
    assert_eq!(c.timeout_secs, 10);
    let o = BrokerOrder::buy("000001", 1, 0);
    assert_eq!(o.price_type, "market");
    assert!(o.client_order_id.starts_with("C_"));
}

#[test]
fn round_trip_at_one_price_restores_cash() {
    let mut broker = broker_with_quote();
    let before = broker.query_account();
    broker.place_order(BrokerOrder::buy("000001", 300, 10_500_000)).unwrap();
    let mid = broker.query_account();
    assert_eq!(mid.available, before.available - 300 * 10_500_000);
    broker.place_order(BrokerOrder::sell("000001", 300, 10_500_000)).unwrap();
    let after = broker.query_account();
    assert_eq!(after.available, before.available);
    assert!(broker.query_positions().is_empty());
}
