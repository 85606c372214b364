use hiquant::enums::{
    AccountEnvironment, Direction, Frequency, MarketType, Offset, OrderSide, OrderStatus,
};

#[test]
fn direction_codes_and_names() {
    assert_eq!(Direction::Buy.as_i8(), 1);
    assert_eq!(Direction::Sell.as_i8(), -1);
    assert!(Direction::Buy.is_buy());
    assert!(Direction::Sell.is_sell());
    assert_eq!(Direction::Buy.opposite(), Direction::Sell);
    assert_eq!(Direction::Sell.opposite(), Direction::Buy);
    assert_eq!(Direction::Buy.as_str(), "buy");
    assert_eq!(Direction::Sell.as_str(), "sell");
}

#[test]
fn direction_parsing_ignores_case() {
    assert_eq!(Direction::from_str("BUY"), Some(Direction::Buy));
    assert_eq!(Direction::from_str("b"), Some(Direction::Buy));
    assert_eq!(Direction::from_str("1"), Some(Direction::Buy));
    assert_eq!(Direction::from_str("Sell"), Some(Direction::Sell));
    assert_eq!(Direction::from_str("S"), Some(Direction::Sell));
    assert_eq!(Direction::from_str("-1"), Some(Direction::Sell));
    assert_eq!(Direction::from_str("hold"), None);
    assert_eq!(Direction::from_str(""), None);
}

#[test]
fn status_and_names() {
    assert!(OrderStatus::Pending.is_active());
    assert!(OrderStatus::PartialFilled.is_active());
    assert!(OrderStatus::Filled.is_finished());
    assert!(OrderStatus::Cancelled.is_finished());
    assert!(OrderStatus::Rejected.is_finished());
    assert!(!OrderStatus::Pending.is_finished());
    assert_eq!(OrderStatus::PartialFilled.as_str(), "partial_filled");
    assert_eq!(Offset::CloseYesterday.as_str(), "close_yesterday");
    assert_eq!(MarketType::Crypto.as_str(), "crypto");
    assert_eq!(AccountEnvironment::Sim.as_str(), "sim");
}

#[test]
fn frequency_round_trip() {
    for f in [
        Frequency::Tick,
        Frequency::Min1,
        Frequency::Min5,
        Frequency::Min15,
        Frequency::Min60,
        Frequency::Day,
        Frequency::Week,
        Frequency::Month,
    ] {
        assert_eq!(Frequency::from_str(f.as_str()), Some(f));
    }
    assert_eq!(Frequency::from_str("HOUR"), Some(Frequency::Min60));
    assert_eq!(Frequency::from_str("m"), Some(Frequency::Month));
    assert_eq!(Frequency::from_str("2min"), None);
}

#[test]
fn order_side_mapping() {
    assert_eq!(OrderSide::Sell.direction_offset(), (Direction::Sell, Offset::Close));
    assert_eq!(OrderSide::SellOpen.direction_offset(), (Direction::Sell, Offset::Open));
    assert_eq!(OrderSide::BuyClose.direction_offset(), (Direction::Buy, Offset::Close));
}
