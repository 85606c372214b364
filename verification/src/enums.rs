//! Trading enumerations: direction, offset, order status, market type,
//! price type, account environment and bar frequency.

use vstd::prelude::*;
use crate::text::{eq_ignore_ascii_case, lower_eq};

verus! {

/// Buy or sell. Numerically `Buy` is 1 and `Sell` is -1.
#[derive(Debug, Clone, Copy, PartialEq, Eq, Hash, Structural)]
pub enum Direction {
    Buy,
    Sell,
}

impl Direction {
    /// The signed code of the direction: 1 for buy, -1 for sell.
    pub fn as_i8(self) -> (r: i8)
        ensures
            r == (if self is Buy { 1i8 } else { -1i8 }),
    {
        match self {
            Direction::Buy => 1,
            Direction::Sell => -1,
        }
    }

    pub fn is_buy(self) -> (r: bool)
        ensures
            r == (self is Buy),
    {
        match self {
            Direction::Buy => true,
            Direction::Sell => false,
        }
    }

    pub fn is_sell(self) -> (r: bool)
        ensures
            r == (self is Sell),
    {
        match self {
            Direction::Buy => false,
            Direction::Sell => true,
        }
    }

    pub open spec fn spec_opposite(self) -> Direction {
        match self {
            Direction::Buy => Direction::Sell,
            Direction::Sell => Direction::Buy,
        }
    }

    pub fn opposite(self) -> (r: Direction)
        ensures
            r == self.spec_opposite(),
            r != self,
    {
        match self {
            Direction::Buy => Direction::Sell,
            Direction::Sell => Direction::Buy,
        }
    }

    pub open spec fn spec_as_str(self) -> Seq<char> {
        if self is Buy { "buy"@ } else { "sell"@ }
    }

    pub fn as_str(self) -> (r: &'static str)
        ensures
            r@ == self.spec_as_str(),
    {
        match self {
            Direction::Buy => "buy",
            Direction::Sell => "sell",
        }
    }

    /// Parses a direction, ignoring ASCII case: "buy", "b", "1" or
    /// "sell", "s", "-1".
    pub open spec fn spec_from_str(s: Seq<char>) -> Option<Direction> {
        if lower_eq(s, "buy"@) || lower_eq(s, "b"@) || lower_eq(s, "1"@) {
            Some(Direction::Buy)
        } else if lower_eq(s, "sell"@) || lower_eq(s, "s"@) || lower_eq(s, "-1"@) {
            Some(Direction::Sell)
        } else {
            None
        }
    }

    pub fn from_str(s: &str) -> (r: Option<Direction>)
        ensures
            r == Self::spec_from_str(s@),
    {
        if eq_ignore_ascii_case(s, "buy") || eq_ignore_ascii_case(s, "b") || eq_ignore_ascii_case(
            s,
            "1",
        ) {
            Some(Direction::Buy)
        } else if eq_ignore_ascii_case(s, "sell") || eq_ignore_ascii_case(s, "s")
            || eq_ignore_ascii_case(s, "-1") {
            Some(Direction::Sell)
        } else {
            None
        }
    }
}

/// Opening or closing side of a trade.
#[derive(Debug, Clone, Copy, PartialEq, Eq, Hash, Structural)]
pub enum Offset {
    Open,
    Close,
    CloseToday,
    CloseYesterday,
}

impl Offset {
    pub open spec fn spec_as_str(self) -> Seq<char> {
        match self {
            Offset::Open => "open"@,
            Offset::Close => "close"@,
            Offset::CloseToday => "close_today"@,
            Offset::CloseYesterday => "close_yesterday"@,
        }
    }

    pub fn as_str(self) -> (r: &'static str)
        ensures
            r@ == self.spec_as_str(),
    {
        match self {
            Offset::Open => "open",
            Offset::Close => "close",
            Offset::CloseToday => "close_today",
            Offset::CloseYesterday => "close_yesterday",
        }
    }
}

/// Lifecycle state of an order.
#[derive(Debug, Clone, Copy, PartialEq, Eq, Hash, Structural)]
pub enum OrderStatus {
    Pending,
    PartialFilled,
    Filled,
    Cancelled,
    Rejected,
}

impl OrderStatus {
    pub open spec fn spec_is_finished(self) -> bool {
        self is Filled || self is Cancelled || self is Rejected
    }

    pub open spec fn spec_is_active(self) -> bool {
        self is Pending || self is PartialFilled
    }

    pub fn is_finished(self) -> (r: bool)
        ensures
            r == self.spec_is_finished(),
    {
        match self {
            OrderStatus::Filled | OrderStatus::Cancelled | OrderStatus::Rejected => true,
            _ => false,
        }
    }

    pub fn is_active(self) -> (r: bool)
        ensures
            r == self.spec_is_active(),
    {
        match self {
            OrderStatus::Pending | OrderStatus::PartialFilled => true,
            _ => false,
        }
    }

    /// The variant's name as `Debug` writes it.
    pub open spec fn spec_debug_name(self) -> Seq<char> {
        match self {
            OrderStatus::Pending => "Pending"@,
            OrderStatus::PartialFilled => "PartialFilled"@,
            OrderStatus::Filled => "Filled"@,
            OrderStatus::Cancelled => "Cancelled"@,
            OrderStatus::Rejected => "Rejected"@,
        }
    }

    pub fn debug_name(self) -> (r: &'static str)
        ensures
            r@ == self.spec_debug_name(),
    {
        match self {
            OrderStatus::Pending => "Pending",
            OrderStatus::PartialFilled => "PartialFilled",
            OrderStatus::Filled => "Filled",
            OrderStatus::Cancelled => "Cancelled",
            OrderStatus::Rejected => "Rejected",
        }
    }

    pub open spec fn spec_as_str(self) -> Seq<char> {
        match self {
            OrderStatus::Pending => "pending"@,
            OrderStatus::PartialFilled => "partial_filled"@,
            OrderStatus::Filled => "filled"@,
            OrderStatus::Cancelled => "cancelled"@,
            OrderStatus::Rejected => "rejected"@,
        }
    }

    pub fn as_str(self) -> (r: &'static str)
        ensures
            r@ == self.spec_as_str(),
    {
        match self {
            OrderStatus::Pending => "pending",
            OrderStatus::PartialFilled => "partial_filled",
            OrderStatus::Filled => "filled",
            OrderStatus::Cancelled => "cancelled",
            OrderStatus::Rejected => "rejected",
        }
    }
}

/// Long or short side of a position.
#[derive(Debug, Clone, Copy, PartialEq, Eq, Hash, Structural)]
pub enum PositionSide {
    Long,
    Short,
}

/// Kind of market an instrument trades in.
#[derive(Debug, Clone, Copy, PartialEq, Eq, Hash, Structural)]
pub enum MarketType {
    Stock,
    Future,
    Option,
    Forex,
    Fund,
    Bond,
    Index,
    Crypto,
}

impl MarketType {
    pub fn as_str(self) -> (r: &'static str)
        ensures
            r@ == (match self {
                MarketType::Stock => "stock"@,
                MarketType::Future => "future"@,
                MarketType::Option => "option"@,
                MarketType::Forex => "forex"@,
                MarketType::Fund => "fund"@,
                MarketType::Bond => "bond"@,
                MarketType::Index => "index"@,
                MarketType::Crypto => "crypto"@,
            }),
    {
        match self {
            MarketType::Stock => "stock",
            MarketType::Future => "future",
            MarketType::Option => "option",
            MarketType::Forex => "forex",
            MarketType::Fund => "fund",
            MarketType::Bond => "bond",
            MarketType::Index => "index",
            MarketType::Crypto => "crypto",
        }
    }
}

/// How an order is priced.
#[derive(Debug, Clone, Copy, PartialEq, Eq, Hash, Structural)]
pub enum PriceType {
    Limit,
    Market,
    Stop,
    StopLimit,
}

impl PriceType {
    /// The variant's name as `Debug` writes it.
    pub open spec fn spec_debug_name(self) -> Seq<char> {
        match self {
            PriceType::Limit => "Limit"@,
            PriceType::Market => "Market"@,
            PriceType::Stop => "Stop"@,
            PriceType::StopLimit => "StopLimit"@,
        }
    }

    pub fn debug_name(self) -> (r: &'static str)
        ensures
            r@ == self.spec_debug_name(),
    {
        match self {
            PriceType::Limit => "Limit",
            PriceType::Market => "Market",
            PriceType::Stop => "Stop",
            PriceType::StopLimit => "StopLimit",
        }
    }
}

/// Where an account runs: backtest, simulation or live trading.
#[derive(Debug, Clone, Copy, PartialEq, Eq, Hash, Structural)]
pub enum AccountEnvironment {
    Backtest,
    Sim,
    Real,
}

impl AccountEnvironment {
    pub fn as_str(self) -> (r: &'static str)
        ensures
            r@ == (match self {
                AccountEnvironment::Backtest => "backtest"@,
                AccountEnvironment::Sim => "sim"@,
                AccountEnvironment::Real => "real"@,
            }),
    {
        match self {
            AccountEnvironment::Backtest => "backtest",
            AccountEnvironment::Sim => "sim",
            AccountEnvironment::Real => "real",
        }
    }
}

/// Bar frequency.
#[derive(Debug, Clone, Copy, PartialEq, Eq, Hash, Structural)]
pub enum Frequency {
    Tick,
    Min1,
    Min5,
    Min15,
    Min60,
    Day,
    Week,
    Month,
}

impl Frequency {
    pub open spec fn spec_as_str(self) -> Seq<char> {
        match self {
            Frequency::Tick => "tick"@,
            Frequency::Min1 => "1min"@,
            Frequency::Min5 => "5min"@,
            Frequency::Min15 => "15min"@,
            Frequency::Min60 => "60min"@,
            Frequency::Day => "day"@,
            Frequency::Week => "week"@,
            Frequency::Month => "month"@,
        }
    }

    pub fn as_str(self) -> (r: &'static str)
        ensures
            r@ == self.spec_as_str(),
    {
        match self {
            Frequency::Tick => "tick",
            Frequency::Min1 => "1min",
            Frequency::Min5 => "5min",
            Frequency::Min15 => "15min",
            Frequency::Min60 => "60min",
            Frequency::Day => "day",
            Frequency::Week => "week",
            Frequency::Month => "month",
        }
    }

    /// Parses a frequency name, ignoring ASCII case.
    pub open spec fn spec_from_str(s: Seq<char>) -> Option<Frequency> {
        if lower_eq(s, "tick"@) {
            Some(Frequency::Tick)
        } else if lower_eq(s, "1min"@) || lower_eq(s, "min"@) || lower_eq(s, "1"@) {
            Some(Frequency::Min1)
        } else if lower_eq(s, "5min"@) {
            Some(Frequency::Min5)
        } else if lower_eq(s, "15min"@) {
            Some(Frequency::Min15)
        } else if lower_eq(s, "60min"@) || lower_eq(s, "hour"@) {
            Some(Frequency::Min60)
        } else if lower_eq(s, "day"@) || lower_eq(s, "d"@) {
            Some(Frequency::Day)
        } else if lower_eq(s, "week"@) || lower_eq(s, "w"@) {
            Some(Frequency::Week)
        } else if lower_eq(s, "month"@) || lower_eq(s, "m"@) {
            Some(Frequency::Month)
        } else {
            None
        }
    }

    pub fn from_str(s: &str) -> (r: Option<Frequency>)
        ensures
            r == Self::spec_from_str(s@),
    {
        if eq_ignore_ascii_case(s, "tick") {
            Some(Frequency::Tick)
        } else if eq_ignore_ascii_case(s, "1min") || eq_ignore_ascii_case(s, "min")
            || eq_ignore_ascii_case(s, "1") {
            Some(Frequency::Min1)
        } else if eq_ignore_ascii_case(s, "5min") {
            Some(Frequency::Min5)
        } else if eq_ignore_ascii_case(s, "15min") {
            Some(Frequency::Min15)
        } else if eq_ignore_ascii_case(s, "60min") || eq_ignore_ascii_case(s, "hour") {
            Some(Frequency::Min60)
        } else if eq_ignore_ascii_case(s, "day") || eq_ignore_ascii_case(s, "d") {
            Some(Frequency::Day)
        } else if eq_ignore_ascii_case(s, "week") || eq_ignore_ascii_case(s, "w") {
            Some(Frequency::Week)
        } else if eq_ignore_ascii_case(s, "month") || eq_ignore_ascii_case(s, "m") {
            Some(Frequency::Month)
        } else {
            None
        }
    }
}

/// Account kind.
#[derive(Debug, Clone, Copy, PartialEq, Eq, Structural)]
pub enum AccountType {
    Stock,
    Future,
    Forex,
}

/// Simplified order intent: stock buy/sell or futures open/close.
#[derive(Debug, Clone, Copy, PartialEq, Eq, Structural)]
pub enum OrderSide {
    /// Stock buy.
    Buy,
    /// Stock sell.
    Sell,
    /// Futures: open long.
    BuyOpen,
    /// Futures: open short.
    SellOpen,
    /// Futures: close long.
    SellClose,
    /// Futures: close short.
    BuyClose,
}

impl OrderSide {
    /// The direction and offset that an order of this side carries.
    pub open spec fn spec_direction_offset(self) -> (Direction, Offset) {
        match self {
            OrderSide::Buy => (Direction::Buy, Offset::Open),
            OrderSide::Sell => (Direction::Sell, Offset::Close),
            OrderSide::BuyOpen => (Direction::Buy, Offset::Open),
            OrderSide::SellOpen => (Direction::Sell, Offset::Open),
            OrderSide::SellClose => (Direction::Sell, Offset::Close),
            OrderSide::BuyClose => (Direction::Buy, Offset::Close),
        }
    }

    pub fn direction_offset(self) -> (r: (Direction, Offset))
        ensures
            r == self.spec_direction_offset(),
    {
        match self {
            OrderSide::Buy => (Direction::Buy, Offset::Open),
            OrderSide::Sell => (Direction::Sell, Offset::Close),
            OrderSide::BuyOpen => (Direction::Buy, Offset::Open),
            OrderSide::SellOpen => (Direction::Sell, Offset::Open),
            OrderSide::SellClose => (Direction::Sell, Offset::Close),
            OrderSide::BuyClose => (Direction::Buy, Offset::Close),
        }
    }
}

} // verus!
