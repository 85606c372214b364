//! Market information records: candles, order-book snapshots, instrument
//! information, single trades, price levels and market status.

use vstd::prelude::*;
use crate::bar::Bar;
use crate::date::{date_text, parsed_as, Date};
use crate::enums::Frequency;
use crate::order::div_trunc;
use crate::types::{Amount, Ppm, Price, Volume};

verus! {

/// A candle.
#[derive(Debug, Clone, Default)]
pub struct Kline {
    pub instrument_id: String,
    pub exchange_id: String,
    pub datetime: String,
    /// `YYYY-MM-DD`, or empty when unknown.
    pub trading_date: String,
    pub open: Price,
    pub high: Price,
    pub low: Price,
    pub close: Price,
    pub pre_close: Price,
    pub settle_price: Price,
    pub pre_settle: Price,
    pub limit_up: Price,
    pub limit_down: Price,
    pub volume: Volume,
    pub amount: Amount,
    pub open_interest: Volume,
    pub pre_open_interest: Volume,
    pub trade_count: i64,
    pub avg_price: Price,
}

/// The average price of a candle: amount over volume when something
/// traded, else the close.
pub open spec fn kline_avg_price(amount: int, volume: int, close: int) -> int {
    if volume > 0 {
        div_trunc(amount, volume)
    } else {
        close
    }
}

/// The trading-date text of a candle made from a bar.
pub open spec fn trading_date_text(d: Option<Date>) -> Seq<char> {
    match d {
        Some(d) => date_text(d.y(), d.m(), d.d()),
        None => Seq::empty(),
    }
}

impl Kline {
    /// The close sits on a set upper limit.
    pub fn is_limit_up(&self) -> (r: bool)
        ensures
            r == (self.limit_up > 0 && self.close == self.limit_up),
    {
        self.limit_up > 0 && self.close == self.limit_up
    }

    /// The close sits on a set lower limit.
    pub fn is_limit_down(&self) -> (r: bool)
        ensures
            r == (self.limit_down > 0 && self.close == self.limit_down),
    {
        self.limit_down > 0 && self.close == self.limit_down
    }

    /// The candle of a bar; settlement figures, the previous open interest
    /// and the trade count are zero.
    pub fn from_bar(b: Bar) -> (r: Kline)
        requires
            b.volume > 0 ==> i64::MIN <= div_trunc(b.amount as int, b.volume as int) <= i64::MAX,
        ensures
            r.instrument_id == b.order_book_id,
            r.exchange_id == b.exchange_id,
            r.datetime == b.datetime,
            r.trading_date@ == trading_date_text(b.trading_date),
            r.open == b.open && r.high == b.high && r.low == b.low && r.close == b.close,
            r.pre_close == b.pre_close,
            r.settle_price == 0 && r.pre_settle == 0,
            r.limit_up == b.limit_up && r.limit_down == b.limit_down,
            r.volume == b.volume && r.amount == b.amount,
            r.open_interest == b.open_interest && r.pre_open_interest == 0,
            r.trade_count == 0,
            r.avg_price == kline_avg_price(b.amount as int, b.volume as int, b.close as int),
    {
        let trading_date = match b.trading_date {
            Some(d) => d.as_str(),
            None => String::new(),
        };
        let avg_price: Price = if b.volume > 0 {
            let q: i128 = b.amount / (b.volume as i128);
            proof {
                lemma_div_trunc_matches(b.amount as int, b.volume as int, q as int);
            }
            q as i64
        } else {
            b.close
        };
        Kline {
            instrument_id: b.order_book_id,
            exchange_id: b.exchange_id,
            datetime: b.datetime,
            trading_date,
            open: b.open,
            high: b.high,
            low: b.low,
            close: b.close,
            pre_close: b.pre_close,
            settle_price: 0,
            pre_settle: 0,
            limit_up: b.limit_up,
            limit_down: b.limit_down,
            volume: b.volume,
            amount: b.amount,
            open_interest: b.open_interest,
            pre_open_interest: 0,
            trade_count: 0,
            avg_price,
        }
    }
}

/// Rust's division of a positive divisor truncates toward zero.
proof fn lemma_div_trunc_matches(a: int, b: int, q: int)
    requires
        b > 0,
        q == (if a >= 0 { a / b } else { -((-a) / b) }),
    ensures
        q == div_trunc(a, b),
{
}

impl Bar {
    /// The daily bar of a candle: its trading date is read from the
    /// candle's text, the split coefficient is one and there is no
    /// dividend.
    pub fn from_kline(k: Kline) -> (r: Bar)
        ensures
            r.order_book_id == k.instrument_id,
            r.exchange_id == k.exchange_id,
            r.frequency == Frequency::Day,
            r.datetime == k.datetime,
            parsed_as(k.trading_date@, r.trading_date),
            r.open == k.open && r.high == k.high && r.low == k.low && r.close == k.close,
            r.volume == k.volume && r.amount == k.amount,
            r.limit_up == k.limit_up && r.limit_down == k.limit_down,
            r.pre_close == k.pre_close,
            r.open_interest == k.open_interest,
            r.split_coefficient_to == 1_000_000,
            r.dividend_cash_before_tax == 0,
    {
        let trading_date = Date::parse(k.trading_date.as_str());
        Bar {
            order_book_id: k.instrument_id,
            exchange_id: k.exchange_id,
            frequency: Frequency::Day,
            datetime: k.datetime,
            trading_date,
            open: k.open,
            high: k.high,
            low: k.low,
            close: k.close,
            volume: k.volume,
            amount: k.amount,
            limit_up: k.limit_up,
            limit_down: k.limit_down,
            pre_close: k.pre_close,
            open_interest: k.open_interest,
            split_coefficient_to: 1_000_000,
            dividend_cash_before_tax: 0,
        }
    }
}

/// The best level of one side of a book: its first price and first
/// volume, when both are there.
pub open spec fn best_level(prices: Seq<Price>, volumes: Seq<Volume>) -> Option<(Price, Volume)> {
    if prices.len() > 0 && volumes.len() > 0 {
        Some((prices[0], volumes[0]))
    } else {
        None
    }
}

pub fn first_level(prices: &Vec<Price>, volumes: &Vec<Volume>) -> (r: Option<(Price, Volume)>)
    ensures
        r == best_level(prices@, volumes@),
{
    if prices.len() > 0 && volumes.len() > 0 {
        Some((prices[0], volumes[0]))
    } else {
        None
    }
}

/// The middle of the best bid and ask, truncated toward zero.
pub open spec fn mid_of(bid: Option<(Price, Volume)>, ask: Option<(Price, Volume)>) -> Option<int> {
    match (bid, ask) {
        (Some(b), Some(a)) => Some(div_trunc(b.0 + a.0, 2)),
        _ => None,
    }
}

pub fn mid_of_levels(bid: Option<(Price, Volume)>, ask: Option<(Price, Volume)>) -> (r: Option<Price>)
    ensures
        match mid_of(bid, ask) {
            Some(m) => r matches Some(x) && x == m,
            None => r is None,
        },
{
    match (bid, ask) {
        (Some((b, _)), Some((a, _))) => {
            let s: i128 = (b as i128) + (a as i128);
            let q: i128 = s / 2;
            proof {
                lemma_div_trunc_matches(s as int, 2, q as int);
            }
            Some(q as i64)
        },
        _ => None,
    }
}

/// An order-book snapshot with up to ten levels a side.
#[derive(Debug, Clone, Default)]
pub struct Tick {
    pub instrument_id: String,
    pub exchange_id: String,
    pub datetime: String,
    pub last_price: Price,
    pub pre_close: Price,
    pub open: Price,
    pub high: Price,
    pub low: Price,
    pub volume: Volume,
    pub amount: Amount,
    pub trade_count: i64,
    pub bid_prices: Vec<Price>,
    pub bid_volumes: Vec<Volume>,
    pub ask_prices: Vec<Price>,
    pub ask_volumes: Vec<Volume>,
    pub settle: Price,
    pub pre_settle: Price,
    pub open_interest: Volume,
    pub limit_up: Price,
    pub limit_down: Price,
}

impl Tick {
    pub fn bid1(&self) -> (r: Option<(Price, Volume)>)
        ensures
            r == best_level(self.bid_prices@, self.bid_volumes@),
    {
        first_level(&self.bid_prices, &self.bid_volumes)
    }

    pub fn ask1(&self) -> (r: Option<(Price, Volume)>)
        ensures
            r == best_level(self.ask_prices@, self.ask_volumes@),
    {
        first_level(&self.ask_prices, &self.ask_volumes)
    }

    /// Best ask minus best bid, when both sides are there.
    pub fn spread(&self) -> (r: Option<Price>)
        requires
            (best_level(self.bid_prices@, self.bid_volumes@), best_level(self.ask_prices@, self.ask_volumes@)) matches (Some(b), Some(a))
                ==> i64::MIN <= a.0 - b.0 <= i64::MAX,
        ensures
            match (best_level(self.bid_prices@, self.bid_volumes@), best_level(self.ask_prices@, self.ask_volumes@)) {
                (Some(b), Some(a)) => r matches Some(x) && x == a.0 - b.0,
                _ => r is None,
            },
    {
        match (self.bid1(), self.ask1()) {
            (Some((bid, _)), Some((ask, _))) => Some(ask - bid),
            _ => None,
        }
    }

    /// The middle of the best bid and ask.
    pub fn mid_price(&self) -> (r: Option<Price>)
        ensures
            match mid_of(best_level(self.bid_prices@, self.bid_volumes@), best_level(self.ask_prices@, self.ask_volumes@)) {
                Some(m) => r matches Some(x) && x == m,
                None => r is None,
            },
    {
        mid_of_levels(self.bid1(), self.ask1())
    }
}

/// Contract information; rates are in parts per million.
#[derive(Debug, Clone, Default)]
pub struct InstrumentInfo {
    pub instrument_id: String,
    pub exchange_id: String,
    pub instrument_name: String,
    pub market_type: String,
    pub price_tick: Price,
    pub lot_size: Volume,
    pub multiplier: Volume,
    pub margin_rate: Ppm,
    pub commission_rate: Ppm,
    pub limit_up_rate: Ppm,
    pub limit_down_rate: Ppm,
    pub list_date: String,
    pub expire_date: String,
}

/// A single trade on the tape.
#[derive(Debug, Clone, Default)]
pub struct Transaction {
    pub instrument_id: String,
    pub exchange_id: String,
    pub datetime: String,
    pub price: Price,
    pub volume: Volume,
    pub direction: i32,
    pub trade_type: i32,
}

/// The queue at one price of a book.
#[derive(Debug, Clone, Copy, Default)]
pub struct PriceLevel {
    pub price: Price,
    pub volume: Volume,
    pub order_count: i32,
}

/// The trading status of an instrument.
#[derive(Debug, Clone, Default)]
pub struct MarketStatus {
    pub instrument_id: String,
    pub exchange_id: String,
    pub trading_status: String,
    pub datetime: String,
}

} // verus!
