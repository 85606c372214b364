//! Order-book snapshots as the data layer keeps them.

use vstd::prelude::*;
use crate::mifi::{best_level, first_level, mid_of, mid_of_levels};
use crate::mifi;
use crate::types::{Amount, Price, Volume};

verus! {

#[derive(Debug, Clone, Default)]
pub struct Tick {
    pub instrument_id: String,
    pub exchange_id: String,
    pub datetime: String,
    pub last_price: Price,
    pub pre_close: Price,
    pub open: Price,
    pub high: Price,
    pub low: Price,
    pub volume: Volume,
    pub amount: Amount,
    pub bid_prices: Vec<Price>,
    pub bid_volumes: Vec<Volume>,
    pub ask_prices: Vec<Price>,
    pub ask_volumes: Vec<Volume>,
    pub open_interest: Volume,
    pub limit_up: Price,
    pub limit_down: Price,
}

impl Tick {
    /// A snapshot carrying only a last price; everything else is zero or
    /// empty.
    pub fn new(instrument_id: String, datetime: String, price: Price) -> (r: Tick)
        ensures
            r.instrument_id == instrument_id,
            r.datetime == datetime,
            r.last_price == price,
            r.exchange_id@.len() == 0,
            r.pre_close == 0 && r.open == 0 && r.high == 0 && r.low == 0,
            r.volume == 0 && r.amount == 0 && r.open_interest == 0,
            r.limit_up == 0 && r.limit_down == 0,
            r.bid_prices@.len() == 0 && r.bid_volumes@.len() == 0,
            r.ask_prices@.len() == 0 && r.ask_volumes@.len() == 0,
    {
        Tick {
            instrument_id,
            exchange_id: String::new(),
            datetime,
            last_price: price,
            pre_close: 0,
            open: 0,
            high: 0,
            low: 0,
            volume: 0,
            amount: 0,
            bid_prices: Vec::new(),
            bid_volumes: Vec::new(),
            ask_prices: Vec::new(),
            ask_volumes: Vec::new(),
            open_interest: 0,
            limit_up: 0,
            limit_down: 0,
        }
    }

    pub fn bid1(&self) -> (r: Option<(Price, Volume)>)
        ensures
            r == best_level(self.bid_prices@, self.bid_volumes@),
    {
        first_level(&self.bid_prices, &self.bid_volumes)
    }

    pub fn ask1(&self) -> (r: Option<(Price, Volume)>)
        ensures
            r == best_level(self.ask_prices@, self.ask_volumes@),
    {
        first_level(&self.ask_prices, &self.ask_volumes)
    }

    /// The middle of the best bid and ask, truncated toward zero.
    pub fn mid_price(&self) -> (r: Option<Price>)
        ensures
            match mid_of(best_level(self.bid_prices@, self.bid_volumes@), best_level(self.ask_prices@, self.ask_volumes@)) {
                Some(m) => r matches Some(x) && x == m,
                None => r is None,
            },
    {
        mid_of_levels(self.bid1(), self.ask1())
    }

    /// The same snapshot as a market-information record; the trade count
    /// and settlement prices are zero.
    pub fn to_mifi(self) -> (r: mifi::Tick)
        ensures
            r.instrument_id == self.instrument_id && r.exchange_id == self.exchange_id,
            r.datetime == self.datetime,
            r.last_price == self.last_price && r.pre_close == self.pre_close,
            r.open == self.open && r.high == self.high && r.low == self.low,
            r.volume == self.volume && r.amount == self.amount,
            r.trade_count == 0 && r.settle == 0 && r.pre_settle == 0,
            r.bid_prices@ == self.bid_prices@ && r.bid_volumes@ == self.bid_volumes@,
            r.ask_prices@ == self.ask_prices@ && r.ask_volumes@ == self.ask_volumes@,
            r.open_interest == self.open_interest,
            r.limit_up == self.limit_up && r.limit_down == self.limit_down,
    {
        mifi::Tick {
            instrument_id: self.instrument_id,
            exchange_id: self.exchange_id,
            datetime: self.datetime,
            last_price: self.last_price,
            pre_close: self.pre_close,
            open: self.open,
            high: self.high,
            low: self.low,
            volume: self.volume,
            amount: self.amount,
            trade_count: 0,
            bid_prices: self.bid_prices,
            bid_volumes: self.bid_volumes,
            ask_prices: self.ask_prices,
            ask_volumes: self.ask_volumes,
            settle: 0,
            pre_settle: 0,
            open_interest: self.open_interest,
            limit_up: self.limit_up,
            limit_down: self.limit_down,
        }
    }
}

} // verus!
