//! Trading information records: orders, trades, positions and accounts
//! as a live trading system reports them. Rates are parts per million.

use vstd::prelude::*;
use crate::types::{Amount, Ppm, Price, Volume};

verus! {

#[derive(Debug, Clone, Default)]
pub struct Order {
    pub order_id: String,
    pub strategy_id: String,
    pub product_id: String,
    pub account_id: String,
    pub instrument_id: String,
    pub exchange_id: String,
    pub direction: String,
    pub offset: String,
    pub price_type: String,
    pub time_condition: String,
    pub price: Price,
    pub volume_orign: Volume,
    pub volume_traded: Volume,
    pub volume_left: Volume,
    pub avg_price: Price,
    pub status: String,
    pub error_code: i32,
    pub error_message: String,
    pub exchange_order_id: String,
    pub parent_order_id: String,
    pub order_time: String,
    pub trade_time: String,
}

#[derive(Debug, Clone, Default)]
pub struct Trade {
    pub trade_id: String,
    pub order_id: String,
    pub account_id: String,
    pub instrument_id: String,
    pub exchange_id: String,
    pub price: Price,
    pub volume: Volume,
    pub direction: String,
    pub offset: String,
    pub commission: Amount,
    pub trade_time: String,
}

#[derive(Debug, Clone, Default)]
pub struct Position {
    pub instrument_id: String,
    pub exchange_id: String,
    pub direction: String,
    pub long_position_today: Volume,
    pub long_position_yesterday: Volume,
    pub short_position_today: Volume,
    pub short_position_yesterday: Volume,
    pub avg_price: Price,
    pub pre_settle: Price,
    pub settle: Price,
    pub position_pnl: Amount,
    pub close_pnl: Amount,
    pub realized_pnl: Amount,
    pub unrealized_pnl: Amount,
    pub margin: Amount,
    pub margin_ratio: Ppm,
}

#[derive(Debug, Clone, Default)]
pub struct Account {
    pub account_id: String,
    pub total_asset: Amount,
    pub available_cash: Amount,
    pub frozen_cash: Amount,
    pub position_value: Amount,
    pub realized_pnl: Amount,
    pub unrealized_pnl: Amount,
    pub margin: Amount,
    pub risk_ratio: Ppm,
}

} // verus!
