//! Personal quantitative-trading core: order book matching, orders,
//! positions, accounts, the market system, a simulated broker, bar replay
//! backtesting, the trading calendar and market-data records, all with
//! fixed-point prices.

pub mod text;
pub mod enums;
pub mod types;
pub mod orderbook;
pub mod urlencoding;
pub mod strmap;
pub mod preset;
pub mod ids;
pub mod order;
pub mod position;
pub mod error;
pub mod account;
pub mod qifi;
pub mod date;
pub mod market_system;
pub mod broker;
pub mod mock;
pub mod bar;
pub mod engine;
pub mod calendar;
pub mod mifi;
pub mod tick;
pub mod source;
pub mod store;
pub mod api;
pub mod tifi;
pub mod session;
