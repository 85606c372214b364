//! Broker requests and replies, shared by the simulated broker and the
//! live bridge.

use vstd::prelude::*;
use crate::enums::Direction;
use crate::ids::{generate_time_based_id, time_id_text};
use crate::text::{push_str_chars, string_from_chars};
use crate::types::{Amount, Price, Volume};
use vstd::string::StringSliceAdditionalSpecFns;
use crate::urlencoding::{encode_value, url_encode};

verus! {

/// An order request to a broker.
#[derive(Debug)]
pub struct BrokerOrder {
    pub client_order_id: String,
    pub code: String,
    pub direction: Direction,
    pub volume: Volume,
    pub price: Price,
    /// "limit" or "market".
    pub price_type: String,
}

/// The price type a price implies: a positive price is a limit.
pub open spec fn price_type_of(price: int) -> Seq<char> {
    if price > 0 { "limit"@ } else { "market"@ }
}

impl BrokerOrder {
    /// A buy request with a client id `C_{nanos}` from the clock.
    pub fn buy(code: &str, volume: Volume, price: Price) -> (r: BrokerOrder)
        ensures
            exists|nanos: i64| r.client_order_id@ == time_id_text("C"@, nanos),
            r.code@ == code@,
            r.direction == Direction::Buy,
            r.volume == volume,
            r.price == price,
            r.price_type@ == price_type_of(price as int),
    {
        BrokerOrder {
            client_order_id: generate_time_based_id("C"),
            code: String::from_str(code),
            direction: Direction::Buy,
            volume,
            price,
            price_type: String::from_str(if price > 0 { "limit" } else { "market" }),
        }
    }

    /// A sell request with a client id `C_{nanos}` from the clock.
    pub fn sell(code: &str, volume: Volume, price: Price) -> (r: BrokerOrder)
        ensures
            exists|nanos: i64| r.client_order_id@ == time_id_text("C"@, nanos),
            r.code@ == code@,
            r.direction == Direction::Sell,
            r.volume == volume,
            r.price == price,
            r.price_type@ == price_type_of(price as int),
    {
        BrokerOrder {
            client_order_id: generate_time_based_id("C"),
            code: String::from_str(code),
            direction: Direction::Sell,
            volume,
            price,
            price_type: String::from_str(if price > 0 { "limit" } else { "market" }),
        }
    }
}

/// A position as a broker reports it.
#[derive(Debug, Default)]
pub struct BrokerPosition {
    pub code: String,
    pub volume_long: Volume,
    pub volume_short: Volume,
    pub price_long: Price,
    pub price_short: Price,
    pub market_value: Amount,
    pub float_pnl: Amount,
}

/// Money figures as a broker reports them.
#[derive(Debug, Default)]
pub struct BrokerAccount {
    pub account_id: String,
    pub balance: Amount,
    pub available: Amount,
    pub margin: Amount,
    pub frozen_margin: Amount,
}

/// A price snapshot.
#[derive(Debug, Default)]
pub struct BrokerQuote {
    pub code: String,
    pub last_price: Price,
    pub bid_price: Price,
    pub ask_price: Price,
    pub timestamp: String,
}

/// A broker's reply to an order.
#[derive(Debug)]
pub struct OrderResponse {
    pub client_order_id: String,
    pub broker_order_id: String,
    pub accepted: bool,
    pub message: String,
}

/// Where the live bridge's sidecar listens, and for which account.
#[derive(Debug)]
pub struct MiniQmtConfig {
    /// The sidecar's HTTP base address.
    pub base_url: String,
    /// Request timeout in seconds.
    pub timeout_secs: u64,
    pub account_id: String,
}

impl Default for MiniQmtConfig {
    /// The sidecar on the local machine, port 7788, ten seconds.
    fn default() -> (r: Self)
        ensures
            r.base_url@ == "http://127.0.0.1:7788"@,
            r.timeout_secs == 10,
            r.account_id@.len() == 0,
    {
        MiniQmtConfig {
            base_url: String::from_str("http://127.0.0.1:7788"),
            timeout_secs: 10,
            account_id: String::new(),
        }
    }
}

/// The text without its trailing slashes.
pub open spec fn without_trailing_slashes(s: Seq<char>) -> Seq<char>
    decreases s.len(),
{
    if s.len() > 0 && s.last() == '/' {
        without_trailing_slashes(s.drop_last())
    } else {
        s
    }
}

impl MiniQmtConfig {
    /// The address of a sidecar endpoint: the base address without its
    /// trailing slashes, then the path.
    pub fn url(&self, path: &str) -> (r: String)
        ensures
            r@ == without_trailing_slashes(self.base_url@) + path@,
    {
        let base = self.base_url.as_str();
        let n: usize = base.unicode_len();
        let mut k: usize = n;
        assert(base@.subrange(0, n as int) =~= base@);
        while k > 0 && base.get_char(k - 1) == '/'
            invariant
                k <= n,
                n == base@.len(),
                without_trailing_slashes(base@) == without_trailing_slashes(base@.subrange(0, k as int)),
            decreases k,
        {
            assert(base@.subrange(0, k as int).drop_last() =~= base@.subrange(0, k - 1));
            k = k - 1;
        }
        let mut v: Vec<char> = Vec::new();
        let mut i: usize = 0;
        while i < k
            invariant
                k <= n,
                n == base@.len(),
                i <= k,
                v@ == base@.subrange(0, i as int),
            decreases k - i,
        {
            let c = base.get_char(i);
            v.push(c);
            assert(base@.subrange(0, i + 1) =~= base@.subrange(0, i as int).push(c));
            i = i + 1;
        }
        push_str_chars(&mut v, path);
        string_from_chars(v)
    }
}

/// The sidecar path of a quote request: `/quote?code=` and the encoded
/// code.
pub fn quote_path(code: &str) -> (r: String)
    ensures
        r@ == "/quote?code="@ + url_encode(code.spec_bytes()),
{
    let enc = encode_value(code);
    let mut v: Vec<char> = Vec::new();
    push_str_chars(&mut v, "/quote?code=");
    push_str_chars(&mut v, enc.as_str());
    string_from_chars(v)
}

} // verus!
