//! A simulated broker kept in memory: every order fills at once, at its
//! limit price or at the latest quote.

use vstd::prelude::*;
use crate::account::acc_ok;
use crate::broker::{BrokerAccount, BrokerOrder, BrokerPosition, BrokerQuote, OrderResponse};
use crate::enums::Direction;
use crate::error::{ErrorKind, HiquantError};
use crate::ids::now_rfc3339;
use crate::order::{div_trunc, div_trunc_exec};
use crate::position::{price_ok, vol_ok, MAX_POSITIONS};
use crate::qifi::Trade;
use crate::strmap::{put_entry, StrMap};
use crate::text::{dec, push_dec, push_str_chars, string_from_chars};
use crate::types::{trade_in_range, Amount, Price, Volume, MAX_PRICE, MAX_VOLUME};

verus! {

/// The simulated broker's starting state.
pub struct MockConfig {
    pub account_id: String,
    pub init_cash: Amount,
    /// Latest prices by code, for market orders and valuation.
    pub quotes: StrMap<Price>,
}

impl Default for MockConfig {
    /// Account `mock` with one million in cash and no quotes.
    fn default() -> (r: Self)
        ensures
            r.account_id@ == "mock"@,
            r.init_cash == 1_000_000_000_000,
            r.quotes.wf(),
            r.quotes.map() == Map::<Seq<char>, Price>::empty(),
    {
        MockConfig { account_id: String::from_str("mock"), init_cash: 1_000_000_000_000, quotes: StrMap::new() }
    }
}

/// Holding of one code.
#[derive(Debug, Clone, Copy, Default, PartialEq, Eq, Structural)]
pub struct MockHolding {
    pub volume_long: Volume,
    pub volume_short: Volume,
    pub price_long: Price,
    pub price_short: Price,
}

pub open spec fn empty_holding() -> MockHolding {
    MockHolding { volume_long: 0, volume_short: 0, price_long: 0, price_short: 0 }
}

pub struct MockBroker {
    account_id: String,
    cash: Amount,
    frozen: Amount,
    positions: StrMap<MockHolding>,
    quotes: StrMap<Price>,
    trades: Vec<Trade>,
    seq: u64,
}

/// The mathematical state of the simulated broker.
#[verifier::ext_equal]
pub struct MockView {
    pub account_id: Seq<char>,
    pub cash: i128,
    pub frozen: i128,
    pub positions: Map<Seq<char>, MockHolding>,
    pub position_keys: Seq<Seq<char>>,
    pub position_list: Seq<MockHolding>,
    pub quotes: Map<Seq<char>, i64>,
    pub trades: Seq<Trade>,
    pub seq: u64,
}

impl View for MockBroker {
    type V = MockView;

    closed spec fn view(&self) -> MockView {
        MockView {
            account_id: self.account_id@,
            cash: self.cash,
            frozen: self.frozen,
            positions: self.positions.map(),
            position_keys: self.positions.key_seq(),
            position_list: self.positions.val_seq(),
            quotes: self.quotes.map(),
            trades: self.trades@,
            seq: self.seq,
        }
    }
}

/// `t` is the record of a fill numbered `seq`.
pub open spec fn is_fill_record(t: Trade, seq: u64, account: Seq<char>, code: Seq<char>, dir: Direction, price: int, volume: int) -> bool {
    &&& t.trade_id@ == "TRD_"@ + dec(seq as nat)
    &&& t.order_id@ == "MKT_"@ + dec(seq as nat)
    &&& t.account_id@ == account
    &&& t.instrument_id@ == code
    &&& t.direction@ == dir.spec_as_str()
    &&& t.price == price
    &&& t.volume == volume
    &&& t.user_id@.len() == 0
    &&& t.exchange_id@.len() == 0
    &&& t.offset@.len() == 0
    &&& t.commission == 0
    &&& t.tax == 0
}

impl MockView {
    /// The price an order fills at: its limit, or the latest quote.
    pub open spec fn fill_price(self, order: BrokerOrder) -> Option<int> {
        if order.price > 0 {
            Some(order.price as int)
        } else if self.quotes.contains_key(order.code@) {
            Some(self.quotes[order.code@] as int)
        } else {
            None
        }
    }

    pub open spec fn holding(self, code: Seq<char>) -> MockHolding {
        if self.positions.contains_key(code) { self.positions[code] } else { empty_holding() }
    }

    /// The holding after a fill: a buy adds long volume at the
    /// volume-weighted price (truncated), a sell removes long volume and
    /// forgets the price once nothing long is left.
    pub open spec fn holding_after(self, code: Seq<char>, dir: Direction, volume: int, price: int) -> MockHolding {
        let h = self.holding(code);
        if dir is Buy {
            let nv = h.volume_long + volume;
            MockHolding {
                volume_long: nv as i64,
                price_long: if h.price_long <= 0 {
                    price as i64
                } else {
                    div_trunc(h.price_long * (nv - volume) + price * volume, nv) as i64
                },
                ..h
            }
        } else {
            let nv = h.volume_long - volume;
            MockHolding { volume_long: nv as i64, price_long: if nv <= 0 { 0 } else { h.price_long }, ..h }
        }
    }

    /// Cash after a fill: a buy pays price times volume, a sell receives it.
    pub open spec fn cash_after(self, dir: Direction, volume: int, price: int) -> int {
        if dir is Buy { self.cash - price * volume } else { self.cash + price * volume }
    }

    /// The fill keeps every number within the representable range.
    pub open spec fn fill_fits(self, code: Seq<char>, dir: Direction, volume: int, price: int) -> bool {
        let h = self.holding(code);
        let nv = if dir is Buy { h.volume_long + volume } else { h.volume_long - volume };
        &&& trade_in_range(price, volume)
        &&& acc_ok(self.cash_after(dir, volume, price))
        &&& (self.positions.contains_key(code) || self.position_list.len() < MAX_POSITIONS)
        &&& vol_ok(nv)
        &&& (dir is Buy && h.price_long > 0 ==> nv != 0 && price_ok(
            div_trunc(h.price_long * (nv - volume) + price * volume, nv),
        ))
    }

    /// The state after a fill numbered `self.seq` made at `time`.
    pub open spec fn after_fill(self, code: Seq<char>, dir: Direction, volume: int, price: int, t: Trade) -> MockView {
        let (keys, list) = put_entry(self.position_keys, self.position_list, code, self.holding_after(code, dir, volume, price));
        MockView {
            cash: self.cash_after(dir, volume, price) as i128,
            positions: self.positions.insert(code, self.holding_after(code, dir, volume, price)),
            position_keys: keys,
            position_list: list,
            trades: self.trades.push(t),
            seq: vstd::wrapping::u64_specs::wrapping_add(self.seq, 1),
            ..self
        }
    }
}

/// Market value of the stored holdings at the latest quotes (zero where
/// there is none).
pub open spec fn holdings_value(keys: Seq<Seq<char>>, list: Seq<MockHolding>, quotes: Map<Seq<char>, i64>) -> int
    decreases list.len(),
{
    if list.len() == 0 || keys.len() == 0 {
        0
    } else {
        let k = keys.last();
        let px = if quotes.contains_key(k) { quotes[k] as int } else { 0 };
        holdings_value(keys.drop_last(), list.drop_last(), quotes) + px * (list.last().volume_long
            + list.last().volume_short)
    }
}

/// `p` reports holding `h` of `code` at latest price `px`.
pub open spec fn reports(p: BrokerPosition, code: Seq<char>, h: MockHolding, px: int) -> bool {
    &&& p.code@ == code
    &&& p.volume_long == h.volume_long
    &&& p.volume_short == h.volume_short
    &&& p.price_long == h.price_long
    &&& p.price_short == h.price_short
    &&& p.market_value == px * (h.volume_long + h.volume_short)
    &&& p.float_pnl == (px - h.price_long) * h.volume_long
}

/// The holdings with any volume, in storage order, with their latest
/// prices.
pub open spec fn nonzero_holdings(keys: Seq<Seq<char>>, list: Seq<MockHolding>, quotes: Map<Seq<char>, i64>) -> Seq<(Seq<char>, MockHolding, int)>
    decreases list.len(),
{
    if list.len() == 0 || keys.len() == 0 {
        Seq::empty()
    } else {
        let k = keys.last();
        let h = list.last();
        let px = if quotes.contains_key(k) { quotes[k] as int } else { 0 };
        let rest = nonzero_holdings(keys.drop_last(), list.drop_last(), quotes);
        if h.volume_long != 0 || h.volume_short != 0 { rest.push((k, h, px)) } else { rest }
    }
}

fn seq_text(prefix: &str, n: u64) -> (r: String)
    ensures
        r@ == prefix@ + dec(n as nat),
{
    let mut v: Vec<char> = Vec::new();
    push_str_chars(&mut v, prefix);
    push_dec(&mut v, n);
    string_from_chars(v)
}

fn text3(a: &str, b: &str, c: &str) -> (r: String)
    ensures
        r@ == a@ + b@ + c@,
{
    let mut v: Vec<char> = Vec::new();
    push_str_chars(&mut v, a);
    push_str_chars(&mut v, b);
    push_str_chars(&mut v, c);
    string_from_chars(v)
}

impl MockBroker {
    /// Sound maps, at most `MAX_POSITIONS` holdings, every number in range.
    pub closed spec fn wf(&self) -> bool {
        &&& self.positions.wf()
        &&& self.quotes.wf()
        &&& self.positions.val_seq().len() <= MAX_POSITIONS
        &&& acc_ok(self.cash as int)
        &&& acc_ok(self.frozen as int)
        &&& forall|i: int| 0 <= i < self.positions.val_seq().len() ==> {
            &&& vol_ok((#[trigger] self.positions.val_seq()[i]).volume_long as int)
            &&& vol_ok(self.positions.val_seq()[i].volume_short as int)
            &&& price_ok(self.positions.val_seq()[i].price_long as int)
            &&& price_ok(self.positions.val_seq()[i].price_short as int)
        }
        &&& forall|k: Seq<char>| #[trigger] self.quotes.map().contains_key(k) ==> price_ok(self.quotes.map()[k] as int)
    }

    /// What a sound broker shows of itself: cash in range and every
    /// holding's volumes and prices in range.
    pub proof fn lemma_wf(&self)
        requires
            self.wf(),
        ensures
            acc_ok(self@.cash as int),
            forall|code: Seq<char>| {
                let h = #[trigger] self@.holding(code);
                &&& vol_ok(h.volume_long as int)
                &&& vol_ok(h.volume_short as int)
                &&& price_ok(h.price_long as int)
                &&& price_ok(h.price_short as int)
            },
    {
        self.positions.lemma_wf();
        assert forall|code: Seq<char>| {
            let h = #[trigger] self@.holding(code);
            &&& vol_ok(h.volume_long as int)
            &&& vol_ok(h.volume_short as int)
            &&& price_ok(h.price_long as int)
            &&& price_ok(h.price_short as int)
        } by {
            if self@.positions.contains_key(code) {
                let i = choose|i: int| 0 <= i < self.positions.key_seq().len() && #[trigger] self.positions.key_seq()[i] == code;
                assert(self.positions.val_seq()[i] == self@.positions[code]);
            }
        }
    }

    /// A broker holding the configured cash and quotes and nothing else.
    pub fn new(config: MockConfig) -> (r: MockBroker)
        requires
            config.quotes.wf(),
            acc_ok(config.init_cash as int),
            forall|k: Seq<char>| #[trigger] config.quotes.map().contains_key(k) ==> price_ok(config.quotes.map()[k] as int),
        ensures
            r.wf(),
            r@.account_id == config.account_id@,
            r@.cash == config.init_cash,
            r@.frozen == 0,
            r@.positions == Map::<Seq<char>, MockHolding>::empty(),
            r@.position_keys.len() == 0,
            r@.position_list.len() == 0,
            r@.quotes == config.quotes.map(),
            r@.trades.len() == 0,
            r@.seq == 0,
    {
        MockBroker {
            account_id: config.account_id,
            cash: config.init_cash,
            frozen: 0,
            positions: StrMap::new(),
            quotes: config.quotes,
            trades: Vec::new(),
            seq: 0,
        }
    }

    /// Sets the latest price of `code`.
    pub fn set_price(&mut self, code: &str, price: Price)
        requires
            old(self).wf(),
            -MAX_PRICE <= price <= MAX_PRICE,
        ensures
            final(self).wf(),
            final(self)@ == (MockView { quotes: old(self)@.quotes.insert(code@, price), ..old(self)@ }),
    {
        self.quotes.insert(String::from_str(code), price);
    }

    pub fn name(&self) -> (r: &'static str)
        ensures
            r@ == "mock"@,
    {
        "mock"
    }

    /// Fills an order at once: at its limit price, or at the latest quote
    /// for a market order (an error without one). A sell needs enough long
    /// volume, else it is refused; every attempt past the price takes a
    /// sequence number for the `MKT_`/`TRD_` ids.
    pub fn place_order(&mut self, order: BrokerOrder) -> (r: Result<OrderResponse, HiquantError>)
        requires
            old(self).wf(),
        ensures
            final(self).wf(),
            match old(self)@.fill_price(order) {
                None => r matches Err(e) && e@ == (ErrorKind::Broker, "no quote for "@ + order.code@
                    + " cannot fill market order"@) && final(self)@ == old(self)@,
                Some(price) => {
                    let s0 = old(self)@;
                    let s1 = MockView { seq: vstd::wrapping::u64_specs::wrapping_add(s0.seq, 1), ..s0 };
                    let code = order.code@;
                    if order.direction is Sell && s0.holding(code).volume_long < order.volume {
                        r matches Ok(resp) && resp.client_order_id@ == order.client_order_id@
                            && resp.broker_order_id@.len() == 0 && !resp.accepted
                            && resp.message@ == "insufficient long position"@ && final(self)@ == s1
                    } else if !s0.fill_fits(code, order.direction, order.volume as int, price) {
                        r matches Err(e) && e@ == (ErrorKind::InvalidArgument, "value out of range"@)
                            && final(self)@ == s1
                    } else {
                        &&& r matches Ok(resp) && resp.client_order_id@ == order.client_order_id@
                            && resp.broker_order_id@ == "MKT_"@ + dec(s0.seq as nat) && resp.accepted
                            && resp.message@ == "filled"@
                        &&& final(self)@.trades.len() == s0.trades.len() + 1
                        &&& is_fill_record(final(self)@.trades.last(), s0.seq, s0.account_id, code, order.direction, price, order.volume as int)
                        &&& final(self)@ == s0.after_fill(code, order.direction, order.volume as int, price, final(self)@.trades.last())
                    }
                },
            },
    {
        let ghost s0 = self@;
        proof {
            self.positions.lemma_wf();
            self.quotes.lemma_wf();
        }
        let price: i64 = if order.price > 0 {
            order.price
        } else {
            match self.quotes.get(order.code.as_str()) {
                Some(p) => *p,
                None => {
                    return Err(
                        HiquantError::Broker(text3("no quote for ", order.code.as_str(), " cannot fill market order")),
                    );
                },
            }
        };
        let seq = self.seq;
        self.seq = self.seq.wrapping_add(1);
        let broker_order_id = seq_text("MKT_", seq);
        let trade_id = seq_text("TRD_", seq);
        let now = now_rfc3339();
        let idx = self.positions.find(order.code.as_str());
        let h: MockHolding = match idx {
            Some(i) => *self.positions.value_at(i),
            None => MockHolding { volume_long: 0, volume_short: 0, price_long: 0, price_short: 0 },
        };
        assert(h == s0.holding(order.code@));
        if order.direction == Direction::Sell && h.volume_long < order.volume {
            return Ok(
                OrderResponse {
                    client_order_id: order.client_order_id,
                    broker_order_id: String::new(),
                    accepted: false,
                    message: String::from_str("insufficient long position"),
                },
            );
        }
        let v = order.volume;
        let is_buy = order.direction == Direction::Buy;
        if !(-MAX_PRICE <= price && price <= MAX_PRICE && -MAX_VOLUME <= v && v <= MAX_VOLUME) {
            return Err(HiquantError::InvalidArgument(String::from_str("value out of range")));
        }
        proof {
            crate::types::lemma_trade_amount_bound(price as int, v as int, 1);
        }
        let amount: i128 = (price as i128) * (v as i128);
        let new_cash: i128 = if is_buy { self.cash - amount } else { self.cash + amount };
        let nv: i128 = if is_buy { h.volume_long as i128 + v as i128 } else { h.volume_long as i128 - v as i128 };
        let room = idx.is_some() || self.positions.len() < MAX_POSITIONS;
        if !(-crate::account::ACCOUNT_LIMIT <= new_cash && new_cash <= crate::account::ACCOUNT_LIMIT && room && -(MAX_VOLUME as i128) <= nv
            && nv <= MAX_VOLUME as i128) {
            return Err(HiquantError::InvalidArgument(String::from_str("value out of range")));
        }
        let new_price_long: i64 = if is_buy {
            if h.price_long <= 0 {
                price
            } else {
                if nv == 0 {
                    return Err(HiquantError::InvalidArgument(String::from_str("value out of range")));
                }
                proof {
                    crate::types::lemma_trade_amount_bound(h.price_long as int, (nv - v) as int, 1);
                }
                let total: i128 = (h.price_long as i128) * (nv - v as i128) + (price as i128) * (v as i128);
                let avg = div_trunc_exec(total, nv);
                if !(-(MAX_PRICE as i128) <= avg && avg <= MAX_PRICE as i128) {
                    return Err(HiquantError::InvalidArgument(String::from_str("value out of range")));
                }
                avg as i64
            }
        } else {
            if nv <= 0 {
                0
            } else {
                h.price_long
            }
        };
        let h2 = MockHolding { volume_long: nv as i64, price_long: new_price_long, ..h };
        assert(h2 == s0.holding_after(order.code@, order.direction, v as int, price as int));
        let ghost s1 = self@;
        match idx {
            Some(i) => {
                proof {
                    self.positions.lemma_index_of(i as int);
                }
                self.positions.replace_at(i, h2);
            },
            None => {
                proof {
                    self.positions.lemma_contains(order.code@);
                }
                self.positions.insert(order.code.clone(), h2);
            },
        }
        self.cash = new_cash;
        let t = Trade {
            trade_id,
            order_id: broker_order_id.clone(),
            account_id: self.account_id.clone(),
            instrument_id: order.code.clone(),
            direction: String::from_str(order.direction.as_str()),
            offset: String::new(),
            price,
            volume: v,
            commission: 0,
            tax: 0,
            trade_time: now,
            user_id: String::new(),
            exchange_id: String::new(),
        };
        let ghost tv = t;
        self.trades.push(t);
        proof {
            self.positions.lemma_wf();
            assert forall|i: int| 0 <= i < self.positions.val_seq().len() implies {
                &&& vol_ok((#[trigger] self.positions.val_seq()[i]).volume_long as int)
                &&& vol_ok(self.positions.val_seq()[i].volume_short as int)
                &&& price_ok(self.positions.val_seq()[i].price_long as int)
                &&& price_ok(self.positions.val_seq()[i].price_short as int)
            } by {
                if i < s0.position_list.len() && self.positions.val_seq()[i] != h2 {
                    assert(self.positions.val_seq()[i] == s0.position_list[i]);
                }
            }
            assert(self.trades@.last() == tv);
            assert(self@ =~= s0.after_fill(order.code@, order.direction, v as int, price as int, tv));
        }
        Ok(
            OrderResponse {
                client_order_id: order.client_order_id,
                broker_order_id,
                accepted: true,
                message: String::from_str("filled"),
            },
        )
    }

    /// Nothing rests with this broker, so nothing is ever cancelled.
    pub fn cancel_order(&self, _broker_order_id: &str) -> (r: Result<bool, HiquantError>)
        ensures
            r matches Ok(b) && !b,
    {
        Ok(false)
    }

    /// Money figures: balance is cash plus holdings at the latest quotes.
    pub fn query_account(&self) -> (r: BrokerAccount)
        requires
            self.wf(),
        ensures
            r.account_id@ == self@.account_id,
            r.balance == self@.cash + holdings_value(self@.position_keys, self@.position_list, self@.quotes),
            r.available == self@.cash - self@.frozen,
            r.margin == 0,
            r.frozen_margin == self@.frozen,
    {
        let n: usize = self.positions.len();
        let mut mv: i128 = 0;
        let mut i: usize = 0;
        proof {
            self.positions.lemma_wf();
        }
        let ghost keys = self.positions.key_seq();
        let ghost list = self.positions.val_seq();
        while i < n
            invariant
                self.wf(),
                keys == self.positions.key_seq(),
                list == self.positions.val_seq(),
                n == list.len(),
                keys.len() == n,
                i <= n,
                mv == holdings_value(keys.take(i as int), list.take(i as int), self@.quotes),
                -(i as int) * 0x100_0000_0000_0000_0000_0000 <= mv <= (i as int) * 0x100_0000_0000_0000_0000_0000,
            decreases n - i,
        {
            proof {
                self.positions.lemma_wf();
            }
            let k = self.positions.key_at(i);
            let h = *self.positions.value_at(i);
            let px: i64 = match self.quotes.get(k.as_str()) {
                Some(p) => *p,
                None => 0,
            };
            proof {
                let hv = h.volume_long + h.volume_short;
                assert(-2 * MAX_VOLUME <= hv <= 2 * MAX_VOLUME);
                assert(-MAX_PRICE <= px <= MAX_PRICE);
                assert(-0x100_0000_0000_0000_0000_0000 <= px * hv <= 0x100_0000_0000_0000_0000_0000) by (nonlinear_arith)
                    requires -2 * MAX_VOLUME <= hv <= 2 * MAX_VOLUME, -MAX_PRICE <= px <= MAX_PRICE;
                assert(keys.take(i + 1).drop_last() =~= keys.take(i as int));
                assert(list.take(i + 1).drop_last() =~= list.take(i as int));
                assert((i + 1) * 0x100_0000_0000_0000_0000_0000 <= MAX_POSITIONS * 0x100_0000_0000_0000_0000_0000) by (nonlinear_arith)
                    requires i + 1 <= MAX_POSITIONS;
                assert(i * 0x100_0000_0000_0000_0000_0000 + 0x100_0000_0000_0000_0000_0000 == (i + 1) * 0x100_0000_0000_0000_0000_0000) by (nonlinear_arith);
            }
            mv = mv + (px as i128) * ((h.volume_long as i128) + (h.volume_short as i128));
            i = i + 1;
        }
        assert(keys.take(n as int) =~= keys);
        assert(list.take(n as int) =~= list);
        BrokerAccount {
            account_id: self.account_id.clone(),
            balance: self.cash + mv,
            available: self.cash - self.frozen,
            margin: 0,
            frozen_margin: self.frozen,
        }
    }

    /// The holdings with any volume, in storage order, valued at the
    /// latest quotes.
    pub fn query_positions(&self) -> (r: Vec<BrokerPosition>)
        requires
            self.wf(),
        ensures
            r@.len() == nonzero_holdings(self@.position_keys, self@.position_list, self@.quotes).len(),
            forall|i: int| 0 <= i < r@.len() ==> {
                let e = nonzero_holdings(self@.position_keys, self@.position_list, self@.quotes)[i];
                reports(#[trigger] r@[i], e.0, e.1, e.2)
            },
    {
        let n: usize = self.positions.len();
        let mut out: Vec<BrokerPosition> = Vec::new();
        let mut i: usize = 0;
        proof {
            self.positions.lemma_wf();
        }
        let ghost keys = self.positions.key_seq();
        let ghost list = self.positions.val_seq();
        while i < n
            invariant
                self.wf(),
                keys == self.positions.key_seq(),
                list == self.positions.val_seq(),
                n == list.len(),
                keys.len() == n,
                i <= n,
                out@.len() == nonzero_holdings(keys.take(i as int), list.take(i as int), self@.quotes).len(),
                forall|j: int| 0 <= j < out@.len() ==> {
                    let e = nonzero_holdings(keys.take(i as int), list.take(i as int), self@.quotes)[j];
                    reports(#[trigger] out@[j], e.0, e.1, e.2)
                },
            decreases n - i,
        {
            proof {
                self.positions.lemma_wf();
            }
            let k = self.positions.key_at(i);
            let h = *self.positions.value_at(i);
            let px: i64 = match self.quotes.get(k.as_str()) {
                Some(p) => *p,
                None => 0,
            };
            proof {
                assert(keys.take(i + 1).drop_last() =~= keys.take(i as int));
                assert(list.take(i + 1).drop_last() =~= list.take(i as int));
                assert(keys.take(i + 1).last() == keys[i as int]);
                assert(list.take(i + 1).last() == list[i as int]);
            }
            if h.volume_long != 0 || h.volume_short != 0 {
                proof {
                    let hv = h.volume_long + h.volume_short;
                    assert(-0x100_0000_0000_0000_0000_0000 <= px * hv <= 0x100_0000_0000_0000_0000_0000) by (nonlinear_arith)
                        requires -2 * MAX_VOLUME <= hv <= 2 * MAX_VOLUME, -MAX_PRICE <= px <= MAX_PRICE;
                    let d = px - h.price_long;
                    let vl = h.volume_long as int;
                    assert(-0x100_0000_0000_0000_0000_0000 <= d * vl <= 0x100_0000_0000_0000_0000_0000) by (nonlinear_arith)
                        requires -2 * MAX_PRICE <= d <= 2 * MAX_PRICE, -MAX_VOLUME <= vl <= MAX_VOLUME;
                }
                let bp = BrokerPosition {
                    code: k.clone(),
                    volume_long: h.volume_long,
                    volume_short: h.volume_short,
                    price_long: h.price_long,
                    price_short: h.price_short,
                    market_value: (px as i128) * ((h.volume_long as i128) + (h.volume_short as i128)),
                    float_pnl: ((px as i128) - (h.price_long as i128)) * (h.volume_long as i128),
                };
                out.push(bp);
            }
            i = i + 1;
        }
        assert(keys.take(n as int) =~= keys);
        assert(list.take(n as int) =~= list);
        out
    }

    /// Every fill so far, oldest first.
    pub fn query_trades(&self) -> (r: Vec<Trade>)
        ensures
            r@.len() == self@.trades.len(),
            forall|i: int| 0 <= i < r@.len() ==> #[trigger] r@[i] == self@.trades[i],
    {
        let mut out: Vec<Trade> = Vec::new();
        let mut i: usize = 0;
        while i < self.trades.len()
            invariant
                i <= self.trades@.len(),
                out@.len() == i,
                forall|j: int| 0 <= j < i ==> #[trigger] out@[j] == self.trades@[j],
            decreases self.trades@.len() - i,
        {
            out.push(self.trades[i].clone());
            i = i + 1;
        }
        out
    }

    /// The latest price of `code`, or an error without one.
    pub fn query_quote(&self, code: &str) -> (r: Result<BrokerQuote, HiquantError>)
        requires
            self.wf(),
        ensures
            match r {
                Ok(q) => self@.quotes.contains_key(code@) && q.code@ == code@ && q.last_price == self@.quotes[code@]
                    && q.bid_price == q.last_price && q.ask_price == q.last_price,
                Err(e) => !self@.quotes.contains_key(code@) && e@ == (ErrorKind::Broker, "no quote for "@ + code@),
            },
    {
        match self.quotes.get(code) {
            Some(p) => Ok(
                BrokerQuote {
                    code: String::from_str(code),
                    last_price: *p,
                    bid_price: *p,
                    ask_price: *p,
                    timestamp: now_rfc3339(),
                },
            ),
            None => {
                let mut v: Vec<char> = Vec::new();
                push_str_chars(&mut v, "no quote for ");
                push_str_chars(&mut v, code);
                Err(HiquantError::Broker(string_from_chars(v)))
            },
        }
    }

    pub fn is_connected(&self) -> (r: bool)
        ensures
            r,
    {
        true
    }
}

/// Law: buying and then selling the same volume at the same price leaves
/// the cash and the long volume as they were.
pub proof fn law_round_trip_restores_cash(m: MockView, code: Seq<char>, volume: int, price: int, t1: Trade, t2: Trade)
    requires
        m.fill_fits(code, Direction::Buy, volume, price),
        m.after_fill(code, Direction::Buy, volume, price, t1).fill_fits(code, Direction::Sell, volume, price),
        vol_ok(m.holding(code).volume_long as int),
    ensures
        ({
            let m1 = m.after_fill(code, Direction::Buy, volume, price, t1);
            let m2 = m1.after_fill(code, Direction::Sell, volume, price, t2);
            &&& m2.cash == m.cash
            &&& m2.holding(code).volume_long == m.holding(code).volume_long
            &&& m2.holding(code).volume_short == m.holding(code).volume_short
        }),
{
    let m1 = m.after_fill(code, Direction::Buy, volume, price, t1);
    assert(m1.holding(code) == m.holding_after(code, Direction::Buy, volume, price));
    let m2 = m1.after_fill(code, Direction::Sell, volume, price, t2);
    assert(m2.holding(code) == m1.holding_after(code, Direction::Sell, volume, price));
}

} // verus!
