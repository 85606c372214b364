//! QIFI: a standard snapshot of an account, its positions, orders and
//! trades, in fixed-point numbers.

use vstd::prelude::*;
use crate::ids::now_rfc3339;
use crate::strmap::StrMap;
use crate::enums::Direction;
use crate::order::OrderView;
use crate::position::PositionView;
use crate::types::{Amount, Price, Volume};

verus! {

/// A trade record.
#[derive(Debug)]
pub struct Trade {
    pub user_id: String,
    pub trade_id: String,
    pub order_id: String,
    pub account_id: String,
    pub exchange_id: String,
    pub instrument_id: String,
    pub direction: String,
    pub offset: String,
    pub price: Price,
    pub volume: Volume,
    pub commission: Amount,
    pub tax: Amount,
    pub trade_time: String,
}

impl Clone for Trade {
    fn clone(&self) -> (r: Self)
        ensures
            r == *self,
    {
        Trade {
            user_id: self.user_id.clone(),
            trade_id: self.trade_id.clone(),
            order_id: self.order_id.clone(),
            account_id: self.account_id.clone(),
            exchange_id: self.exchange_id.clone(),
            instrument_id: self.instrument_id.clone(),
            direction: self.direction.clone(),
            offset: self.offset.clone(),
            price: self.price,
            volume: self.volume,
            commission: self.commission,
            tax: self.tax,
            trade_time: self.trade_time.clone(),
        }
    }
}

/// An order record.
#[derive(Debug)]
pub struct Order {
    pub order_id: String,
    pub account_cookie: String,
    pub user_cookie: String,
    pub portfolio_cookie: String,
    pub instrument_id: String,
    pub secu_code: String,
    pub exchange_id: String,
    pub direction: String,
    pub offset: String,
    pub volume_orign: Volume,
    pub volume_left: Volume,
    pub volume_fill: Volume,
    pub price_order: Price,
    pub price_fill: Price,
    pub price_type: String,
    pub status: String,
    pub fee: Amount,
    pub tax: Amount,
    pub order_time: String,
    pub trade_time: String,
    pub towards: i32,
}

/// A position record.
#[derive(Debug)]
pub struct Position {
    pub instrument_id: String,
    pub exchange_id: String,
    pub volume_long_today: Volume,
    pub volume_long_his: Volume,
    pub volume_short_today: Volume,
    pub volume_short_his: Volume,
    pub volume_long_frozen_today: Volume,
    pub volume_long_frozen_his: Volume,
    pub volume_short_frozen_today: Volume,
    pub volume_short_frozen_his: Volume,
    pub position_price_long: Price,
    pub position_price_short: Price,
    pub position_cost_long: Amount,
    pub position_cost_short: Amount,
    pub open_price_long: Price,
    pub open_price_short: Price,
    pub open_cost_long: Amount,
    pub open_cost_short: Amount,
    pub margin_long: Amount,
    pub margin_short: Amount,
    pub lastest_price: Price,
    pub float_pnl_long: Amount,
    pub float_pnl_short: Amount,
    pub close_pnl: Amount,
    pub position_profit: Amount,
    pub float_profit: Amount,
    pub lastest_datetime: String,
}

/// Cash held back for one order.
#[derive(Debug)]
pub struct Frozen {
    pub order_id: String,
    pub money: Amount,
    pub datetime: String,
    pub code: String,
}

/// The account's money figures.
#[derive(Debug, Clone, Copy, Default)]
pub struct Account {
    pub pre_balance: Amount,
    pub deposit: Amount,
    pub withdraw: Amount,
    pub close_profit: Amount,
    pub commission: Amount,
    pub tax: Amount,
    pub static_balance: Amount,
    pub position_profit: Amount,
    pub float_profit: Amount,
    pub balance: Amount,
    pub margin: Amount,
    pub frozen_margin: Amount,
    pub available: Amount,
}

#[derive(Debug)]
pub struct Bank {
    pub bank_id: String,
    pub bank_name: String,
    pub balance: Amount,
}

#[derive(Debug)]
pub struct Transfer {
    pub transfer_id: String,
    pub datetime: String,
    pub amount: Amount,
    pub direction: String,
}

#[derive(Debug)]
pub struct Event {
    pub event_id: String,
    pub datetime: String,
    pub event_type: String,
    pub message: String,
}

/// A full snapshot: money figures, and positions, orders, trades and
/// holds keyed by instrument, order, trade and order id.
pub struct Qifi {
    pub account_cookie: String,
    pub portfolio: String,
    pub investor_name: String,
    pub broker_name: String,
    pub money: Amount,
    pub source: String,
    pub updatetime: String,
    pub trading_day: String,
    pub accounts: Account,
    pub positions: StrMap<Position>,
    pub orders: StrMap<Order>,
    pub trades: StrMap<Trade>,
    pub frozen: StrMap<Frozen>,
    pub banks: Vec<Bank>,
    pub transfers: Vec<Transfer>,
    pub events: Vec<Event>,
    pub errors: Vec<String>,
}

/// Bound on the money figures for which derived values are computed.
pub const QIFI_LIMIT: i128 = 0x800_0000_0000_0000_0000_0000_0000_0000;

pub open spec fn qifi_ok(x: int) -> bool {
    -QIFI_LIMIT <= x <= QIFI_LIMIT
}

impl Account {
    /// Balance from its parts: static balance, deposits less withdrawals,
    /// closed profit less fees and taxes, and position profit.
    pub open spec fn derived_balance(self) -> int {
        self.static_balance + self.deposit - self.withdraw + self.close_profit - self.commission
            - self.tax + self.position_profit
    }

    pub open spec fn figures_in_range(self) -> bool {
        &&& qifi_ok(self.static_balance as int)
        &&& qifi_ok(self.deposit as int)
        &&& qifi_ok(self.withdraw as int)
        &&& qifi_ok(self.close_profit as int)
        &&& qifi_ok(self.commission as int)
        &&& qifi_ok(self.tax as int)
        &&& -4 * QIFI_LIMIT <= self.position_profit <= 4 * QIFI_LIMIT
        &&& qifi_ok(self.margin as int)
        &&& qifi_ok(self.frozen_margin as int)
    }
}

impl Qifi {
    /// `self` and `other` agree on everything but the four maps and the
    /// lists.
    pub open spec fn same_header(&self, other: &Qifi) -> bool {
        &&& self.account_cookie == other.account_cookie
        &&& self.portfolio == other.portfolio
        &&& self.investor_name == other.investor_name
        &&& self.broker_name == other.broker_name
        &&& self.money == other.money
        &&& self.source == other.source
        &&& self.updatetime == other.updatetime
        &&& self.trading_day == other.trading_day
        &&& self.accounts == other.accounts
    }

    /// The maps are sound.
    pub open spec fn wf(&self) -> bool {
        &&& self.positions.wf()
        &&& self.orders.wf()
        &&& self.trades.wf()
        &&& self.frozen.wf()
    }

    /// An empty snapshot of an account holding `money`: balance, static
    /// balance and available money are `money`, the source is `hiquant-rs`
    /// and the update time is the clock's.
    pub fn new(account_cookie: String, money: Amount) -> (r: Qifi)
        ensures
            r.wf(),
            r.account_cookie@ == account_cookie@,
            r.money == money,
            r.accounts == (Account { balance: money, static_balance: money, available: money, ..Account::spec_default() }),
            r.source@ == "hiquant-rs"@,
            r.portfolio@.len() == 0,
            r.investor_name@.len() == 0,
            r.broker_name@.len() == 0,
            r.trading_day@.len() == 0,
            r.positions.map() == Map::<Seq<char>, Position>::empty(),
            r.orders.map() == Map::<Seq<char>, Order>::empty(),
            r.trades.map() == Map::<Seq<char>, Trade>::empty(),
            r.frozen.map() == Map::<Seq<char>, Frozen>::empty(),
            r.banks@.len() == 0,
            r.transfers@.len() == 0,
            r.events@.len() == 0,
            r.errors@.len() == 0,
    {
        let mut accounts = Account::new_zero();
        accounts.balance = money;
        accounts.static_balance = money;
        accounts.available = money;
        Qifi {
            account_cookie,
            portfolio: String::new(),
            investor_name: String::new(),
            broker_name: String::new(),
            money,
            source: String::from_str("hiquant-rs"),
            updatetime: now_rfc3339(),
            trading_day: String::new(),
            accounts,
            positions: StrMap::new(),
            orders: StrMap::new(),
            trades: StrMap::new(),
            frozen: StrMap::new(),
            banks: Vec::new(),
            transfers: Vec::new(),
            events: Vec::new(),
            errors: Vec::new(),
        }
    }

    /// Records a position under its instrument id.
    pub fn add_position(&mut self, pos: Position)
        requires
            old(self).wf(),
        ensures
            final(self).wf(),
            final(self).positions.map() == old(self).positions.map().insert(pos.instrument_id@, pos),
            final(self).same_header(&*old(self)),
            final(self).orders == old(self).orders,
            final(self).trades == old(self).trades,
    {
        let k = pos.instrument_id.clone();
        self.positions.insert(k, pos);
    }

    /// Records an order under its id.
    pub fn add_order(&mut self, order: Order)
        requires
            old(self).wf(),
        ensures
            final(self).wf(),
            final(self).orders.map() == old(self).orders.map().insert(order.order_id@, order),
            final(self).same_header(&*old(self)),
            final(self).positions == old(self).positions,
            final(self).trades == old(self).trades,
    {
        let k = order.order_id.clone();
        self.orders.insert(k, order);
    }

    /// Records a trade under its id.
    pub fn add_trade(&mut self, trade: Trade)
        requires
            old(self).wf(),
        ensures
            final(self).wf(),
            final(self).trades.map() == old(self).trades.map().insert(trade.trade_id@, trade),
            final(self).same_header(&*old(self)),
    {
        let k = trade.trade_id.clone();
        self.trades.insert(k, trade);
    }

    /// Records a hold under its order id.
    pub fn add_frozen(&mut self, frozen: Frozen)
        requires
            old(self).wf(),
        ensures
            final(self).wf(),
            final(self).frozen.map() == old(self).frozen.map().insert(frozen.order_id@, frozen),
            final(self).same_header(&*old(self)),
    {
        let k = frozen.order_id.clone();
        self.frozen.insert(k, frozen);
    }

    /// Derives the balance from its parts and the available money as the
    /// balance less margin and frozen margin.
    pub fn calculate_derived_values(&mut self)
        requires
            old(self).accounts.figures_in_range(),
        ensures
            final(self).accounts == (Account {
                balance: old(self).accounts.derived_balance() as i128,
                available: (old(self).accounts.derived_balance() - old(self).accounts.margin
                    - old(self).accounts.frozen_margin) as i128,
                ..old(self).accounts
            }),
            final(self).positions == old(self).positions,
            final(self).orders == old(self).orders,
            final(self).trades == old(self).trades,
            final(self).frozen == old(self).frozen,
            final(self).account_cookie == old(self).account_cookie,
            final(self).portfolio == old(self).portfolio,
            final(self).investor_name == old(self).investor_name,
            final(self).source == old(self).source,
            final(self).money == old(self).money,
    {
        let a = self.accounts;
        let balance = a.static_balance + a.deposit - a.withdraw + a.close_profit - a.commission - a.tax
            + a.position_profit;
        self.accounts.balance = balance;
        self.accounts.available = balance - a.margin - a.frozen_margin;
    }
}

impl Account {
    pub open spec fn spec_default() -> Account {
        Account {
            pre_balance: 0,
            deposit: 0,
            withdraw: 0,
            close_profit: 0,
            commission: 0,
            tax: 0,
            static_balance: 0,
            position_profit: 0,
            float_profit: 0,
            balance: 0,
            margin: 0,
            frozen_margin: 0,
            available: 0,
        }
    }

    /// All figures zero.
    pub fn new_zero() -> (r: Account)
        ensures
            r == Account::spec_default(),
    {
        Account {
            pre_balance: 0,
            deposit: 0,
            withdraw: 0,
            close_profit: 0,
            commission: 0,
            tax: 0,
            static_balance: 0,
            position_profit: 0,
            float_profit: 0,
            balance: 0,
            margin: 0,
            frozen_margin: 0,
            available: 0,
        }
    }
}

/// `q` records position `p`: the same numbers, its profits against the
/// holding and the opening prices, and zero for the figures a position
/// does not keep.
pub open spec fn position_record_of(q: Position, p: PositionView) -> bool {
    &&& q.instrument_id@ == p.code
    &&& q.exchange_id@ == p.exchange_id
    &&& q.volume_long_today == p.volume_long_today
    &&& q.volume_long_his == p.volume_long_his
    &&& q.volume_short_today == p.volume_short_today
    &&& q.volume_short_his == p.volume_short_his
    &&& q.volume_long_frozen_today == p.volume_long_frozen_today
    &&& q.volume_long_frozen_his == p.volume_long_frozen_his
    &&& q.volume_short_frozen_today == p.volume_short_frozen_today
    &&& q.volume_short_frozen_his == p.volume_short_frozen_his
    &&& q.position_price_long == p.position_price_long
    &&& q.position_price_short == p.position_price_short
    &&& q.position_cost_long == p.position_cost_long
    &&& q.position_cost_short == p.position_cost_short
    &&& q.open_price_long == p.open_price_long
    &&& q.open_price_short == p.open_price_short
    &&& q.open_cost_long == p.open_cost_long
    &&& q.open_cost_short == p.open_cost_short
    &&& q.margin_long == p.margin_long
    &&& q.margin_short == p.margin_short
    &&& q.lastest_price == p.lastest_price
    &&& q.float_pnl_long == 0
    &&& q.float_pnl_short == 0
    &&& q.close_pnl == 0
    &&& q.position_profit == p.position_profit()
    &&& q.float_profit == p.float_profit()
    &&& q.lastest_datetime@ == p.lastest_datetime
}

/// `q` records order `o`, with direction, offset and status as text,
/// the price type by name, and the side as 1 (buy) or -1 (sell).
pub open spec fn order_record_of(q: Order, o: OrderView) -> bool {
    &&& q.order_id@ == o.order_id
    &&& q.account_cookie@ == o.account_cookie
    &&& q.user_cookie@ == o.user_cookie
    &&& q.portfolio_cookie@ == o.portfolio_cookie
    &&& q.instrument_id@ == o.instrument_id
    &&& q.secu_code@ == o.secu_code
    &&& q.exchange_id@ == o.exchange_id
    &&& q.direction@ == o.direction.spec_as_str()
    &&& q.offset@ == o.offset.spec_as_str()
    &&& q.volume_orign == o.volume_orign
    &&& q.volume_left == o.volume_left
    &&& q.volume_fill == o.volume_fill
    &&& q.price_order == o.price_order
    &&& q.price_fill == o.price_fill
    &&& q.price_type@ == o.price_type.spec_debug_name()
    &&& q.status@ == o.status.spec_as_str()
    &&& q.fee == o.fee
    &&& q.tax == o.tax
    &&& q.order_time@ == o.order_time
    &&& q.trade_time@ == o.trade_time
    &&& q.towards == (if o.direction is Buy { 1i32 } else { -1i32 })
}

impl Position {
    /// The record of an account position.
    pub fn from_position(p: &crate::position::Position) -> (r: Position)
        requires
            p@.in_range(),
        ensures
            position_record_of(r, p@),
    {
        Position {
            instrument_id: p.code.clone(),
            exchange_id: p.exchange_id.clone(),
            volume_long_today: p.volume_long_today,
            volume_long_his: p.volume_long_his,
            volume_short_today: p.volume_short_today,
            volume_short_his: p.volume_short_his,
            volume_long_frozen_today: p.volume_long_frozen_today,
            volume_long_frozen_his: p.volume_long_frozen_his,
            volume_short_frozen_today: p.volume_short_frozen_today,
            volume_short_frozen_his: p.volume_short_frozen_his,
            position_price_long: p.position_price_long,
            position_price_short: p.position_price_short,
            position_cost_long: p.position_cost_long,
            position_cost_short: p.position_cost_short,
            open_price_long: p.open_price_long,
            open_price_short: p.open_price_short,
            open_cost_long: p.open_cost_long,
            open_cost_short: p.open_cost_short,
            margin_long: p.margin_long,
            margin_short: p.margin_short,
            lastest_price: p.lastest_price,
            float_pnl_long: 0,
            float_pnl_short: 0,
            close_pnl: 0,
            position_profit: p.position_profit(),
            float_profit: p.float_profit(),
            lastest_datetime: p.lastest_datetime.clone(),
        }
    }
}

impl Order {
    /// The record of an account order.
    pub fn from_order(o: &crate::order::Order) -> (r: Order)
        ensures
            order_record_of(r, o@),
    {
        let towards = o.towards();
        Order {
            order_id: o.order_id.clone(),
            account_cookie: o.account_cookie.clone(),
            user_cookie: o.user_cookie.clone(),
            portfolio_cookie: o.portfolio_cookie.clone(),
            instrument_id: o.instrument_id.clone(),
            secu_code: o.secu_code.clone(),
            exchange_id: o.exchange_id.clone(),
            direction: String::from_str(o.direction.as_str()),
            offset: String::from_str(o.offset.as_str()),
            volume_orign: o.volume_orign,
            volume_left: o.volume_left,
            volume_fill: o.volume_fill,
            price_order: o.price_order,
            price_fill: o.price_fill,
            price_type: String::from_str(o.price_type.debug_name()),
            status: String::from_str(o.status.as_str()),
            fee: o.fee,
            tax: o.tax,
            order_time: o.order_time.clone(),
            trade_time: o.trade_time.clone(),
            towards,
        }
    }
}

} // verus!
