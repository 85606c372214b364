//! Accounts: cash, frozen cash, positions and orders, with risk checks on
//! placing, release on cancelling and bookkeeping on fills.

use vstd::prelude::*;
use crate::enums::{AccountType, Direction, Offset, OrderSide, OrderStatus, PriceType};
use crate::error::{ErrorKind, HiquantError};
use crate::ids::{generate_uuid, now_rfc3339, order_id_text};
use crate::order::{div_trunc, div_trunc_exec, lemma_div_trunc_bound, Order, OrderFactory, OrderView};
use crate::position::{
    all_in_range, count_nonempty, pviews, sum_float_profit, sum_margin, sum_market_value,
    PositionStats, Position, PositionView, MAX_POSITIONS,
};
use crate::preset::{resolve_preset, CodePreset, MarketPreset, PresetView};
use crate::qifi::{order_record_of, position_record_of};
use crate::strmap::{put_entry, StrMap};
use crate::text::{fixed2, push_fixed2, push_sdec, push_str_chars, sdec, string_from_chars};
use crate::types::{mul_ppm, ppm_of, Amount, Price, Volume, AMOUNT_LIMIT, MAX_PRICE, MAX_TRADE_AMOUNT, MAX_VOLUME, trade_in_range};

verus! {

/// Bound kept by the account's running totals (cash, frozen cash, profit,
/// fees, taxes) and by each order's frozen cash.
pub const ACCOUNT_LIMIT: i128 = 0x4000_0000_0000_0000_0000_0000_0000;

/// Bound kept by the cash each order holds back.
pub const ORDER_FROZEN_LIMIT: i128 = 0x3C0_0000_0000_0000_0000_0000_0000;

/// A snapshot of an account's totals.
#[derive(Debug, Clone, Default)]
pub struct AccountSummary {
    pub account_cookie: String,
    pub init_cash: Amount,
    pub cash: Amount,
    pub frozen_cash: Amount,
    pub available: Amount,
    pub market_value: Amount,
    pub margin: Amount,
    pub total_value: Amount,
    pub float_pnl: Amount,
    pub close_pnl: Amount,
    pub position_count: usize,
    pub order_count: usize,
}

/// A trading account.
pub struct Account {
    pub account_cookie: String,
    pub user_cookie: String,
    pub portfolio_cookie: String,
    pub account_type: AccountType,
    pub init_cash: Amount,
    cash: Amount,
    frozen_cash: Amount,
    close_pnl: Amount,
    commission_total: Amount,
    tax_total: Amount,
    positions: StrMap<Position>,
    orders: StrMap<Order>,
    frozen_by_order: StrMap<Amount>,
    market_prices: StrMap<Price>,
    market_preset: MarketPreset,
}

/// The mathematical state of an account.
#[verifier::ext_equal]
pub struct AccountView {
    pub account_cookie: Seq<char>,
    pub user_cookie: Seq<char>,
    pub portfolio_cookie: Seq<char>,
    pub account_type: AccountType,
    pub init_cash: i128,
    pub cash: i128,
    pub frozen_cash: i128,
    pub close_pnl: i128,
    pub commission_total: i128,
    pub tax_total: i128,
    /// Positions by code, and the same positions in storage order.
    pub positions: Map<Seq<char>, PositionView>,
    pub position_keys: Seq<Seq<char>>,
    pub position_list: Seq<PositionView>,
    /// Orders by id, and the same orders in storage order.
    pub orders: Map<Seq<char>, OrderView>,
    pub order_keys: Seq<Seq<char>>,
    pub order_list: Seq<OrderView>,
    /// Cash held back by each order that froze cash.
    pub frozen_by_order: Map<Seq<char>, i128>,
    pub market_prices: Map<Seq<char>, i64>,
    pub presets: Map<Seq<char>, CodePreset>,
}

pub open spec fn acc_ok(x: int) -> bool {
    -ACCOUNT_LIMIT <= x <= ACCOUNT_LIMIT
}

pub open spec fn oviews(s: Seq<Order>) -> Seq<OrderView> {
    s.map_values(|o: Order| o@)
}

/// `o` is an order as placing one creates it: a pending limit order for
/// the whole volume with a generated id, nothing filled.
pub open spec fn is_new_order(
    o: OrderView,
    account: Seq<char>,
    code: Seq<char>,
    side: OrderSide,
    volume: int,
    price: int,
) -> bool {
    &&& (o.direction, o.offset) == side.spec_direction_offset()
    &&& exists|millis: i64, rand: u32| o.order_id == order_id_text("ORD"@, millis, rand)
    &&& o.account_cookie == account
    &&& o.instrument_id == code
    &&& o.user_cookie.len() == 0
    &&& o.portfolio_cookie.len() == 0
    &&& o.secu_code.len() == 0
    &&& o.exchange_id.len() == 0
    &&& o.volume_orign == volume
    &&& o.volume_left == volume
    &&& o.volume_fill == 0
    &&& o.price_order == price
    &&& o.price_fill == 0
    &&& o.price_type == PriceType::Limit
    &&& o.status == OrderStatus::Pending
    &&& o.fee == 0
    &&& o.tax == 0
    &&& o.trade_time.len() == 0
    &&& o.reason.len() == 0
    &&& o.error_message.len() == 0
}

pub open spec fn money_shortfall(prefix: Seq<char>, have: int, need: int) -> Seq<char> {
    prefix + fixed2(have) + " < need "@ + fixed2(need)
}

pub open spec fn volume_shortfall(prefix: Seq<char>, have: int, need: int) -> Seq<char> {
    prefix + sdec(have) + " < need "@ + sdec(need)
}

/// Money effects of a fill of `fv` at `fp`: commission, tax (sells
/// only), realized profit against the opening price and cash returned
/// (closes only), and cash paid (opens: full value for stocks, margin
/// otherwise).
pub open spec fn fill_money_of(
    preset: PresetView,
    dir: Direction,
    off: Offset,
    fv: int,
    fp: int,
    open_long: int,
    open_short: int,
) -> (int, int, int, int, int) {
    let amount = preset.market_value(fp, fv);
    let commission = preset.commission(amount);
    let tax = if dir is Sell { ppm_of(amount, preset.tax_ratio as int) } else { 0 };
    let pnl = if off is Open {
        0
    } else if dir is Sell {
        (fp - open_long) * fv * preset.unit_table
    } else {
        (open_short - fp) * fv * preset.unit_table
    };
    let recover = if off is Open { 0 } else { amount };
    let outlay = if off is Open {
        if preset.is_stock { amount } else { preset.margin(fp, fv) }
    } else {
        0
    };
    (commission, tax, pnl, recover, outlay)
}

/// Law: a closing fill books the favourable price move as profit. Closing
/// `fv > 0` at `fp` a position opened at `open`, a sell (closing a long)
/// books the move `fp - open` times the volume and the multiplier, and a
/// buy (covering a short) books the opposite: covering below the opening
/// price gains, above it loses, and the long side gains exactly when the
/// price rose.
pub proof fn law_close_profit_sign(preset: PresetView, off: Offset, fv: int, fp: int, open: int)
    requires
        !(off is Open),
        fv > 0,
        preset.unit_table >= 1,
    ensures
        ({
            let sell = fill_money_of(preset, Direction::Sell, off, fv, fp, open, 0).2;
            let buy = fill_money_of(preset, Direction::Buy, off, fv, fp, 0, open).2;
            &&& sell == (fp - open) * fv * preset.unit_table
            &&& buy == -sell
            &&& (fp < open ==> buy > 0 && sell < 0)
            &&& (fp > open ==> buy < 0 && sell > 0)
            &&& (fp == open ==> buy == 0 && sell == 0)
        }),
{
    let u = preset.unit_table as int;
    assert((open - fp) * fv * u == -((fp - open) * fv * u)) by (nonlinear_arith);
    assert(fp > open ==> (fp - open) * fv * u > 0) by (nonlinear_arith)
        requires fv > 0, u >= 1;
    assert(fp < open ==> (fp - open) * fv * u < 0) by (nonlinear_arith)
        requires fv > 0, u >= 1;
    assert(fp == open ==> (fp - open) * fv * u == 0) by (nonlinear_arith);
}

/// `a` is a new account: named `cookie`, holding `init_cash` in cash and
/// nothing else, with the built-in presets.
pub open spec fn is_fresh_account(a: AccountView, cookie: Seq<char>, init_cash: int, ty: AccountType) -> bool {
    &&& a.account_cookie == cookie
    &&& a.account_type == ty
    &&& a.init_cash == init_cash
    &&& a.user_cookie.len() == 0
    &&& a.portfolio_cookie.len() == 0
    &&& a.cash == init_cash
    &&& a.frozen_cash == 0
    &&& a.close_pnl == 0
    &&& a.commission_total == 0
    &&& a.tax_total == 0
    &&& a.positions == Map::<Seq<char>, PositionView>::empty()
    &&& a.position_keys.len() == 0
    &&& a.position_list.len() == 0
    &&& a.orders == Map::<Seq<char>, OrderView>::empty()
    &&& a.order_keys.len() == 0
    &&& a.order_list.len() == 0
    &&& a.frozen_by_order == Map::<Seq<char>, i128>::empty()
    &&& a.market_prices == Map::<Seq<char>, i64>::empty()
    &&& crate::preset::default_presets(a.presets)
}

/// `q` is the QIFI snapshot of `a`: every non-empty position and every
/// order recorded, and the money figures, with balance and available
/// money derived.
pub open spec fn qifi_snapshot_of(q: crate::qifi::Qifi, a: AccountView) -> bool {
    let parts = crate::qifi::Account {
        static_balance: a.init_cash,
        margin: a.margin() as i128,
        frozen_margin: a.frozen_cash,
        position_profit: a.float_pnl() as i128,
        float_profit: a.float_pnl() as i128,
        close_profit: a.close_pnl,
        commission: a.commission_total,
        tax: a.tax_total,
        ..crate::qifi::Account::spec_default()
    };
    &&& q.wf()
    &&& q.trades.map() == Map::<Seq<char>, crate::qifi::Trade>::empty()
    &&& q.account_cookie@ == a.account_cookie
    &&& q.portfolio@ == a.portfolio_cookie
    &&& q.investor_name@ == a.user_cookie
    &&& q.money == a.init_cash
    &&& q.source@ == "hiquant-rs"@
    &&& forall|k: Seq<char>|
        #[trigger] q.positions.map().contains_key(k) <==> (a.positions.contains_key(k) && !a.positions[k].is_empty())
    &&& forall|k: Seq<char>|
        #[trigger] q.positions.map().contains_key(k) ==> position_record_of(q.positions.map()[k], a.positions[k])
    &&& forall|k: Seq<char>| #[trigger] q.orders.map().contains_key(k) <==> a.orders.contains_key(k)
    &&& forall|k: Seq<char>| #[trigger] q.orders.map().contains_key(k) ==> order_record_of(q.orders.map()[k], a.orders[k])
    &&& q.accounts == (crate::qifi::Account {
        balance: parts.derived_balance() as i128,
        available: (parts.derived_balance() - parts.margin - parts.frozen_margin) as i128,
        ..parts
    })
}

impl AccountView {
    /// The account after a price of `code` arrives at the time `datetime`:
    /// the price recorded, and its position (if any) revalued.
    pub open spec fn after_price(self, code: Seq<char>, price: int, datetime: Seq<char>) -> AccountView {
        let a = AccountView { market_prices: self.market_prices.insert(code, price as i64), ..self };
        if self.positions.contains_key(code) {
            a.put_position(
                code,
                PositionView { lastest_price: price as i64, lastest_datetime: datetime, ..self.positions[code] },
            )
        } else {
            a
        }
    }

    /// The account at the end of the day: every position settled.
    pub open spec fn settled(self) -> AccountView {
        AccountView {
            positions: self.positions.map_values(|p: PositionView| p.after_settle()),
            position_list: self.position_list.map_values(|p: PositionView| p.after_settle()),
            ..self
        }
    }

    pub open spec fn available(self) -> int {
        self.cash - self.frozen_cash
    }

    pub open spec fn market_value(self) -> int {
        sum_market_value(self.position_list)
    }

    pub open spec fn margin(self) -> int {
        sum_margin(self.position_list)
    }

    pub open spec fn float_pnl(self) -> int {
        sum_float_profit(self.position_list)
    }

    /// Cash plus the market value of positions plus their floating profit.
    pub open spec fn total_value(self) -> int {
        self.cash + self.market_value() + self.float_pnl()
    }

    pub open spec fn preset_for(self, code: Seq<char>) -> PresetView {
        resolve_preset(self.presets, code)
    }

    /// The position of `code`, or a fresh one.
    pub open spec fn position_or_empty(self, code: Seq<char>) -> PositionView {
        if self.positions.contains_key(code) {
            self.positions[code]
        } else {
            crate::position::empty_position(code)
        }
    }

    /// The position of `code` with its preset refreshed.
    pub open spec fn position_with_preset(self, code: Seq<char>) -> PositionView {
        PositionView { preset: self.preset_for(code), ..self.position_or_empty(code) }
    }

    /// The account with `p` stored as the position of `code`.
    pub open spec fn put_position(self, code: Seq<char>, p: PositionView) -> AccountView {
        let (keys, list) = put_entry(self.position_keys, self.position_list, code, p);
        AccountView {
            positions: self.positions.insert(code, p),
            position_keys: keys,
            position_list: list,
            ..self
        }
    }

    /// The account with `o` stored under `id`.
    pub open spec fn put_order(self, id: Seq<char>, o: OrderView) -> AccountView {
        let (keys, list) = put_entry(self.order_keys, self.order_list, id, o);
        AccountView { orders: self.orders.insert(id, o), order_keys: keys, order_list: list, ..self }
    }

    /// Cash an order of `side` holds back: value and fee for a buy, margin
    /// for a short opening; none for a closing side, which freezes volume.
    pub open spec fn cash_to_freeze(self, side: OrderSide, code: Seq<char>, volume: int, price: int) -> Option<int> {
        let preset = self.preset_for(code);
        match side {
            OrderSide::Buy | OrderSide::BuyOpen => Some(preset.frozen_money(price, volume)),
            OrderSide::SellOpen => Some(preset.margin(price, volume)),
            _ => None,
        }
    }

    /// Placing stays within the representable range.
    pub open spec fn place_in_range(self, side: OrderSide, code: Seq<char>, volume: int, price: int) -> bool {
        let dir = side.spec_direction_offset().0;
        &&& trade_in_range(price, volume)
        &&& (self.positions.contains_key(code) || self.position_list.len() < MAX_POSITIONS)
        &&& (self.cash_to_freeze(side, code, volume, price) is None ==> self.position_with_preset(
            code,
        ).freeze_fits(dir, volume))
    }

    /// The risk check: enough available cash for what a cash side holds
    /// back, enough available volume for what a closing side closes.
    pub open spec fn place_passes_risk(self, side: OrderSide, code: Seq<char>, volume: int, price: int) -> bool {
        let pos = self.position_with_preset(code);
        match self.cash_to_freeze(side, code, volume, price) {
            Some(a) => self.available() >= a,
            None => if side.spec_direction_offset().0 is Buy {
                pos.avail_short() >= volume
            } else {
                pos.avail_long() >= volume
            },
        }
    }

    pub open spec fn place_risk_message(self, side: OrderSide, code: Seq<char>, volume: int, price: int) -> Seq<char> {
        let pos = self.position_with_preset(code);
        let preset = self.preset_for(code);
        match side {
            OrderSide::Buy | OrderSide::BuyOpen => money_shortfall(
                "insufficient cash: available "@,
                self.available(),
                preset.frozen_money(price, volume),
            ),
            OrderSide::SellOpen => money_shortfall(
                "insufficient cash for margin: available "@,
                self.available(),
                preset.margin(price, volume),
            ),
            OrderSide::BuyClose => volume_shortfall(
                "insufficient short position: avail "@,
                pos.avail_short(),
                volume,
            ),
            OrderSide::Sell | OrderSide::SellClose => volume_shortfall(
                "insufficient long position: avail "@,
                pos.avail_long(),
                volume,
            ),
        }
    }

    /// The error placing an order gives, or none when it is accepted.
    pub open spec fn place_error(self, side: OrderSide, code: Seq<char>, volume: int, price: int) -> Option<
        (ErrorKind, Seq<char>),
    > {
        if volume <= 0 {
            Some((ErrorKind::Order, "volume must be positive"@))
        } else if price < 0 {
            Some((ErrorKind::Order, "price must be non-negative"@))
        } else if !self.place_in_range(side, code, volume, price) {
            Some((ErrorKind::InvalidArgument, "value out of range"@))
        } else if !self.place_passes_risk(side, code, volume, price) {
            Some((ErrorKind::RiskCheck, self.place_risk_message(side, code, volume, price)))
        } else {
            None
        }
    }

    /// The account after a refused placement: a failed risk check stores
    /// the position with its refreshed preset; other refusals change
    /// nothing.
    pub open spec fn after_place_error(self, side: OrderSide, code: Seq<char>, volume: int, price: int) -> AccountView {
        if volume > 0 && price >= 0 && self.place_in_range(side, code, volume, price) {
            self.put_position(code, self.position_with_preset(code))
        } else {
            self
        }
    }

    /// The account after accepting order `o`: cash or volume frozen, the
    /// position stored with its refreshed preset, the order recorded.
    pub open spec fn after_place(self, side: OrderSide, code: Seq<char>, volume: int, price: int, o: OrderView) -> AccountView {
        let pos = self.position_with_preset(code);
        let dir = side.spec_direction_offset().0;
        match self.cash_to_freeze(side, code, volume, price) {
            Some(a) => AccountView {
                frozen_cash: (self.frozen_cash + a) as i128,
                frozen_by_order: self.frozen_by_order.insert(o.order_id, a as i128),
                ..self.put_position(code, pos)
            }.put_order(o.order_id, o),
            None => self.put_position(code, pos.after_freeze(dir, volume).0).put_order(o.order_id, o),
        }
    }
}

impl AccountView {
    /// Cancelling keeps every number in range.
    pub open spec fn cancel_in_range(self, id: Seq<char>) -> bool {
        let o = self.orders[id];
        &&& (self.frozen_by_order.contains_key(id) ==> acc_ok(self.frozen_cash - self.frozen_by_order[id]))
        &&& (self.positions.contains_key(o.instrument_id) ==> self.positions[o.instrument_id].unfreeze_fits(
            o.direction,
            o.volume_left as int,
        ))
    }

    /// The error cancelling order `id` gives, or none when it succeeds.
    pub open spec fn cancel_error(self, id: Seq<char>) -> Option<(ErrorKind, Seq<char>)> {
        if !self.orders.contains_key(id) {
            Some((ErrorKind::Order, "order not found: "@ + id))
        } else if !self.orders[id].status.spec_is_active() {
            Some((ErrorKind::Order, "order cannot be cancelled: status "@ + self.orders[id].status.spec_debug_name()))
        } else if !self.cancel_in_range(id) {
            Some((ErrorKind::InvalidArgument, "value out of range"@))
        } else {
            None
        }
    }

    /// The account after cancelling order `id`: the order is cancelled,
    /// the cash it held back is released, and the volume it left unfilled
    /// is unfrozen in its position.
    pub open spec fn after_cancel(self, id: Seq<char>) -> AccountView {
        let o = self.orders[id];
        let a1 = self.put_order(id, OrderView { status: OrderStatus::Cancelled, ..o });
        let a2 = if self.frozen_by_order.contains_key(id) {
            AccountView {
                frozen_cash: (self.frozen_cash - self.frozen_by_order[id]) as i128,
                frozen_by_order: self.frozen_by_order.remove(id),
                ..a1
            }
        } else {
            a1
        };
        if self.positions.contains_key(o.instrument_id) {
            a2.put_position(
                o.instrument_id,
                self.positions[o.instrument_id].after_unfreeze(o.direction, o.volume_left as int),
            )
        } else {
            a2
        }
    }

    /// The position of a fill's instrument after unfreezing the filled
    /// volume, before the deal is booked.
    pub open spec fn fill_unfrozen(self, id: Seq<char>, fv: int) -> PositionView {
        let o = self.orders[id];
        self.position_with_preset(o.instrument_id).after_unfreeze(o.direction, fv)
    }

    /// Money effects of filling `fv` of order `id` at `fp` (see
    /// `fill_money_of`).
    pub open spec fn fill_money(self, id: Seq<char>, fv: int, fp: int) -> (int, int, int, int, int) {
        let o = self.orders[id];
        let pos = self.fill_unfrozen(id, fv);
        fill_money_of(self.preset_for(o.instrument_id), o.direction, o.offset, fv, fp, pos.open_price_long as int, pos.open_price_short as int)
    }

    /// Cash released from what order `id` holds back when `fv` is filled
    /// at `fp`: all of it once the fill finishes the order, else the
    /// filled share of it, truncated toward zero.
    pub open spec fn fill_release(self, id: Seq<char>, fv: int, fp: int) -> int {
        let o = self.orders[id];
        if o.updated(fv, fp, o.trade_time).status.spec_is_finished() {
            self.frozen_by_order[id] as int
        } else {
            div_trunc(self.frozen_by_order[id] * fv, o.volume_orign as int)
        }
    }

    /// Filling keeps every number in range.
    pub open spec fn fill_in_range(self, id: Seq<char>, fv: int, fp: int) -> bool {
        let o = self.orders[id];
        let finished = o.updated(fv, fp, o.trade_time).status.spec_is_finished();
        let (commission, tax, pnl, recover, outlay) = self.fill_money(id, fv, fp);
        &&& o.update_fits(fv, fp)
        &&& (self.positions.contains_key(o.instrument_id) || self.position_list.len() < MAX_POSITIONS)
        &&& self.position_with_preset(o.instrument_id).unfreeze_fits(o.direction, fv)
        &&& self.fill_unfrozen(id, fv).deal_fits(o.direction, o.offset, fv, fp)
        &&& (self.frozen_by_order.contains_key(id) ==> {
            &&& acc_ok(self.frozen_cash - self.fill_release(id, fv, fp))
            &&& (!finished ==> -ORDER_FROZEN_LIMIT <= self.frozen_by_order[id] - self.fill_release(id, fv, fp)
                <= ORDER_FROZEN_LIMIT)
        })
        &&& acc_ok(self.cash - (commission + tax) + recover - outlay)
        &&& acc_ok(self.close_pnl + pnl)
        &&& acc_ok(self.commission_total + commission)
        &&& acc_ok(self.tax_total + tax)
    }

    /// The error a fill report for order `id` gives, or none.
    pub open spec fn fill_error(self, id: Seq<char>, fv: int, fp: int) -> Option<(ErrorKind, Seq<char>)> {
        if !self.orders.contains_key(id) {
            Some((ErrorKind::Order, "order not found: "@ + id))
        } else if !self.orders[id].status.spec_is_active() {
            Some((ErrorKind::Order, "order not active: status "@ + self.orders[id].status.spec_debug_name()))
        } else if !self.fill_in_range(id, fv, fp) {
            Some((ErrorKind::InvalidArgument, "value out of range"@))
        } else {
            None
        }
    }

    /// The account after filling `fv` of order `id` at `fp`, with the
    /// clock texts the order and the position record: the order updated;
    /// the filled share of its frozen cash released (all of the entry
    /// dropped once the order is finished); the position unfrozen and the
    /// deal booked; fees and taxes paid; on a close the profit realized
    /// and the value returned to cash; on an open the value (stocks) or
    /// the margin (futures) taken from cash.
    pub open spec fn after_fill(self, id: Seq<char>, fv: int, fp: int, trade_time: Seq<char>, datetime: Seq<char>) -> AccountView {
        let o = self.orders[id];
        let o2 = o.updated(fv, fp, trade_time);
        let (commission, tax, pnl, recover, outlay) = self.fill_money(id, fv, fp);
        let pos = self.fill_unfrozen(id, fv).after_deal(o.direction, o.offset, fv, fp, datetime);
        let a1 = self.put_order(id, o2);
        let a2 = if self.frozen_by_order.contains_key(id) {
            let frozen = self.frozen_by_order[id];
            let release = self.fill_release(id, fv, fp);
            AccountView {
                frozen_cash: (self.frozen_cash - release) as i128,
                frozen_by_order: if o2.status.spec_is_finished() {
                    self.frozen_by_order.remove(id)
                } else {
                    self.frozen_by_order.insert(id, (frozen - release) as i128)
                },
                ..a1
            }
        } else {
            a1
        };
        let a3 = a2.put_position(o.instrument_id, pos);
        AccountView {
            commission_total: (self.commission_total + commission) as i128,
            tax_total: (self.tax_total + tax) as i128,
            cash: (self.cash - (commission + tax) + recover - outlay) as i128,
            close_pnl: (self.close_pnl + pnl) as i128,
            ..a3
        }
    }
}

impl View for Account {
    type V = AccountView;

    closed spec fn view(&self) -> AccountView {
        AccountView {
            account_cookie: self.account_cookie@,
            user_cookie: self.user_cookie@,
            portfolio_cookie: self.portfolio_cookie@,
            account_type: self.account_type,
            init_cash: self.init_cash,
            cash: self.cash,
            frozen_cash: self.frozen_cash,
            close_pnl: self.close_pnl,
            commission_total: self.commission_total,
            tax_total: self.tax_total,
            positions: self.positions.map().map_values(|p: Position| p@),
            position_keys: self.positions.key_seq(),
            position_list: pviews(self.positions.val_seq()),
            orders: self.orders.map().map_values(|o: Order| o@),
            order_keys: self.orders.key_seq(),
            order_list: oviews(self.orders.val_seq()),
            frozen_by_order: self.frozen_by_order.map(),
            market_prices: self.market_prices.map(),
            presets: self.market_preset.presets.map(),
        }
    }
}

impl Account {
    /// The account's name.
    pub fn cookie(&self) -> (r: String)
        ensures
            r@ == self@.account_cookie,
    {
        self.account_cookie.clone()
    }

    /// Internal consistency and every number within range.
    pub closed spec fn wf(&self) -> bool {
        &&& self.positions.wf()
        &&& self.orders.wf()
        &&& self.frozen_by_order.wf()
        &&& self.market_prices.wf()
        &&& self.market_preset.wf()
        &&& self.positions.val_seq().len() <= MAX_POSITIONS
        &&& all_in_range(pviews(self.positions.val_seq()))
        &&& forall|k: Seq<char>| #[trigger] self.positions.map().contains_key(k) ==> self.positions.map()[k].code@ == k
        &&& acc_ok(self.init_cash as int)
        &&& forall|k: Seq<char>| #[trigger] self.orders.map().contains_key(k) ==> {
            &&& self.orders.map()[k]@.in_range()
            &&& self.orders.map()[k].volume_orign > 0
            &&& self.orders.map()[k].order_id@ == k
        }
        &&& forall|k: Seq<char>| #[trigger] self.frozen_by_order.map().contains_key(k) ==> -ORDER_FROZEN_LIMIT <= self.frozen_by_order.map()[k] <= ORDER_FROZEN_LIMIT
        &&& acc_ok(self.cash as int)
        &&& acc_ok(self.frozen_cash as int)
        &&& acc_ok(self.close_pnl as int)
        &&& acc_ok(self.commission_total as int)
        &&& acc_ok(self.tax_total as int)
    }

    /// What a well-formed account shows of itself: every money figure in
    /// range, every code resolving to a sound preset, and the position of
    /// every code, with that preset, in range.
    pub proof fn lemma_wf(&self)
        requires
            self.wf(),
        ensures
            acc_ok(self@.init_cash as int),
            acc_ok(self@.cash as int),
            acc_ok(self@.frozen_cash as int),
            acc_ok(self@.close_pnl as int),
            acc_ok(self@.commission_total as int),
            acc_ok(self@.tax_total as int),
            forall|code: Seq<char>| #[trigger] self@.preset_for(code).wf(),
            forall|code: Seq<char>| #[trigger] self@.position_with_preset(code).in_range(),
    {
        self.positions.lemma_wf();
        assert forall|code: Seq<char>| #[trigger] self@.preset_for(code).wf() by {
            self.market_preset.lemma_resolve_wf(code);
        }
        assert forall|code: Seq<char>| #[trigger] self@.position_with_preset(code).in_range() by {
            self.market_preset.lemma_resolve_wf(code);
            if self@.positions.contains_key(code) {
                let i = choose|i: int| 0 <= i < self.positions.key_seq().len() && #[trigger] self.positions.key_seq()[i] == code;
                assert(pviews(self.positions.val_seq())[i] == self.positions.val_seq()[i]@);
            }
        }
    }

    /// A new account holding `init_cash`, with the built-in presets.
    pub fn new(account_cookie: String, init_cash: Amount, ty: AccountType) -> (r: Account)
        requires
            acc_ok(init_cash as int),
        ensures
            r.wf(),
            is_fresh_account(r@, account_cookie@, init_cash as int, ty),
    {
        let presets = MarketPreset::with_defaults();
        let r = Account {
            account_cookie,
            user_cookie: String::new(),
            portfolio_cookie: String::new(),
            account_type: ty,
            init_cash,
            cash: init_cash,
            frozen_cash: 0,
            close_pnl: 0,
            commission_total: 0,
            tax_total: 0,
            positions: StrMap::new(),
            orders: StrMap::new(),
            frozen_by_order: StrMap::new(),
            market_prices: StrMap::new(),
            market_preset: presets,
        };
        proof {
            assert(r@.positions =~= Map::<Seq<char>, PositionView>::empty());
            assert(r@.orders =~= Map::<Seq<char>, OrderView>::empty());
            assert(r@.position_list =~= Seq::<PositionView>::empty());
            assert(r@.order_list =~= Seq::<OrderView>::empty());
            assert(r@.market_prices =~= Map::<Seq<char>, i64>::empty());
            assert(r@.frozen_by_order =~= Map::<Seq<char>, i128>::empty());
        }
        r
    }

    pub fn new_stock(account_cookie: String, init_cash: Amount) -> (r: Account)
        requires
            acc_ok(init_cash as int),
        ensures
            r.wf(),
            is_fresh_account(r@, account_cookie@, init_cash as int, AccountType::Stock),
    {
        Self::new(account_cookie, init_cash, AccountType::Stock)
    }

    pub fn new_future(account_cookie: String, init_cash: Amount) -> (r: Account)
        requires
            acc_ok(init_cash as int),
        ensures
            r.wf(),
            is_fresh_account(r@, account_cookie@, init_cash as int, AccountType::Future),
    {
        Self::new(account_cookie, init_cash, AccountType::Future)
    }

    /// A new account named by a random UUID.
    pub fn create_with_uuid(init_cash: Amount, ty: AccountType) -> (r: Account)
        requires
            acc_ok(init_cash as int),
        ensures
            r.wf(),
            r@.account_cookie.len() == 36,
            is_fresh_account(r@, r@.account_cookie, init_cash as int, ty),
    {
        Self::new(generate_uuid(), init_cash, ty)
    }

    pub fn cash(&self) -> (r: Amount)
        ensures
            r == self@.cash,
    {
        self.cash
    }

    pub fn frozen_cash(&self) -> (r: Amount)
        ensures
            r == self@.frozen_cash,
    {
        self.frozen_cash
    }

    pub fn available_cash(&self) -> (r: Amount)
        requires
            self.wf(),
        ensures
            r == self@.available(),
    {
        self.cash - self.frozen_cash
    }

    pub fn close_pnl(&self) -> (r: Amount)
        ensures
            r == self@.close_pnl,
    {
        self.close_pnl
    }

    pub fn commission_total(&self) -> (r: Amount)
        ensures
            r == self@.commission_total,
    {
        self.commission_total
    }

    /// Totals over all positions.
    pub fn position_stats(&self) -> (r: PositionStats)
        requires
            self.wf(),
        ensures
            r.total_market_value == self@.market_value(),
            r.total_margin == self@.margin(),
            r.total_float_profit == self@.float_pnl(),
            r.total_position_profit == crate::position::sum_position_profit(self@.position_list),
            r.position_count == count_nonempty(self@.position_list),
    {
        PositionStats::from_positions(self.positions.values().as_slice())
    }

    pub fn market_value(&self) -> (r: Amount)
        requires
            self.wf(),
        ensures
            r == self@.market_value(),
    {
        self.position_stats().total_market_value
    }

    pub fn margin(&self) -> (r: Amount)
        requires
            self.wf(),
        ensures
            r == self@.margin(),
    {
        self.position_stats().total_margin
    }

    pub fn float_pnl(&self) -> (r: Amount)
        requires
            self.wf(),
        ensures
            r == self@.float_pnl(),
    {
        self.position_stats().total_float_profit
    }

    pub fn total_value(&self) -> (r: Amount)
        requires
            self.wf(),
        ensures
            r == self@.total_value(),
    {
        let s = self.position_stats();
        proof { lemma_stats_bound(pviews(self.positions.val_seq())); }
        self.cash + s.total_market_value + s.total_float_profit
    }

    /// A summary of the account's totals.
    pub fn summary(&self) -> (r: AccountSummary)
        requires
            self.wf(),
        ensures
            r.account_cookie@ == self@.account_cookie,
            r.init_cash == self@.init_cash,
            r.cash == self@.cash,
            r.frozen_cash == self@.frozen_cash,
            r.available == self@.available(),
            r.market_value == self@.market_value(),
            r.margin == self@.margin(),
            r.total_value == self@.total_value(),
            r.float_pnl == self@.float_pnl(),
            r.close_pnl == self@.close_pnl,
            r.position_count == count_nonempty(self@.position_list),
            r.order_count == self@.order_list.len(),
    {
        let s = self.position_stats();
        proof { lemma_stats_bound(pviews(self.positions.val_seq())); }
        AccountSummary {
            account_cookie: self.account_cookie.clone(),
            init_cash: self.init_cash,
            cash: self.cash,
            frozen_cash: self.frozen_cash,
            available: self.cash - self.frozen_cash,
            market_value: s.total_market_value,
            margin: s.total_margin,
            total_value: self.cash + s.total_market_value + s.total_float_profit,
            float_pnl: s.total_float_profit,
            close_pnl: self.close_pnl,
            position_count: s.position_count,
            order_count: self.orders.len(),
        }
    }
}

fn value_out_of_range() -> (r: HiquantError)
    ensures
        r@ == (ErrorKind::InvalidArgument, "value out of range"@),
{
    HiquantError::InvalidArgument(String::from_str("value out of range"))
}

fn money_shortfall_text(prefix: &str, have: i128, need: i128) -> (r: String)
    requires
        -0x100_0000_0000_0000_0000_0000_0000_0000 <= have <= 0x100_0000_0000_0000_0000_0000_0000_0000,
        -0x100_0000_0000_0000_0000_0000_0000_0000 <= need <= 0x100_0000_0000_0000_0000_0000_0000_0000,
    ensures
        r@ == money_shortfall(prefix@, have as int, need as int),
{
    let mut v: Vec<char> = Vec::new();
    push_str_chars(&mut v, prefix);
    push_fixed2(&mut v, have);
    push_str_chars(&mut v, " < need ");
    push_fixed2(&mut v, need);
    assert(v@ =~= money_shortfall(prefix@, have as int, need as int));
    string_from_chars(v)
}

fn volume_shortfall_text(prefix: &str, have: i64, need: i64) -> (r: String)
    ensures
        r@ == volume_shortfall(prefix@, have as int, need as int),
{
    let mut v: Vec<char> = Vec::new();
    push_str_chars(&mut v, prefix);
    push_sdec(&mut v, have);
    push_str_chars(&mut v, " < need ");
    push_sdec(&mut v, need);
    assert(v@ =~= volume_shortfall(prefix@, have as int, need as int));
    string_from_chars(v)
}

fn trade_in_range_exec(price: Price, volume: Volume) -> (r: bool)
    ensures
        r == trade_in_range(price as int, volume as int),
{
    -MAX_PRICE <= price && price <= MAX_PRICE && -MAX_VOLUME <= volume && volume <= MAX_VOLUME
}

/// What a buy or a short opening holds back is never negative and stays
/// within the bound kept per order.
proof fn lemma_freeze_amounts(preset: PresetView, price: int, volume: int)
    requires
        preset.wf(),
        trade_in_range(price, volume),
        price >= 0,
        volume > 0,
    ensures
        0 <= preset.frozen_money(price, volume) <= ORDER_FROZEN_LIMIT,
        0 <= preset.margin(price, volume) <= ORDER_FROZEN_LIMIT,
{
    let u = preset.unit_table as int;
    crate::types::lemma_trade_amount_bound(price, volume, u);
    assert(price * volume * u >= 0) by (nonlinear_arith)
        requires price >= 0, volume > 0, u >= 1;
    let mv = preset.market_value(price, volume);
    assert(mv == price * volume * u);
    assert(0 <= mv <= MAX_TRADE_AMOUNT);
    crate::types::lemma_ppm_bound(mv, preset.buy_fee_ratio as int, MAX_TRADE_AMOUNT as int);
    crate::types::lemma_ppm_shrinks(mv, preset.margin_ratio as int);
    let fee = crate::types::ppm_of(mv, preset.buy_fee_ratio as int);
    assert(0 <= preset.commission(mv) <= MAX_TRADE_AMOUNT * 17);
    assert(preset.frozen_money(price, volume) == mv + preset.commission(mv));
    assert(preset.margin(price, volume) == crate::types::ppm_of(mv, preset.margin_ratio as int));
    assert(MAX_TRADE_AMOUNT * 18 <= ORDER_FROZEN_LIMIT);
    assert(0 <= preset.frozen_money(price, volume) <= MAX_TRADE_AMOUNT * 18);
}

proof fn lemma_put_entry_positions(keys: Seq<Seq<char>>, vals: Seq<Position>, k: Seq<char>, v: Position)
    requires
        keys.len() == vals.len(),
    ensures
        put_entry(keys, pviews(vals), k, v@) == (
            put_entry(keys, vals, k, v).0,
            pviews(put_entry(keys, vals, k, v).1),
        ),
{
    if keys.contains(k) {
        assert(pviews(vals.update(keys.index_of(k), v)) =~= pviews(vals).update(keys.index_of(k), v@));
    } else {
        assert(pviews(vals.push(v)) =~= pviews(vals).push(v@));
    }
}

proof fn lemma_put_entry_orders(keys: Seq<Seq<char>>, vals: Seq<Order>, k: Seq<char>, v: Order)
    requires
        keys.len() == vals.len(),
    ensures
        put_entry(keys, oviews(vals), k, v@) == (
            put_entry(keys, vals, k, v).0,
            oviews(put_entry(keys, vals, k, v).1),
        ),
{
    if keys.contains(k) {
        assert(oviews(vals.update(keys.index_of(k), v)) =~= oviews(vals).update(keys.index_of(k), v@));
    } else {
        assert(oviews(vals.push(v)) =~= oviews(vals).push(v@));
    }
}

impl Account {
    /// Stores `pos` as the position of `code`, in place when `idx` finds it.
    fn store_position(&mut self, code: &str, idx: Option<usize>, pos: Position)
        requires
            old(self).wf(),
            pos@.in_range(),
            pos@.code == code@,
            match idx {
                Some(i) => i < old(self).positions.val_seq().len() && old(self).positions.key_seq()[i as int] == code@,
                None => !old(self).positions.map().contains_key(code@) && old(self).positions.val_seq().len()
                    < MAX_POSITIONS,
            },
        ensures
            final(self).wf(),
            final(self)@ == old(self)@.put_position(code@, pos@),
            final(self).account_cookie == old(self).account_cookie,
    {
        let ghost p = pos;
        proof {
            self.positions.lemma_wf();
            old(self).positions.lemma_contains(code@);
            lemma_put_entry_positions(self.positions.key_seq(), self.positions.val_seq(), code@, pos);
        }
        match idx {
            Some(i) => {
                proof {
                    self.positions.lemma_index_of(i as int);
                }
                self.positions.replace_at(i, pos);
            },
            None => {
                self.positions.insert(String::from_str(code), pos);
            },
        }
        proof {
            self.positions.lemma_wf();
            let s = pviews(self.positions.val_seq());
            assert forall|j: int| 0 <= j < s.len() implies (#[trigger] s[j]).in_range() by {
                let os = pviews(old(self).positions.val_seq());
                if j < os.len() && s[j] != p@ {
                    assert(s[j] == os[j]);
                }
            }
            assert(self@.positions =~= old(self)@.positions.insert(code@, p@));
            assert(self@ =~= old(self)@.put_position(code@, p@));
        }
    }

    /// Places an order: checks it, holds back cash or volume, and records
    /// it. Returns the new order's id.
    pub fn place_order(&mut self, side: OrderSide, code: &str, volume: Volume, price: Price) -> (r: Result<String, HiquantError>)
        requires
            old(self).wf(),
        ensures
            final(self).wf(),
            match r {
                Ok(id) => {
                    &&& old(self)@.place_error(side, code@, volume as int, price as int) is None
                    &&& final(self)@.orders.contains_key(id@)
                    &&& final(self)@.orders[id@].order_id == id@
                    &&& is_new_order(final(self)@.orders[id@], old(self)@.account_cookie, code@, side, volume as int, price as int)
                    &&& final(self)@ == old(self)@.after_place(side, code@, volume as int, price as int, final(self)@.orders[id@])
                },
                Err(e) => {
                    &&& old(self)@.place_error(side, code@, volume as int, price as int) == Some(e@)
                    &&& final(self)@ == old(self)@.after_place_error(side, code@, volume as int, price as int)
                },
            },
    {
        if volume <= 0 {
            return Err(HiquantError::Order(String::from_str("volume must be positive")));
        }
        if price < 0 {
            return Err(HiquantError::Order(String::from_str("price must be non-negative")));
        }
        let preset = self.market_preset.get(code);
        let idx = self.positions.find(code);
        if !(trade_in_range_exec(price, volume) && (idx.is_some() || self.positions.len() < MAX_POSITIONS)) {
            return Err(value_out_of_range());
        }
        let mut pos = match idx {
            Some(i) => self.positions.value_at(i).clone(),
            None => Position::new(String::from_str(code)),
        };
        pos.preset = preset.clone();
        proof {
            self.positions.lemma_wf();
            if idx.is_some() {
                let i = idx.unwrap() as int;
                assert(pviews(self.positions.val_seq())[i] == self.positions.val_seq()[i]@);
            }
            lemma_freeze_amounts(preset@, price as int, volume as int);
        }
        assert(pos@ == self@.position_with_preset(code@));
        assert(pos@.in_range());
        let (dir, _off) = side.direction_offset();
        let cash_side = match side {
            OrderSide::Buy | OrderSide::BuyOpen | OrderSide::SellOpen => true,
            _ => false,
        };
        if !cash_side && !pos.freeze_fits(dir, volume) {
            return Err(value_out_of_range());
        }
        let avail = self.cash - self.frozen_cash;
        let mut frozen_amt: i128 = 0;
        match side {
            OrderSide::Buy | OrderSide::BuyOpen => {
                let need = preset.calc_frozenmoney(price, volume);
                if avail < need {
                    let msg = money_shortfall_text("insufficient cash: available ", avail, need);
                    self.store_position(code, idx, pos);
                    return Err(HiquantError::RiskCheck(msg));
                }
                frozen_amt = need;
            },
            OrderSide::SellOpen => {
                let need = preset.calc_margin(price, volume);
                if avail < need {
                    let msg = money_shortfall_text("insufficient cash for margin: available ", avail, need);
                    self.store_position(code, idx, pos);
                    return Err(HiquantError::RiskCheck(msg));
                }
                frozen_amt = need;
            },
            OrderSide::BuyClose => {
                let have = pos.volume_short_avaliable();
                if have < volume {
                    let msg = volume_shortfall_text("insufficient short position: avail ", have, volume);
                    self.store_position(code, idx, pos);
                    return Err(HiquantError::RiskCheck(msg));
                }
                pos.freeze_position(Direction::Buy, volume);
            },
            OrderSide::Sell | OrderSide::SellClose => {
                let have = pos.volume_long_avaliable();
                if have < volume {
                    let msg = volume_shortfall_text("insufficient long position: avail ", have, volume);
                    self.store_position(code, idx, pos);
                    return Err(HiquantError::RiskCheck(msg));
                }
                pos.freeze_position(Direction::Sell, volume);
            },
        }
        let order = OrderFactory::create(self.account_cookie.as_str(), code, side, volume, price);
        let oid = order.order_id.clone();
        let ghost s0 = self@;
        if cash_side {
            self.frozen_cash = self.frozen_cash + frozen_amt;
            self.frozen_by_order.insert(oid.clone(), frozen_amt);
        }
        let ghost s1 = self@;
        self.store_position(code, idx, pos);
        let ghost s2 = self@;
        let ghost ov = order@;
        proof {
            self.orders.lemma_wf();
            self.orders.lemma_contains(ov.order_id);
            lemma_put_entry_orders(self.orders.key_seq(), self.orders.val_seq(), ov.order_id, order);
        }
        self.orders.insert(oid.clone(), order);
        proof {
            assert(self@.orders =~= s2.orders.insert(ov.order_id, ov));
            assert(self@ =~= s2.put_order(ov.order_id, ov));
            assert(self@.orders[oid@] == ov);
        }
        Ok(oid)
    }

    /// A stock buy (see `place_order`).
    pub fn buy(&mut self, code: &str, volume: Volume, price: Price) -> (r: Result<String, HiquantError>)
        requires
            old(self).wf(),
        ensures
            final(self).wf(),
            match r {
                Ok(id) => {
                    &&& old(self)@.place_error(OrderSide::Buy, code@, volume as int, price as int) is None
                    &&& final(self)@.orders.contains_key(id@)
                    &&& final(self)@.orders[id@].order_id == id@
                    &&& is_new_order(final(self)@.orders[id@], old(self)@.account_cookie, code@, OrderSide::Buy, volume as int, price as int)
                    &&& final(self)@ == old(self)@.after_place(OrderSide::Buy, code@, volume as int, price as int, final(self)@.orders[id@])
                },
                Err(e) => {
                    &&& old(self)@.place_error(OrderSide::Buy, code@, volume as int, price as int) == Some(e@)
                    &&& final(self)@ == old(self)@.after_place_error(OrderSide::Buy, code@, volume as int, price as int)
                },
            },
    {
        self.place_order(OrderSide::Buy, code, volume, price)
    }

    /// A stock sell (see `place_order`).
    pub fn sell(&mut self, code: &str, volume: Volume, price: Price) -> (r: Result<String, HiquantError>)
        requires
            old(self).wf(),
        ensures
            final(self).wf(),
            match r {
                Ok(id) => {
                    &&& old(self)@.place_error(OrderSide::Sell, code@, volume as int, price as int) is None
                    &&& final(self)@.orders.contains_key(id@)
                    &&& final(self)@.orders[id@].order_id == id@
                    &&& is_new_order(final(self)@.orders[id@], old(self)@.account_cookie, code@, OrderSide::Sell, volume as int, price as int)
                    &&& final(self)@ == old(self)@.after_place(OrderSide::Sell, code@, volume as int, price as int, final(self)@.orders[id@])
                },
                Err(e) => {
                    &&& old(self)@.place_error(OrderSide::Sell, code@, volume as int, price as int) == Some(e@)
                    &&& final(self)@ == old(self)@.after_place_error(OrderSide::Sell, code@, volume as int, price as int)
                },
            },
    {
        self.place_order(OrderSide::Sell, code, volume, price)
    }
}

fn concat_text(a: &str, b: &str) -> (r: String)
    ensures
        r@ == a@ + b@,
{
    let mut v: Vec<char> = Vec::new();
    push_str_chars(&mut v, a);
    push_str_chars(&mut v, b);
    string_from_chars(v)
}

fn acc_ok_exec(x: i128) -> (r: bool)
    ensures
        r == acc_ok(x as int),
{
    -ACCOUNT_LIMIT <= x && x <= ACCOUNT_LIMIT
}

fn fill_money_exec(preset: &CodePreset, dir: Direction, off: Offset, fv: Volume, fp: Price, open_long: Price, open_short: Price) -> (r: (i128, i128, i128, i128, i128))
    requires
        preset@.wf(),
        trade_in_range(fp as int, fv as int),
        -MAX_PRICE <= open_long <= MAX_PRICE,
        -MAX_PRICE <= open_short <= MAX_PRICE,
    ensures
        ({
            let m = fill_money_of(preset@, dir, off, fv as int, fp as int, open_long as int, open_short as int);
            r.0 == m.0 && r.1 == m.1 && r.2 == m.2 && r.3 == m.3 && r.4 == m.4
        }),
        0 <= r.0 <= MAX_TRADE_AMOUNT * 68,
        -MAX_TRADE_AMOUNT * 17 <= r.1 <= MAX_TRADE_AMOUNT * 17,
        -AMOUNT_LIMIT <= r.2 <= AMOUNT_LIMIT,
        -MAX_TRADE_AMOUNT <= r.3 <= MAX_TRADE_AMOUNT,
        -MAX_TRADE_AMOUNT * 17 <= r.4 <= MAX_TRADE_AMOUNT * 17,
{
    let amount = preset.calc_marketvalue(fp, fv);
    let commission = preset.calc_commission(amount);
    proof {
        crate::types::lemma_ppm_bound(amount as int, preset.tax_ratio as int, MAX_TRADE_AMOUNT as int);
        crate::types::lemma_ppm_bound(amount as int, preset.margin_ratio as int, MAX_TRADE_AMOUNT as int);
    }
    let tax: i128 = match dir {
        Direction::Sell => mul_ppm(amount, preset.tax_ratio),
        Direction::Buy => 0,
    };
    match off {
        Offset::Open => {
            let outlay = if preset.is_stock {
                amount
            } else {
                preset.calc_margin(fp, fv)
            };
            (commission, tax, 0, 0, outlay)
        },
        _ => {
            let diff: i128 = match dir {
                Direction::Sell => fp as i128 - open_long as i128,
                Direction::Buy => open_short as i128 - fp as i128,
            };
            proof {
                let d = diff as int;
                let v = fv as int;
                let u = preset.unit_table as int;
                assert(-2 * MAX_PRICE * MAX_VOLUME <= d * v <= 2 * MAX_PRICE * MAX_VOLUME) by (nonlinear_arith)
                    requires -2 * MAX_PRICE <= d <= 2 * MAX_PRICE, -MAX_VOLUME <= v <= MAX_VOLUME;
                let dv = d * v;
                assert(-AMOUNT_LIMIT <= dv * u <= AMOUNT_LIMIT) by (nonlinear_arith)
                    requires -2 * MAX_PRICE * MAX_VOLUME <= dv <= 2 * MAX_PRICE * MAX_VOLUME, 1 <= u <= 0x1_0000;
            }
            let pnl = diff * (fv as i128) * (preset.unit_table as i128);
            (commission, tax, pnl, amount, 0)
        },
    }
}

/// `a * b / d` is `(a / d) * b + ((a % d) * b) / d` for a natural `a`
/// and `b` and a positive `d`.
proof fn lemma_share_split(a: int, b: int, d: int)
    requires
        a >= 0,
        b >= 0,
        d > 0,
    ensures
        (a * b) / d == (a / d) * b + ((a % d) * b) / d,
        0 <= (a % d) * b <= d * b,
        (a / d) * b <= (a * b) / d,
{
    let q = a / d;
    let m = a % d;
    vstd::arithmetic::div_mod::lemma_fundamental_div_mod(a, d);
    assert(a * b == (m * b) + (q * b) * d) by (nonlinear_arith)
        requires a == d * q + m;
    vstd::arithmetic::div_mod::lemma_hoist_over_denominator(m * b, q * b, d as nat);
    assert(0 <= m * b <= d * b) by (nonlinear_arith)
        requires 0 <= m < d, b >= 0;
    assert(0 <= (m * b) / d) by (nonlinear_arith)
        requires m * b >= 0, d > 0;
}

/// The filled share `fv / vo` of `frozen`, truncated toward zero, when it
/// is at most twice the bound kept per order; otherwise `None`.
fn release_exec(frozen: i128, fv: Volume, vo: Volume) -> (r: Option<i128>)
    requires
        -ORDER_FROZEN_LIMIT <= frozen <= ORDER_FROZEN_LIMIT,
        -MAX_VOLUME <= fv <= MAX_VOLUME,
        1 <= vo <= MAX_VOLUME,
    ensures
        match r {
            Some(x) => x == div_trunc(frozen * fv, vo as int) && -2 * ORDER_FROZEN_LIMIT <= x <= 2 * ORDER_FROZEN_LIMIT,
            None => !(-2 * ORDER_FROZEN_LIMIT <= div_trunc(frozen * fv, vo as int) <= 2 * ORDER_FROZEN_LIMIT),
        },
{
    let a: i128 = if frozen >= 0 { frozen } else { -frozen };
    let b: i128 = if fv >= 0 { fv as i128 } else { -(fv as i128) };
    let d: i128 = vo as i128;
    let ghost x = frozen * fv;
    proof {
        assert(x >= 0 ==> x == a * b) by (nonlinear_arith)
            requires a == (if frozen >= 0 { frozen as int } else { -(frozen as int) }), b == (if fv >= 0 { fv as int } else { -(fv as int) }), x == frozen * fv;
        assert(x < 0 ==> -x == a * b) by (nonlinear_arith)
            requires a == (if frozen >= 0 { frozen as int } else { -(frozen as int) }), b == (if fv >= 0 { fv as int } else { -(fv as int) }), x == frozen * fv;
        lemma_share_split(a as int, b as int, d as int);
        assert(div_trunc(x, d as int) == (if x >= 0 { (a * b) / (d as int) } else { -((a * b) / (d as int)) }));
    }
    if b == 0 {
        proof {
            assert(x == 0) by (nonlinear_arith)
                requires x == frozen * fv, fv == 0;
        }
        return Some(0);
    }
    let q = a / d;
    let m = a % d;
    let lim: i128 = 2 * ORDER_FROZEN_LIMIT;
    if q > lim / b {
        proof {
            assert(q * b > lim) by (nonlinear_arith)
                requires q >= lim / b + 1int, b > 0, lim > 0;
        }
        return None;
    }
    proof {
        assert(q * b <= lim) by (nonlinear_arith)
            requires q <= lim / b, b > 0, lim > 0;
        assert(d * b <= MAX_VOLUME * MAX_VOLUME) by (nonlinear_arith)
            requires 0 < d <= MAX_VOLUME, 0 < b <= MAX_VOLUME;
        assert((m * b) / (d as int) <= b) by (nonlinear_arith)
            requires 0 <= m * b <= d * b, d > 0;
    }
    let v = q * b + (m * b) / d;
    if v > lim {
        return None;
    }
    let neg = (frozen < 0 && fv > 0) || (frozen > 0 && fv < 0);
    proof {
        assert(neg == (x < 0)) by (nonlinear_arith)
            requires neg == ((frozen < 0 && fv > 0) || (frozen > 0 && fv < 0)), x == frozen * fv;
    }
    if neg {
        Some(-v)
    } else {
        Some(v)
    }
}

/// The checked effects of a fill, computed before the account changes.
struct FillPlan {
    idx: usize,
    order: Order,
    finished: bool,
    code: String,
    pidx: Option<usize>,
    pos: Position,
    has_frozen: bool,
    frozen_cash: i128,
    rest: i128,
    cash: i128,
    close_pnl: i128,
    commission_total: i128,
    tax_total: i128,
}

impl Account {
    /// Cancels an active order: releases the cash it holds back and
    /// unfreezes the volume it left unfilled.
    pub fn cancel_order(&mut self, order_id: &str) -> (r: Result<(), HiquantError>)
        requires
            old(self).wf(),
        ensures
            final(self).wf(),
            match r {
                Ok(()) => old(self)@.cancel_error(order_id@) is None && final(self)@ == old(self)@.after_cancel(order_id@),
                Err(e) => old(self)@.cancel_error(order_id@) == Some(e@) && final(self)@ == old(self)@,
            },
    {
        let idx = match self.orders.find(order_id) {
            Some(i) => i,
            None => {
                return Err(HiquantError::Order(concat_text("order not found: ", order_id)));
            },
        };
        proof {
            self.orders.lemma_wf();
        }
        let o = self.orders.value_at(idx);
        assert(self@.orders[order_id@] == o@);
        if !o.can_cancel() {
            return Err(
                HiquantError::Order(concat_text("order cannot be cancelled: status ", o.status.debug_name())),
            );
        }
        let dir = o.direction;
        let left = o.volume_left;
        let code = o.instrument_id.clone();
        let fidx = self.frozen_by_order.find(order_id);
        let mut released: i128 = 0;
        match fidx {
            Some(fi) => {
                released = *self.frozen_by_order.value_at(fi);
                if !acc_ok_exec(self.frozen_cash - released) {
                    return Err(value_out_of_range());
                }
            },
            None => {},
        }
        let pidx = self.positions.find(code.as_str());
        proof {
            self.positions.lemma_wf();
        }
        match pidx {
            Some(pi) => {
                assert(self@.positions[code@] == self.positions.val_seq()[pi as int]@);
                if !self.positions.value_at(pi).unfreeze_fits(dir, left) {
                    return Err(value_out_of_range());
                }
            },
            None => {},
        }
        let ghost s0 = self@;
        let mut o2 = self.orders.value_at(idx).clone();
        o2.cancel();
        proof {
            self.orders.lemma_index_of(idx as int);
            lemma_put_entry_orders(self.orders.key_seq(), self.orders.val_seq(), order_id@, o2);
        }
        let ghost ov2 = o2@;
        self.orders.replace_at(idx, o2);
        proof {
            assert(self@.orders =~= s0.orders.insert(order_id@, ov2));
            assert(self@ =~= s0.put_order(order_id@, ov2));
        }
        let ghost s1 = self@;
        match fidx {
            Some(_) => {
                self.frozen_cash = self.frozen_cash - released;
                self.frozen_by_order.remove(order_id);
            },
            None => {},
        }
        let ghost s2 = self@;
        match pidx {
            Some(pi) => {
                let mut p = self.positions.value_at(pi).clone();
                p.unfreeze_position(dir, left);
                self.store_position(code.as_str(), Some(pi), p);
            },
            None => {},
        }
        proof {
            assert(self@ =~= s0.after_cancel(order_id@));
        }
        Ok(())
    }

    /// Whether `p` is the checked plan of filling `fv` of order `id` at
    /// `fp`: the updated order, the booked position and the new totals.
    closed spec fn fill_plan_ok(&self, p: FillPlan, id: Seq<char>, fv: int, fp: int) -> bool {
        let o = self@.orders[id];
        let (commission, tax, pnl, recover, outlay) = self@.fill_money(id, fv, fp);
        &&& p.idx < self.orders.val_seq().len()
        &&& self.orders.key_seq()[p.idx as int] == id
        &&& p.order@ == o.updated(fv, fp, p.order@.trade_time)
        &&& p.order@.in_range()
        &&& p.order.volume_orign > 0
        &&& p.order.order_id@ == id
        &&& p.finished == p.order@.status.spec_is_finished()
        &&& p.code@ == o.instrument_id
        &&& match p.pidx {
            Some(i) => i < self.positions.val_seq().len() && self.positions.key_seq()[i as int] == p.code@,
            None => !self.positions.map().contains_key(p.code@) && self.positions.val_seq().len() < MAX_POSITIONS,
        }
        &&& p.pos@ == self@.fill_unfrozen(id, fv).after_deal(o.direction, o.offset, fv, fp, p.pos@.lastest_datetime)
        &&& p.pos@.in_range()
        &&& p.pos@.code == p.code@
        &&& p.has_frozen == self@.frozen_by_order.contains_key(id)
        &&& (p.has_frozen ==> {
            &&& p.frozen_cash == self@.frozen_cash - self@.fill_release(id, fv, fp)
            &&& p.rest == self@.frozen_by_order[id] - self@.fill_release(id, fv, fp)
            &&& (!p.finished ==> -ORDER_FROZEN_LIMIT <= p.rest <= ORDER_FROZEN_LIMIT)
        })
        &&& (!p.has_frozen ==> p.frozen_cash == self@.frozen_cash)
        &&& acc_ok(p.frozen_cash as int)
        &&& p.cash == self@.cash - (commission + tax) + recover - outlay
        &&& p.close_pnl == self@.close_pnl + pnl
        &&& p.commission_total == self@.commission_total + commission
        &&& p.tax_total == self@.tax_total + tax
        &&& acc_ok(p.cash as int)
        &&& acc_ok(p.close_pnl as int)
        &&& acc_ok(p.commission_total as int)
        &&& acc_ok(p.tax_total as int)
    }

    /// Checks a fill report and computes its effects, changing nothing.
    #[verifier::rlimit(80)]
    fn plan_fill(&self, order_id: &str, filled_volume: Volume, filled_price: Price) -> (r: Result<FillPlan, HiquantError>)
        requires
            self.wf(),
        ensures
            match r {
                Ok(p) => self@.fill_error(order_id@, filled_volume as int, filled_price as int) is None
                    && self.fill_plan_ok(p, order_id@, filled_volume as int, filled_price as int),
                Err(e) => self@.fill_error(order_id@, filled_volume as int, filled_price as int) == Some(e@),
            },
    {
        let idx = match self.orders.find(order_id) {
            Some(i) => i,
            None => {
                return Err(HiquantError::Order(concat_text("order not found: ", order_id)));
            },
        };
        proof {
            self.orders.lemma_wf();
            self.positions.lemma_wf();
        }
        let o = self.orders.value_at(idx);
        assert(self@.orders[order_id@] == o@);
        if !o.is_active() {
            return Err(HiquantError::Order(concat_text("order not active: status ", o.status.debug_name())));
        }
        let dir = o.direction;
        let off = o.offset;
        let vo = o.volume_orign;
        let code = o.instrument_id.clone();
        if !o.update_fits(filled_volume, filled_price) {
            return Err(value_out_of_range());
        }
        let mut o2 = o.clone();
        o2.update(filled_volume, filled_price);
        let finished = o2.is_finished();
        let preset = self.market_preset.get(code.as_str());
        let pidx = self.positions.find(code.as_str());
        if pidx.is_none() && self.positions.len() >= MAX_POSITIONS {
            return Err(value_out_of_range());
        }
        let mut pos = match pidx {
            Some(pi) => self.positions.value_at(pi).clone(),
            None => Position::new(code.clone()),
        };
        pos.preset = preset.clone();
        proof {
            if pidx.is_some() {
                let i = pidx.unwrap() as int;
                assert(pviews(self.positions.val_seq())[i] == self.positions.val_seq()[i]@);
            }
        }
        assert(pos@ == self@.position_with_preset(code@));
        if !pos.unfreeze_fits(dir, filled_volume) {
            return Err(value_out_of_range());
        }
        pos.unfreeze_position(dir, filled_volume);
        if !pos.deal_fits(dir, off, filled_volume, filled_price) {
            return Err(value_out_of_range());
        }
        let fidx = self.frozen_by_order.find(order_id);
        let mut new_frozen_cash: i128 = self.frozen_cash;
        let mut rest: i128 = 0;
        match fidx {
            Some(fi) => {
                let frozen = *self.frozen_by_order.value_at(fi);
                let release = if finished {
                    frozen
                } else {
                    match release_exec(frozen, filled_volume, vo) {
                        Some(x) => x,
                        None => {
                            return Err(value_out_of_range());
                        },
                    }
                };
                new_frozen_cash = self.frozen_cash - release;
                rest = frozen - release;
                if !acc_ok_exec(new_frozen_cash) || (!finished && !(-ORDER_FROZEN_LIMIT <= rest && rest
                    <= ORDER_FROZEN_LIMIT)) {
                    return Err(value_out_of_range());
                }
            },
            None => {},
        }
        let open_long = pos.open_price_long;
        let open_short = pos.open_price_short;
        let trade_id = generate_uuid();
        pos.receive_deal(trade_id.as_str(), dir, off, filled_volume, filled_price, now_rfc3339());
        let (commission, tax, pnl, recover, outlay) = fill_money_exec(
            &preset,
            dir,
            off,
            filled_volume,
            filled_price,
            open_long,
            open_short,
        );
        let new_cash = self.cash - (commission + tax) + recover - outlay;
        let new_pnl = self.close_pnl + pnl;
        let new_ct = self.commission_total + commission;
        let new_tt = self.tax_total + tax;
        if !(acc_ok_exec(new_cash) && acc_ok_exec(new_pnl) && acc_ok_exec(new_ct) && acc_ok_exec(new_tt)) {
            return Err(value_out_of_range());
        }
        Ok(
            FillPlan {
                idx,
                order: o2,
                finished,
                code,
                pidx,
                pos,
                has_frozen: fidx.is_some(),
                frozen_cash: new_frozen_cash,
                rest,
                cash: new_cash,
                close_pnl: new_pnl,
                commission_total: new_ct,
                tax_total: new_tt,
            },
        )
    }

    /// Books a fill of `filled_volume` at `filled_price` for an active
    /// order (see `AccountView::after_fill`).
    pub fn on_trade(&mut self, order_id: &str, filled_volume: Volume, filled_price: Price) -> (r: Result<(), HiquantError>)
        requires
            old(self).wf(),
        ensures
            final(self).wf(),
            match r {
                Ok(()) => {
                    let code = old(self)@.orders[order_id@].instrument_id;
                    &&& old(self)@.fill_error(order_id@, filled_volume as int, filled_price as int) is None
                    &&& final(self)@.orders.contains_key(order_id@)
                    &&& final(self)@.positions.contains_key(code)
                    &&& final(self)@ == old(self)@.after_fill(
                        order_id@,
                        filled_volume as int,
                        filled_price as int,
                        final(self)@.orders[order_id@].trade_time,
                        final(self)@.positions[code].lastest_datetime,
                    )
                },
                Err(e) => old(self)@.fill_error(order_id@, filled_volume as int, filled_price as int) == Some(e@)
                    && final(self)@ == old(self)@,
            },
    {
        let plan = match self.plan_fill(order_id, filled_volume, filled_price) {
            Ok(p) => p,
            Err(e) => {
                return Err(e);
            },
        };
        let ghost s0 = self@;
        let ghost ov2 = plan.order@;
        let ghost posv = plan.pos@;
        proof {
            self.orders.lemma_wf();
            self.orders.lemma_index_of(plan.idx as int);
            lemma_put_entry_orders(self.orders.key_seq(), self.orders.val_seq(), order_id@, plan.order);
        }
        let FillPlan { idx, order, finished, code, pidx, pos, has_frozen, frozen_cash, rest, cash, close_pnl, commission_total, tax_total } = plan;
        self.orders.replace_at(idx, order);
        proof {
            assert(self@.orders =~= s0.orders.insert(order_id@, ov2));
            assert(self@ =~= s0.put_order(order_id@, ov2));
        }
        if has_frozen {
            self.frozen_cash = frozen_cash;
            if finished {
                self.frozen_by_order.remove(order_id);
            } else {
                self.frozen_by_order.insert(String::from_str(order_id), rest);
            }
        }
        self.store_position(code.as_str(), pidx, pos);
        self.commission_total = commission_total;
        self.tax_total = tax_total;
        self.cash = cash;
        self.close_pnl = close_pnl;
        proof {
            assert(self@.orders[order_id@] == ov2);
            assert(self@.positions[code@] == posv);
            assert(self@ =~= s0.after_fill(order_id@, filled_volume as int, filled_price as int, ov2.trade_time, posv.lastest_datetime));
        }
        Ok(())
    }
}

pub open spec fn is_active_order(o: OrderView) -> bool {
    o.status.spec_is_active()
}

pub open spec fn is_filled_order(o: OrderView) -> bool {
    o.status == OrderStatus::Filled
}

impl Account {
    /// Records the latest price of `code` and revalues its position.
    pub fn update_market_data(&mut self, code: &str, price: Price)
        requires
            old(self).wf(),
            -MAX_PRICE <= price <= MAX_PRICE,
        ensures
            final(self).wf(),
            old(self)@.positions.contains_key(code@) ==> final(self)@.positions.contains_key(code@),
            final(self)@ == old(self)@.after_price(
                code@,
                price as int,
                if old(self)@.positions.contains_key(code@) {
                    final(self)@.positions[code@].lastest_datetime
                } else {
                    Seq::empty()
                },
            ),
    {
        let ghost s0 = self@;
        self.market_prices.insert(String::from_str(code), price);
        let ghost s1 = self@;
        assert(s1 =~= AccountView { market_prices: s0.market_prices.insert(code@, price), ..s0 });
        let idx = self.positions.find(code);
        proof {
            self.positions.lemma_wf();
        }
        match idx {
            Some(i) => {
                assert(self@.positions[code@] == self.positions.val_seq()[i as int]@);
                assert(pviews(self.positions.val_seq())[i as int] == self.positions.val_seq()[i as int]@);
                let mut p = self.positions.value_at(i).clone();
                p.on_price_change(price, now_rfc3339());
                let ghost pv = p@;
                self.store_position(code, Some(i), p);
                assert(self@.positions[code@] == pv);
            },
            None => {},
        }
    }

    /// All positions, in storage order.
    pub fn positions(&self) -> (r: Vec<Position>)
        ensures
            pviews(r@) == self@.position_list,
    {
        self.positions.values().clone()
    }

    pub fn position(&self, code: &str) -> (r: Option<Position>)
        requires
            self.wf(),
        ensures
            match r {
                Some(p) => self@.positions.contains_key(code@) && p@ == self@.positions[code@],
                None => !self@.positions.contains_key(code@),
            },
    {
        match self.positions.get(code) {
            Some(p) => Some(p.clone()),
            None => None,
        }
    }

    /// Whether a non-empty position of `code` is held.
    pub fn has_position(&self, code: &str) -> (r: bool)
        requires
            self.wf(),
        ensures
            r == (self@.positions.contains_key(code@) && !self@.positions[code@].is_empty()),
    {
        proof {
            self.positions.lemma_wf();
        }
        match self.positions.get(code) {
            Some(p) => {
                proof {
                    let i = choose|i: int| 0 <= i < self.positions.key_seq().len() && #[trigger] self.positions.key_seq()[i] == code@;
                    assert(pviews(self.positions.val_seq())[i] == p@);
                }
                !p.is_empty()
            },
            None => false,
        }
    }

    /// All orders, in storage order.
    pub fn orders(&self) -> (r: Vec<Order>)
        ensures
            oviews(r@) == self@.order_list,
    {
        self.orders.values().clone()
    }

    pub fn order(&self, order_id: &str) -> (r: Option<Order>)
        requires
            self.wf(),
        ensures
            match r {
                Some(o) => self@.orders.contains_key(order_id@) && o@ == self@.orders[order_id@],
                None => !self@.orders.contains_key(order_id@),
            },
    {
        match self.orders.get(order_id) {
            Some(o) => Some(o.clone()),
            None => None,
        }
    }

    /// Orders still active (pending or partly filled), in storage order.
    pub fn pending_orders(&self) -> (r: Vec<Order>)
        ensures
            oviews(r@) == self@.order_list.filter(|o: OrderView| is_active_order(o)),
    {
        let v = self.orders.values();
        let ghost s = oviews(v@);
        let mut out: Vec<Order> = Vec::new();
        let mut i: usize = 0;
        while i < v.len()
            invariant
                s == oviews(v@),
                i <= v@.len(),
                oviews(out@) == s.take(i as int).filter(|o: OrderView| is_active_order(o)),
            decreases v@.len() - i,
        {
            let o = &v[i];
            proof {
                reveal(Seq::filter);
                assert(s.take(i + 1).drop_last() =~= s.take(i as int));
                assert(s.take(i + 1).last() == o@);
            }
            if o.is_active() {
                out.push(o.clone());
                assert(oviews(out@) =~= s.take(i as int).filter(|o: OrderView| is_active_order(o)).push(o@));
            }
            i = i + 1;
        }
        assert(s.take(v@.len() as int) =~= s);
        out
    }

    /// Fully filled orders, in storage order.
    pub fn filled_orders(&self) -> (r: Vec<Order>)
        ensures
            oviews(r@) == self@.order_list.filter(|o: OrderView| is_filled_order(o)),
    {
        let v = self.orders.values();
        let ghost s = oviews(v@);
        let mut out: Vec<Order> = Vec::new();
        let mut i: usize = 0;
        while i < v.len()
            invariant
                s == oviews(v@),
                i <= v@.len(),
                oviews(out@) == s.take(i as int).filter(|o: OrderView| is_filled_order(o)),
            decreases v@.len() - i,
        {
            let o = &v[i];
            proof {
                reveal(Seq::filter);
                assert(s.take(i + 1).drop_last() =~= s.take(i as int));
                assert(s.take(i + 1).last() == o@);
            }
            if o.status == OrderStatus::Filled {
                out.push(o.clone());
                assert(oviews(out@) =~= s.take(i as int).filter(|o: OrderView| is_filled_order(o)).push(o@));
            }
            i = i + 1;
        }
        assert(s.take(v@.len() as int) =~= s);
        out
    }

    /// End of day for every position: today's volumes become earlier
    /// volumes.
    pub fn daily_settle(&mut self)
        requires
            old(self).wf(),
        ensures
            final(self).wf(),
            final(self)@ == old(self)@.settled(),
    {
        let ghost s0 = self@;
        let n: usize = self.positions.len();
        let mut i: usize = 0;
        proof {
            self.positions.lemma_wf();
        }
        while i < n
            invariant
                old(self).wf(),
                s0 == old(self)@,
                self.wf(),
                n == s0.position_list.len(),
                i <= n,
                self.positions.key_seq() == s0.position_keys,
                self@ == (AccountView {
                    positions: self@.positions,
                    position_list: self@.position_list,
                    ..s0
                }),
                self@.position_list.len() == n,
                forall|j: int| 0 <= j < i ==> self@.position_list[j] == #[trigger] s0.position_list[j].after_settle(),
                forall|j: int| i <= j < n ==> self@.position_list[j] == #[trigger] s0.position_list[j],
                forall|j: int| 0 <= j < i ==> self@.positions[#[trigger] s0.position_keys[j]] == s0.position_list[j].after_settle(),
                forall|j: int| i <= j < n ==> self@.positions[#[trigger] s0.position_keys[j]] == s0.position_list[j],
                self@.positions.dom() == s0.positions.dom(),
            decreases n - i,
        {
            proof {
                self.positions.lemma_wf();
                old(self).positions.lemma_wf();
            }
            let mut p = self.positions.value_at(i).clone();
            assert(p@ == self@.position_list[i as int]);
            p.daily_settle();
            let k = self.positions.key_at(i).clone();
            let ghost pv = p@;
            let ghost prev = self@;
            proof {
                self.positions.lemma_index_of(i as int);
                assert(pviews(self.positions.val_seq())[i as int] == self.positions.val_seq()[i as int]@);
            }
            self.store_position(k.as_str(), Some(i), p);
            proof {
                assert forall|j: int| 0 <= j < n && j != i implies self@.positions[#[trigger] s0.position_keys[j]] == prev.positions[s0.position_keys[j]] by {
                    assert(s0.position_keys[j] != s0.position_keys[i as int]);
                }
            }
            i = i + 1;
        }
        proof {
            self.positions.lemma_wf();
            old(self).positions.lemma_wf();
            assert(self@.position_list =~= s0.position_list.map_values(|p: PositionView| p.after_settle()));
            assert forall|k: Seq<char>| #[trigger] self@.positions.contains_key(k) implies self@.positions[k] == s0.positions[k].after_settle() by {
                let j = choose|j: int| 0 <= j < s0.position_keys.len() && #[trigger] s0.position_keys[j] == k;
            }
            assert(self@.positions =~= s0.positions.map_values(|p: PositionView| p.after_settle()));
        }
    }
}

impl Account {
    /// A QIFI snapshot: every non-empty position and every order, and the
    /// money figures, with balance and available money derived.
    pub fn to_qifi(&self) -> (r: crate::qifi::Qifi)
        requires
            self.wf(),
        ensures
            qifi_snapshot_of(r, self@),
    {
        let mut q = crate::qifi::Qifi::new(self.account_cookie.clone(), self.init_cash);
        q.portfolio = self.portfolio_cookie.clone();
        q.investor_name = self.user_cookie.clone();
        q.updatetime = now_rfc3339();
        proof {
            self.positions.lemma_wf();
            self.orders.lemma_wf();
        }
        let ghost pkeys = self.positions.key_seq();
        let ghost plist = pviews(self.positions.val_seq());
        let n: usize = self.positions.len();
        let mut i: usize = 0;
        while i < n
            invariant
                self.wf(),
                q.wf(),
                pkeys == self.positions.key_seq(),
                plist == pviews(self.positions.val_seq()),
                n == plist.len(),
                i <= n,
                q.orders.map() == Map::<Seq<char>, crate::qifi::Order>::empty(),
                q.trades.map() == Map::<Seq<char>, crate::qifi::Trade>::empty(),
                q.account_cookie@ == self@.account_cookie,
                q.portfolio@ == self@.portfolio_cookie,
                q.investor_name@ == self@.user_cookie,
                q.money == self@.init_cash,
                q.source@ == "hiquant-rs"@,
                q.accounts == (crate::qifi::Account {
                    balance: self@.init_cash,
                    static_balance: self@.init_cash,
                    available: self@.init_cash,
                    ..crate::qifi::Account::spec_default()
                }),
                forall|k: Seq<char>|
                    #[trigger] q.positions.map().contains_key(k) <==> exists|j: int|
                        0 <= j < i && #[trigger] pkeys[j] == k && !plist[j].is_empty(),
                forall|k: Seq<char>|
                    #[trigger] q.positions.map().contains_key(k) ==> position_record_of(
                        q.positions.map()[k],
                        self@.positions[k],
                    ),
            decreases n - i,
        {
            proof {
                self.positions.lemma_wf();
            }
            let p = self.positions.value_at(i);
            assert(plist[i as int] == p@);
            assert(self@.positions[pkeys[i as int]] == p@);
            if !p.is_empty() {
                let rec = crate::qifi::Position::from_position(p);
                q.add_position(rec);
            }
            i = i + 1;
        }
        let ghost okeys = self.orders.key_seq();
        let m: usize = self.orders.len();
        let mut j: usize = 0;
        while j < m
            invariant
                self.wf(),
                q.wf(),
                okeys == self.orders.key_seq(),
                m == self.orders.val_seq().len(),
                j <= m,
                q.trades.map() == Map::<Seq<char>, crate::qifi::Trade>::empty(),
                q.account_cookie@ == self@.account_cookie,
                q.portfolio@ == self@.portfolio_cookie,
                q.investor_name@ == self@.user_cookie,
                q.money == self@.init_cash,
                q.source@ == "hiquant-rs"@,
                q.accounts == (crate::qifi::Account {
                    balance: self@.init_cash,
                    static_balance: self@.init_cash,
                    available: self@.init_cash,
                    ..crate::qifi::Account::spec_default()
                }),
                forall|k: Seq<char>|
                    #[trigger] q.positions.map().contains_key(k) <==> (self@.positions.contains_key(k)
                        && !self@.positions[k].is_empty()),
                forall|k: Seq<char>|
                    #[trigger] q.positions.map().contains_key(k) ==> position_record_of(
                        q.positions.map()[k],
                        self@.positions[k],
                    ),
                forall|k: Seq<char>|
                    #[trigger] q.orders.map().contains_key(k) <==> exists|t: int|
                        0 <= t < j && #[trigger] okeys[t] == k,
                forall|k: Seq<char>|
                    #[trigger] q.orders.map().contains_key(k) ==> order_record_of(q.orders.map()[k], self@.orders[k]),
            decreases m - j,
        {
            proof {
                self.orders.lemma_wf();
            }
            let o = self.orders.value_at(j);
            assert(self@.orders[okeys[j as int]] == o@);
            let rec = crate::qifi::Order::from_order(o);
            q.add_order(rec);
            j = j + 1;
        }
        let s = self.position_stats();
        proof {
            lemma_stats_bound(pviews(self.positions.val_seq()));
        }
        q.accounts.balance = self.cash + s.total_market_value + s.total_float_profit;
        q.accounts.static_balance = self.init_cash;
        q.accounts.margin = s.total_margin;
        q.accounts.frozen_margin = self.frozen_cash;
        q.accounts.available = self.cash - self.frozen_cash;
        q.accounts.position_profit = s.total_float_profit;
        q.accounts.float_profit = s.total_float_profit;
        q.accounts.close_profit = self.close_pnl;
        q.accounts.commission = self.commission_total;
        q.accounts.tax = self.tax_total;
        q.calculate_derived_values();
        q
    }
}

/// Cancelling an order right after placing it gives back the cash it held
/// back: cash, frozen cash and the holds of other orders are as before the
/// order, and the order is cancelled.
pub proof fn law_cancel_restores_cash(
    a: AccountView,
    side: OrderSide,
    code: Seq<char>,
    volume: int,
    price: int,
    o: OrderView,
)
    requires
        acc_ok(a.frozen_cash as int),
        a.preset_for(code).wf(),
        a.position_with_preset(code).in_range(),
        a.place_error(side, code, volume, price) is None,
        a.cash_to_freeze(side, code, volume, price) is Some,
        is_new_order(o, a.account_cookie, code, side, volume, price),
        !a.frozen_by_order.contains_key(o.order_id),
    ensures
        ({
            let b = a.after_place(side, code, volume, price, o);
            let c = b.after_cancel(o.order_id);
            &&& b.cancel_error(o.order_id) is None
            &&& c.cash == a.cash
            &&& c.frozen_cash == a.frozen_cash
            &&& c.frozen_by_order == a.frozen_by_order
            &&& c.orders[o.order_id].status == OrderStatus::Cancelled
        }),
{
    lemma_freeze_amounts(a.preset_for(code), price, volume);
    let b = a.after_place(side, code, volume, price, o);
    let id = o.order_id;
    assert(b.orders[id] == o);
    assert(b.frozen_by_order.remove(id) =~= a.frozen_by_order);
    assert(b.positions[code] == a.position_with_preset(code));
    assert(b.cancel_in_range(id));
}

/// A buy filled in full at its own price releases all it held back: frozen
/// cash and the holds of other orders are as before the order, the order
/// is filled, and cash has paid the commission and the value (a stock) or
/// the margin (a future).
pub proof fn law_full_fill_settles_buy(
    a: AccountView,
    code: Seq<char>,
    volume: int,
    price: int,
    o: OrderView,
    trade_time: Seq<char>,
    datetime: Seq<char>,
)
    requires
        acc_ok(a.frozen_cash as int),
        a.preset_for(code).wf(),
        a.place_error(OrderSide::Buy, code, volume, price) is None,
        is_new_order(o, a.account_cookie, code, OrderSide::Buy, volume, price),
        !a.frozen_by_order.contains_key(o.order_id),
        a.after_place(OrderSide::Buy, code, volume, price, o).fill_in_range(o.order_id, volume, price),
    ensures
        ({
            let b = a.after_place(OrderSide::Buy, code, volume, price, o);
            let c = b.after_fill(o.order_id, volume, price, trade_time, datetime);
            let preset = a.preset_for(code);
            let mv = preset.market_value(price, volume);
            &&& c.frozen_cash == a.frozen_cash
            &&& c.frozen_by_order == a.frozen_by_order
            &&& c.orders[o.order_id].status == OrderStatus::Filled
            &&& c.cash == a.cash - preset.commission(mv) - (if preset.is_stock { mv } else { preset.margin(price, volume) })
        }),
{
    lemma_freeze_amounts(a.preset_for(code), price, volume);
    let b = a.after_place(OrderSide::Buy, code, volume, price, o);
    let id = o.order_id;
    let amt = a.preset_for(code).frozen_money(price, volume);
    assert(b.orders[id] == o);
    assert(b.frozen_by_order[id] == amt);
    assert(b.orders[id].volume_orign == volume);
    assert(b.preset_for(code) == a.preset_for(code));
    assert(b.fill_release(id, volume, price) == amt);
    assert(b.frozen_by_order.remove(id) =~= a.frozen_by_order);
}

/// A fill that finishes an order releases all the cash the order still
/// held back: its entry leaves the holds, the other holds stay, and frozen
/// cash falls by the whole entry.
pub proof fn law_finishing_fill_releases_hold(
    a: AccountView,
    id: Seq<char>,
    fv: int,
    fp: int,
    trade_time: Seq<char>,
    datetime: Seq<char>,
)
    requires
        a.fill_error(id, fv, fp) is None,
        a.frozen_by_order.contains_key(id),
        a.orders[id].updated(fv, fp, trade_time).status.spec_is_finished(),
    ensures
        ({
            let c = a.after_fill(id, fv, fp, trade_time, datetime);
            &&& c.frozen_cash == a.frozen_cash - a.frozen_by_order[id]
            &&& c.frozen_by_order == a.frozen_by_order.remove(id)
        }),
{
    let o = a.orders[id];
    assert(o.updated(fv, fp, o.trade_time).status == o.updated(fv, fp, trade_time).status);
    assert(a.fill_release(id, fv, fp) == a.frozen_by_order[id]);
}

/// Totals over at most `MAX_POSITIONS` in-range positions stay small.
pub proof fn lemma_stats_bound(s: Seq<PositionView>)
    requires
        s.len() <= MAX_POSITIONS,
        all_in_range(s),
    ensures
        -MAX_POSITIONS * AMOUNT_LIMIT * 2 <= sum_market_value(s) <= MAX_POSITIONS * AMOUNT_LIMIT * 2,
        -MAX_POSITIONS * AMOUNT_LIMIT * 3 <= sum_float_profit(s) <= MAX_POSITIONS * AMOUNT_LIMIT * 3,
        -MAX_POSITIONS * AMOUNT_LIMIT * 2 <= sum_margin(s) <= MAX_POSITIONS * AMOUNT_LIMIT * 2,
    decreases s.len(),
{
    if s.len() > 0 {
        let d = s.drop_last();
        assert forall|i: int| 0 <= i < d.len() implies (#[trigger] d[i]).in_range() by {
            assert(d[i] == s[i]);
        }
        lemma_stats_bound(d);
        let p = s.last();
        assert(p.in_range());
        crate::position::lemma_position_value_bounds(p);
        assert((d.len() + 1) * AMOUNT_LIMIT * 2 <= MAX_POSITIONS * AMOUNT_LIMIT * 2) by (nonlinear_arith)
            requires d.len() + 1 <= MAX_POSITIONS;
        assert((d.len() + 1) * AMOUNT_LIMIT * 3 <= MAX_POSITIONS * AMOUNT_LIMIT * 3) by (nonlinear_arith)
            requires d.len() + 1 <= MAX_POSITIONS;
        lemma_stats_prefix_bound(d);
    }
}

proof fn lemma_stats_prefix_bound(s: Seq<PositionView>)
    requires
        all_in_range(s),
    ensures
        -s.len() * AMOUNT_LIMIT * 2 <= sum_market_value(s) <= s.len() * AMOUNT_LIMIT * 2,
        -s.len() * AMOUNT_LIMIT * 3 <= sum_float_profit(s) <= s.len() * AMOUNT_LIMIT * 3,
        -s.len() * AMOUNT_LIMIT * 2 <= sum_margin(s) <= s.len() * AMOUNT_LIMIT * 2,
    decreases s.len(),
{
    if s.len() > 0 {
        let d = s.drop_last();
        assert forall|i: int| 0 <= i < d.len() implies (#[trigger] d[i]).in_range() by {
            assert(d[i] == s[i]);
        }
        lemma_stats_prefix_bound(d);
        crate::position::lemma_position_value_bounds(s.last());
        assert(d.len() * AMOUNT_LIMIT * 2 + AMOUNT_LIMIT * 2 == s.len() * AMOUNT_LIMIT * 2) by (nonlinear_arith)
            requires s.len() == d.len() + 1;
        assert(d.len() * AMOUNT_LIMIT * 3 + AMOUNT_LIMIT * 3 == s.len() * AMOUNT_LIMIT * 3) by (nonlinear_arith)
            requires s.len() == d.len() + 1;
    }
}

} // verus!
