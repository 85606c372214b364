//! Orders: creation, fill bookkeeping and the status machine.

use vstd::prelude::*;
use crate::enums::{Direction, Offset, OrderSide, OrderStatus, PriceType};
use crate::ids::{generate_order_id, now_rfc3339, order_id_text};
use crate::types::{Amount, Price, Volume, MAX_PRICE, MAX_VOLUME};

verus! {

/// An order of an account.
#[derive(Debug)]
pub struct Order {
    pub order_id: String,
    pub account_cookie: String,
    pub user_cookie: String,
    pub portfolio_cookie: String,
    pub instrument_id: String,
    pub secu_code: String,
    pub exchange_id: String,
    pub direction: Direction,
    pub offset: Offset,
    pub volume_orign: Volume,
    pub volume_left: Volume,
    pub volume_fill: Volume,
    pub price_order: Price,
    /// Average fill price.
    pub price_fill: Price,
    pub price_type: PriceType,
    pub status: OrderStatus,
    pub fee: Amount,
    pub tax: Amount,
    pub order_time: String,
    pub trade_time: String,
    pub reason: String,
    pub error_message: String,
}

pub struct OrderView {
    pub order_id: Seq<char>,
    pub account_cookie: Seq<char>,
    pub user_cookie: Seq<char>,
    pub portfolio_cookie: Seq<char>,
    pub instrument_id: Seq<char>,
    pub secu_code: Seq<char>,
    pub exchange_id: Seq<char>,
    pub direction: Direction,
    pub offset: Offset,
    pub volume_orign: i64,
    pub volume_left: i64,
    pub volume_fill: i64,
    pub price_order: i64,
    pub price_fill: i64,
    pub price_type: PriceType,
    pub status: OrderStatus,
    pub fee: i128,
    pub tax: i128,
    pub order_time: Seq<char>,
    pub trade_time: Seq<char>,
    pub reason: Seq<char>,
    pub error_message: Seq<char>,
}

impl View for Order {
    type V = OrderView;

    open spec fn view(&self) -> OrderView {
        OrderView {
            order_id: self.order_id@,
            account_cookie: self.account_cookie@,
            user_cookie: self.user_cookie@,
            portfolio_cookie: self.portfolio_cookie@,
            instrument_id: self.instrument_id@,
            secu_code: self.secu_code@,
            exchange_id: self.exchange_id@,
            direction: self.direction,
            offset: self.offset,
            volume_orign: self.volume_orign,
            volume_left: self.volume_left,
            volume_fill: self.volume_fill,
            price_order: self.price_order,
            price_fill: self.price_fill,
            price_type: self.price_type,
            status: self.status,
            fee: self.fee,
            tax: self.tax,
            order_time: self.order_time@,
            trade_time: self.trade_time@,
            reason: self.reason@,
            error_message: self.error_message@,
        }
    }
}

impl Clone for Order {
    fn clone(&self) -> (r: Self)
        ensures
            r == *self,
    {
        Order {
            order_id: self.order_id.clone(),
            account_cookie: self.account_cookie.clone(),
            user_cookie: self.user_cookie.clone(),
            portfolio_cookie: self.portfolio_cookie.clone(),
            instrument_id: self.instrument_id.clone(),
            secu_code: self.secu_code.clone(),
            exchange_id: self.exchange_id.clone(),
            direction: self.direction,
            offset: self.offset,
            volume_orign: self.volume_orign,
            volume_left: self.volume_left,
            volume_fill: self.volume_fill,
            price_order: self.price_order,
            price_fill: self.price_fill,
            price_type: self.price_type,
            status: self.status,
            fee: self.fee,
            tax: self.tax,
            order_time: self.order_time.clone(),
            trade_time: self.trade_time.clone(),
            reason: self.reason.clone(),
            error_message: self.error_message.clone(),
        }
    }
}

/// Integer division truncated toward zero (Rust's `/`).
pub open spec fn div_trunc(a: int, b: int) -> int {
    let q = (if a >= 0 { a } else { -a }) / (if b >= 0 { b } else { -b });
    if (a >= 0) == (b >= 0) { q } else { -q }
}

pub(crate) fn div_trunc_exec(a: i128, b: i128) -> (r: i128)
    requires
        b != 0,
        -0x4000_0000_0000_0000_0000_0000_0000_0000 < a < 0x4000_0000_0000_0000_0000_0000_0000_0000,
        -0x4000_0000_0000_0000_0000_0000_0000_0000 < b < 0x4000_0000_0000_0000_0000_0000_0000_0000,
    ensures
        r == div_trunc(a as int, b as int),
{
    let ua = if a >= 0 { a } else { -a };
    let ub = if b >= 0 { b } else { -b };
    let q = ua / ub;
    if (a >= 0) == (b >= 0) {
        q
    } else {
        -q
    }
}

/// Dividing by a positive number never enlarges the magnitude.
pub proof fn lemma_div_trunc_bound(a: int, b: int)
    requires
        b >= 1,
    ensures
        -(if a >= 0 { a } else { -a }) <= div_trunc(a, b) <= (if a >= 0 { a } else { -a }),
{
    let ua = if a >= 0 { a } else { -a };
    assert(0 <= ua / b <= ua) by (nonlinear_arith)
        requires ua >= 0, b >= 1;
}

impl OrderView {
    /// Volumes and prices are within the representable range.
    pub open spec fn in_range(self) -> bool {
        &&& -MAX_VOLUME <= self.volume_orign <= MAX_VOLUME
        &&& -MAX_VOLUME <= self.volume_fill <= MAX_VOLUME
        &&& -MAX_PRICE <= self.price_fill <= MAX_PRICE
        &&& -MAX_PRICE <= self.price_order <= MAX_PRICE
    }

    /// The new average fill price after filling `fv` at `fp`: weighted by
    /// volume and truncated to a micro-unit; a non-positive `fp` keeps it.
    pub open spec fn avg_after(self, fv: int, fp: int) -> int {
        let fill = self.volume_fill + fv;
        if fp > 0 {
            if fill != 0 {
                div_trunc(self.price_fill * self.volume_fill + fp * fv, fill)
            } else {
                fp
            }
        } else {
            self.price_fill as int
        }
    }

    /// `update(fv, fp)` stays within the representable range.
    pub open spec fn update_fits(self, fv: int, fp: int) -> bool {
        &&& self.in_range()
        &&& -MAX_VOLUME <= fv <= MAX_VOLUME
        &&& -MAX_PRICE <= fp <= MAX_PRICE
        &&& -MAX_VOLUME <= self.volume_fill + fv <= MAX_VOLUME
        &&& -MAX_PRICE <= self.avg_after(fv, fp) <= MAX_PRICE
    }

    /// The order after filling `fv` at `fp` (the trade time aside):
    /// filled volume grows, the left volume is what remains of the
    /// ordered volume (never below zero), the average price is re-weighted, and
    /// the status becomes filled when nothing is left, partially filled
    /// when something is filled, and stays otherwise.
    pub open spec fn updated(self, fv: int, fp: int, trade_time: Seq<char>) -> OrderView {
        let fill = self.volume_fill + fv;
        let left = if self.volume_orign - fill > 0 { self.volume_orign - fill } else { 0 };
        let status = if left == 0 {
            OrderStatus::Filled
        } else if fill != 0 {
            OrderStatus::PartialFilled
        } else {
            self.status
        };
        OrderView {
            volume_fill: fill as i64,
            volume_left: left as i64,
            price_fill: self.avg_after(fv, fp) as i64,
            status,
            trade_time: if left == 0 { trade_time } else { self.trade_time },
            ..self
        }
    }
}

impl Order {
    /// A new pending limit order with a generated id `ORD_{millis}_{nnnnn}`.
    pub fn new(
        account_cookie: String,
        instrument_id: String,
        direction: Direction,
        offset: Offset,
        volume: Volume,
        price: Price,
    ) -> (r: Order)
        ensures
            exists|millis: i64, rand: u32| r@.order_id == order_id_text("ORD"@, millis, rand),
            r@.account_cookie == account_cookie@,
            r@.instrument_id == instrument_id@,
            r@.user_cookie.len() == 0,
            r@.portfolio_cookie.len() == 0,
            r@.secu_code.len() == 0,
            r@.exchange_id.len() == 0,
            r.direction == direction,
            r.offset == offset,
            r.volume_orign == volume,
            r.volume_left == volume,
            r.volume_fill == 0,
            r.price_order == price,
            r.price_fill == 0,
            r.price_type == PriceType::Limit,
            r.status == OrderStatus::Pending,
            r.fee == 0,
            r.tax == 0,
            r@.trade_time.len() == 0,
            r@.reason.len() == 0,
            r@.error_message.len() == 0,
    {
        let id = generate_order_id("ORD");
        Order {
            order_id: id,
            account_cookie,
            user_cookie: String::new(),
            portfolio_cookie: String::new(),
            instrument_id,
            secu_code: String::new(),
            exchange_id: String::new(),
            direction,
            offset,
            volume_orign: volume,
            volume_left: volume,
            volume_fill: 0,
            price_order: price,
            price_fill: 0,
            price_type: PriceType::Limit,
            status: OrderStatus::Pending,
            fee: 0,
            tax: 0,
            order_time: now_rfc3339(),
            trade_time: String::new(),
            reason: String::new(),
            error_message: String::new(),
        }
    }

    /// Side of the order for stocks: 1 for buys, -1 for sells.
    pub fn towards(&self) -> (r: i32)
        ensures
            r == (if self.direction is Buy { 1i32 } else { -1i32 }),
    {
        match self.direction {
            Direction::Buy => 1,
            Direction::Sell => -1,
        }
    }

    pub fn is_finished(&self) -> (r: bool)
        ensures
            r == self.status.spec_is_finished(),
    {
        self.status.is_finished()
    }

    pub fn is_active(&self) -> (r: bool)
        ensures
            r == self.status.spec_is_active(),
    {
        self.status.is_active()
    }

    /// An order can be cancelled while it is active.
    pub fn can_cancel(&self) -> (r: bool)
        ensures
            r == self.status.spec_is_active(),
    {
        self.status.is_active()
    }

    pub fn unfilled_volume(&self) -> (r: Volume)
        ensures
            r == self.volume_left,
    {
        self.volume_left
    }

    pub fn filled_amount(&self) -> (r: Amount)
        requires
            self@.in_range(),
        ensures
            r == self.price_fill * self.volume_fill,
    {
        proof {
            crate::types::lemma_trade_amount_bound(self.price_fill as int, self.volume_fill as int, 1);
        }
        (self.price_fill as i128) * (self.volume_fill as i128)
    }

    pub fn total_amount(&self) -> (r: Amount)
        requires
            self@.in_range(),
        ensures
            r == self.price_order * self.volume_orign,
    {
        proof {
            crate::types::lemma_trade_amount_bound(self.price_order as int, self.volume_orign as int, 1);
        }
        (self.price_order as i128) * (self.volume_orign as i128)
    }

    /// Records a fill of `filled_volume` at `filled_price`.
    pub fn update(&mut self, filled_volume: Volume, filled_price: Price)
        requires
            old(self)@.update_fits(filled_volume as int, filled_price as int),
        ensures
            final(self)@ == old(self)@.updated(
                filled_volume as int,
                filled_price as int,
                final(self)@.trade_time,
            ),
            final(self)@.in_range(),
            final(self).volume_left != 0 ==> final(self).trade_time == old(self).trade_time,
    {
        let ghost o = self@;
        proof {
            crate::types::lemma_trade_amount_bound(self.price_fill as int, self.volume_fill as int, 1);
            crate::types::lemma_trade_amount_bound(filled_price as int, filled_volume as int, 1);
        }
        let old_fill = self.volume_fill;
        let fill = old_fill + filled_volume;
        self.volume_fill = fill;
        let rest = self.volume_orign - fill;
        self.volume_left = if rest > 0 { rest } else { 0 };
        if filled_price > 0 {
            if fill != 0 {
                let num: i128 = (self.price_fill as i128) * (old_fill as i128) + (filled_price as i128)
                    * (filled_volume as i128);
                self.price_fill = div_trunc_exec(num, fill as i128) as i64;
            } else {
                self.price_fill = filled_price;
            }
        }
        if self.volume_left == 0 {
            self.status = OrderStatus::Filled;
            self.trade_time = now_rfc3339();
        } else if fill != 0 {
            self.status = OrderStatus::PartialFilled;
        }
    }

    pub fn cancel(&mut self)
        ensures
            final(self)@ == (OrderView { status: OrderStatus::Cancelled, ..old(self)@ }),
    {
        self.status = OrderStatus::Cancelled;
    }

    pub fn reject(&mut self, reason: String)
        ensures
            final(self)@ == (OrderView {
                status: OrderStatus::Rejected,
                error_message: reason@,
                ..old(self)@
            }),
    {
        self.status = OrderStatus::Rejected;
        self.error_message = reason;
    }
}

/// Builds orders from a simplified side.
pub struct OrderFactory;

impl OrderFactory {
    pub fn create(
        account_cookie: &str,
        instrument_id: &str,
        side: OrderSide,
        volume: Volume,
        price: Price,
    ) -> (r: Order)
        ensures
            (r.direction, r.offset) == side.spec_direction_offset(),
            r@.account_cookie == account_cookie@,
            r@.instrument_id == instrument_id@,
            r.volume_orign == volume,
            r.volume_left == volume,
            r.volume_fill == 0,
            r.price_order == price,
            r.price_fill == 0,
            r.status == OrderStatus::Pending,
            r.price_type == PriceType::Limit,
            r.fee == 0,
            r.tax == 0,
            r@.trade_time.len() == 0,
            r@.user_cookie.len() == 0,
            r@.portfolio_cookie.len() == 0,
            r@.secu_code.len() == 0,
            r@.exchange_id.len() == 0,
            r@.reason.len() == 0,
            r@.error_message.len() == 0,
            exists|millis: i64, rand: u32| r@.order_id == order_id_text("ORD"@, millis, rand),
    {
        let (dir, off) = side.direction_offset();
        Order::new(
            String::from_str(account_cookie),
            String::from_str(instrument_id),
            dir,
            off,
            volume,
            price,
        )
    }

    pub fn create_stock_buy(account: &str, code: &str, vol: Volume, price: Price) -> (r: Order)
        ensures
            r.direction == Direction::Buy && r.offset == Offset::Open,
            r@.account_cookie == account@ && r@.instrument_id == code@,
            r.volume_orign == vol && r.price_order == price && r.status == OrderStatus::Pending,
            r.volume_fill == 0 && r.volume_left == vol && r.price_fill == 0,
    {
        Self::create(account, code, OrderSide::Buy, vol, price)
    }

    pub fn create_stock_sell(account: &str, code: &str, vol: Volume, price: Price) -> (r: Order)
        ensures
            r.direction == Direction::Sell && r.offset == Offset::Close,
            r@.account_cookie == account@ && r@.instrument_id == code@,
            r.volume_orign == vol && r.price_order == price && r.status == OrderStatus::Pending,
            r.volume_fill == 0 && r.volume_left == vol && r.price_fill == 0,
    {
        Self::create(account, code, OrderSide::Sell, vol, price)
    }

    pub fn create_future_buy_open(account: &str, code: &str, vol: Volume, price: Price) -> (r: Order)
        ensures
            r.direction == Direction::Buy && r.offset == Offset::Open,
            r@.account_cookie == account@ && r@.instrument_id == code@,
            r.volume_orign == vol && r.price_order == price && r.status == OrderStatus::Pending,
            r.volume_fill == 0 && r.volume_left == vol && r.price_fill == 0,
    {
        Self::create(account, code, OrderSide::BuyOpen, vol, price)
    }

    pub fn create_future_sell_open(account: &str, code: &str, vol: Volume, price: Price) -> (r: Order)
        ensures
            r.direction == Direction::Sell && r.offset == Offset::Open,
            r@.account_cookie == account@ && r@.instrument_id == code@,
            r.volume_orign == vol && r.price_order == price && r.status == OrderStatus::Pending,
            r.volume_fill == 0 && r.volume_left == vol && r.price_fill == 0,
    {
        Self::create(account, code, OrderSide::SellOpen, vol, price)
    }

    pub fn create_future_sell_close(account: &str, code: &str, vol: Volume, price: Price) -> (r: Order)
        ensures
            r.direction == Direction::Sell && r.offset == Offset::Close,
            r@.account_cookie == account@ && r@.instrument_id == code@,
            r.volume_orign == vol && r.price_order == price && r.status == OrderStatus::Pending,
            r.volume_fill == 0 && r.volume_left == vol && r.price_fill == 0,
    {
        Self::create(account, code, OrderSide::SellClose, vol, price)
    }

    pub fn create_future_buy_close(account: &str, code: &str, vol: Volume, price: Price) -> (r: Order)
        ensures
            r.direction == Direction::Buy && r.offset == Offset::Close,
            r@.account_cookie == account@ && r@.instrument_id == code@,
            r.volume_orign == vol && r.price_order == price && r.status == OrderStatus::Pending,
            r.volume_fill == 0 && r.volume_left == vol && r.price_fill == 0,
    {
        Self::create(account, code, OrderSide::BuyClose, vol, price)
    }
}

} // verus!

verus! {

impl Order {
    /// Whether `update(fv, fp)` stays within the representable range.
    pub fn update_fits(&self, fv: Volume, fp: Price) -> (r: bool)
        ensures
            r == self@.update_fits(fv as int, fp as int),
    {
        if !(-MAX_VOLUME <= self.volume_orign && self.volume_orign <= MAX_VOLUME
            && -MAX_VOLUME <= self.volume_fill && self.volume_fill <= MAX_VOLUME
            && -MAX_PRICE <= self.price_fill && self.price_fill <= MAX_PRICE
            && -MAX_PRICE <= self.price_order && self.price_order <= MAX_PRICE
            && -MAX_VOLUME <= fv && fv <= MAX_VOLUME && -MAX_PRICE <= fp && fp <= MAX_PRICE) {
            return false;
        }
        let fill: i128 = self.volume_fill as i128 + fv as i128;
        if !(-(MAX_VOLUME as i128) <= fill && fill <= MAX_VOLUME as i128) {
            return false;
        }
        proof {
            crate::types::lemma_trade_amount_bound(self.price_fill as int, self.volume_fill as int, 1);
            crate::types::lemma_trade_amount_bound(fp as int, fv as int, 1);
        }
        let avg: i128 = if fp > 0 {
            if fill != 0 {
                div_trunc_exec(
                    (self.price_fill as i128) * (self.volume_fill as i128) + (fp as i128) * (fv as i128),
                    fill,
                )
            } else {
                fp as i128
            }
        } else {
            self.price_fill as i128
        };
        -(MAX_PRICE as i128) <= avg && avg <= MAX_PRICE as i128
    }
}

} // verus!
