//! Positions: long and short volumes split into today's and earlier
//! holdings, with cost, margin and profit bookkeeping.

use vstd::prelude::*;
use crate::enums::{Direction, Offset};
use crate::order::div_trunc;
use crate::preset::{stock_default_view, CodePreset, PresetView};
use crate::types::{
    lemma_ppm_shrinks, lemma_trade_amount_bound, mul_ppm, ppm_of, trade_amount, trade_in_range,
    Amount, Price, Volume, AMOUNT_LIMIT, MAX_PRICE, MAX_VOLUME,
};

verus! {

#[derive(Debug)]
pub struct Position {
    pub code: String,
    pub exchange_id: String,
    pub volume_long_today: Volume,
    pub volume_long_his: Volume,
    pub volume_short_today: Volume,
    pub volume_short_his: Volume,
    pub volume_long_frozen_today: Volume,
    pub volume_long_frozen_his: Volume,
    pub volume_short_frozen_today: Volume,
    pub volume_short_frozen_his: Volume,
    pub position_price_long: Price,
    pub position_price_short: Price,
    pub position_cost_long: Amount,
    pub position_cost_short: Amount,
    pub open_price_long: Price,
    pub open_price_short: Price,
    pub open_cost_long: Amount,
    pub open_cost_short: Amount,
    pub margin_long: Amount,
    pub margin_short: Amount,
    pub lastest_price: Price,
    pub lastest_datetime: String,
    pub preset: CodePreset,
}

pub struct PositionView {
    pub code: Seq<char>,
    pub exchange_id: Seq<char>,
    pub volume_long_today: i64,
    pub volume_long_his: i64,
    pub volume_short_today: i64,
    pub volume_short_his: i64,
    pub volume_long_frozen_today: i64,
    pub volume_long_frozen_his: i64,
    pub volume_short_frozen_today: i64,
    pub volume_short_frozen_his: i64,
    pub position_price_long: i64,
    pub position_price_short: i64,
    pub position_cost_long: i128,
    pub position_cost_short: i128,
    pub open_price_long: i64,
    pub open_price_short: i64,
    pub open_cost_long: i128,
    pub open_cost_short: i128,
    pub margin_long: i128,
    pub margin_short: i128,
    pub lastest_price: i64,
    pub lastest_datetime: Seq<char>,
    pub preset: PresetView,
}

impl View for Position {
    type V = PositionView;

    open spec fn view(&self) -> PositionView {
        PositionView {
            code: self.code@,
            exchange_id: self.exchange_id@,
            volume_long_today: self.volume_long_today,
            volume_long_his: self.volume_long_his,
            volume_short_today: self.volume_short_today,
            volume_short_his: self.volume_short_his,
            volume_long_frozen_today: self.volume_long_frozen_today,
            volume_long_frozen_his: self.volume_long_frozen_his,
            volume_short_frozen_today: self.volume_short_frozen_today,
            volume_short_frozen_his: self.volume_short_frozen_his,
            position_price_long: self.position_price_long,
            position_price_short: self.position_price_short,
            position_cost_long: self.position_cost_long,
            position_cost_short: self.position_cost_short,
            open_price_long: self.open_price_long,
            open_price_short: self.open_price_short,
            open_cost_long: self.open_cost_long,
            open_cost_short: self.open_cost_short,
            margin_long: self.margin_long,
            margin_short: self.margin_short,
            lastest_price: self.lastest_price,
            lastest_datetime: self.lastest_datetime@,
            preset: self.preset@,
        }
    }
}

impl Clone for Position {
    fn clone(&self) -> (r: Self)
        ensures
            r == *self,
    {
        Position {
            code: self.code.clone(),
            exchange_id: self.exchange_id.clone(),
            volume_long_today: self.volume_long_today,
            volume_long_his: self.volume_long_his,
            volume_short_today: self.volume_short_today,
            volume_short_his: self.volume_short_his,
            volume_long_frozen_today: self.volume_long_frozen_today,
            volume_long_frozen_his: self.volume_long_frozen_his,
            volume_short_frozen_today: self.volume_short_frozen_today,
            volume_short_frozen_his: self.volume_short_frozen_his,
            position_price_long: self.position_price_long,
            position_price_short: self.position_price_short,
            position_cost_long: self.position_cost_long,
            position_cost_short: self.position_cost_short,
            open_price_long: self.open_price_long,
            open_price_short: self.open_price_short,
            open_cost_long: self.open_cost_long,
            open_cost_short: self.open_cost_short,
            margin_long: self.margin_long,
            margin_short: self.margin_short,
            lastest_price: self.lastest_price,
            lastest_datetime: self.lastest_datetime.clone(),
            preset: self.preset.clone(),
        }
    }
}

pub open spec fn vol_ok(v: int) -> bool {
    -MAX_VOLUME <= v <= MAX_VOLUME
}

pub open spec fn price_ok(p: int) -> bool {
    -MAX_PRICE <= p <= MAX_PRICE
}

pub open spec fn amount_ok(a: int) -> bool {
    -AMOUNT_LIMIT <= a <= AMOUNT_LIMIT
}

pub open spec fn min(a: int, b: int) -> int {
    if a <= b { a } else { b }
}

impl PositionView {
    pub open spec fn volume_long(self) -> int {
        self.volume_long_today + self.volume_long_his
    }

    pub open spec fn volume_short(self) -> int {
        self.volume_short_today + self.volume_short_his
    }

    pub open spec fn avail_long(self) -> int {
        self.volume_long() - self.volume_long_frozen_today - self.volume_long_frozen_his
    }

    pub open spec fn avail_short(self) -> int {
        self.volume_short() - self.volume_short_frozen_today - self.volume_short_frozen_his
    }

    pub open spec fn unit(self) -> int {
        self.preset.unit_table as int
    }

    /// Net holding valued at the latest price.
    pub open spec fn market_value(self) -> int {
        (self.volume_long() - self.volume_short()) * self.lastest_price * self.unit()
    }

    /// Profit against the holding cost price.
    pub open spec fn position_profit(self) -> int {
        (self.lastest_price - self.position_price_long) * self.volume_long() * self.unit() + (
        self.position_price_short - self.lastest_price) * self.volume_short() * self.unit()
    }

    /// Profit against the opening cost: the holdings valued at the latest
    /// price less the long opening cost, plus the short opening cost less
    /// the short holding valued at the latest price.
    pub open spec fn float_profit(self) -> int {
        self.lastest_price * self.volume_long() * self.unit() - self.open_cost_long + (self.open_cost_short
            - self.lastest_price * self.volume_short() * self.unit())
    }

    pub open spec fn margin(self) -> int {
        self.margin_long + self.margin_short
    }

    pub open spec fn is_empty(self) -> bool {
        self.volume_long() + self.volume_short() == 0
    }

    /// Every number is within the representable range.
    pub open spec fn in_range(self) -> bool {
        &&& vol_ok(self.volume_long_today as int)
        &&& vol_ok(self.volume_long_his as int)
        &&& vol_ok(self.volume_long())
        &&& vol_ok(self.volume_short_today as int)
        &&& vol_ok(self.volume_short_his as int)
        &&& vol_ok(self.volume_short())
        &&& vol_ok(self.volume_long_frozen_today as int)
        &&& vol_ok(self.volume_long_frozen_his as int)
        &&& vol_ok(self.volume_short_frozen_today as int)
        &&& vol_ok(self.volume_short_frozen_his as int)
        &&& price_ok(self.position_price_long as int)
        &&& price_ok(self.position_price_short as int)
        &&& price_ok(self.open_price_long as int)
        &&& price_ok(self.open_price_short as int)
        &&& price_ok(self.lastest_price as int)
        &&& amount_ok(self.position_cost_long as int)
        &&& amount_ok(self.position_cost_short as int)
        &&& amount_ok(self.open_cost_long as int)
        &&& amount_ok(self.open_cost_short as int)
        &&& amount_ok(self.margin_long as int)
        &&& amount_ok(self.margin_short as int)
        &&& self.preset.wf()
    }

    /// A deal of `volume` at `price` keeps every number in range.
    pub open spec fn deal_fits(self, direction: Direction, offset: Offset, volume: int, price: int) -> bool {
        let pv = price * volume * self.unit();
        &&& self.in_range()
        &&& trade_in_range(price, volume)
        &&& (offset is Open && direction is Buy ==> {
            let nv = self.volume_long_today + volume;
            let nc = self.position_cost_long + pv;
            &&& vol_ok(nv)
            &&& vol_ok(nv + self.volume_long_his)
            &&& amount_ok(nc)
            &&& amount_ok(self.open_cost_long + pv)
            &&& (nv + self.volume_long_his > 0 ==> price_ok(div_trunc(nc, (nv + self.volume_long_his) * self.unit())))
        })
        &&& (offset is Open && direction is Sell ==> {
            let nv = self.volume_short_today + volume;
            let nc = self.position_cost_short + pv;
            &&& vol_ok(nv)
            &&& vol_ok(nv + self.volume_short_his)
            &&& amount_ok(nc)
            &&& amount_ok(self.open_cost_short + pv)
            &&& (nv + self.volume_short_his > 0 ==> price_ok(div_trunc(nc, (nv + self.volume_short_his) * self.unit())))
        })
    }

    /// The holding after closing `volume` out of `today` and then `his`:
    /// today's volume first, then earlier volume.
    pub open spec fn close_from(today: int, his: int, volume: int) -> (int, int) {
        let ct = min(volume, today);
        let (t1, v1) = if ct > 0 { (today - ct, volume - ct) } else { (today, volume) };
        let h1 = if v1 > 0 { his - min(v1, his) } else { his };
        (t1, h1)
    }

    /// The position after a deal (see `Position::receive_deal`).
    pub open spec fn after_deal(
        self,
        direction: Direction,
        offset: Offset,
        volume: int,
        price: int,
        datetime: Seq<char>,
    ) -> PositionView {
        let unit = self.unit();
        let mr = self.preset.margin_ratio as int;
        let pv = price * volume * unit;
        let p = PositionView { lastest_price: price as i64, lastest_datetime: datetime, ..self };
        if offset is Open {
            if direction is Buy {
                let nv = p.volume_long_today + volume;
                let nc = p.position_cost_long + pv;
                let total = nv + p.volume_long_his;
                PositionView {
                    position_price_long: if total > 0 { div_trunc(nc, total * unit) as i64 } else { p.position_price_long },
                    position_cost_long: nc as i128,
                    open_cost_long: (p.open_cost_long + pv) as i128,
                    open_price_long: if p.open_price_long == 0 { price as i64 } else { p.open_price_long },
                    volume_long_today: nv as i64,
                    margin_long: ppm_of(nc, mr) as i128,
                    ..p
                }
            } else {
                let nv = p.volume_short_today + volume;
                let nc = p.position_cost_short + pv;
                let total = nv + p.volume_short_his;
                PositionView {
                    position_price_short: if total > 0 { div_trunc(nc, total * unit) as i64 } else { p.position_price_short },
                    position_cost_short: nc as i128,
                    open_cost_short: (p.open_cost_short + pv) as i128,
                    open_price_short: if p.open_price_short == 0 { price as i64 } else { p.open_price_short },
                    volume_short_today: nv as i64,
                    margin_short: ppm_of(nc, mr) as i128,
                    ..p
                }
            }
        } else if direction is Sell {
            let (t, h) = Self::close_from(p.volume_long_today as int, p.volume_long_his as int, volume);
            let cost = if t + h == 0 { 0 } else { p.position_price_long * (t + h) * unit };
            PositionView {
                volume_long_today: t as i64,
                volume_long_his: h as i64,
                position_cost_long: cost as i128,
                margin_long: (if t + h == 0 { 0 } else { ppm_of(cost, mr) }) as i128,
                ..p
            }
        } else {
            let (t, h) = Self::close_from(p.volume_short_today as int, p.volume_short_his as int, volume);
            let cost = if t + h == 0 { 0 } else { p.position_price_short * (t + h) * unit };
            PositionView {
                volume_short_today: t as i64,
                volume_short_his: h as i64,
                position_cost_short: cost as i128,
                margin_short: (if t + h == 0 { 0 } else { ppm_of(cost, mr) }) as i128,
                ..p
            }
        }
    }

    /// Freezing `volume` keeps the frozen counters in range.
    pub open spec fn freeze_fits(self, direction: Direction, volume: int) -> bool {
        &&& self.in_range()
        &&& vol_ok(volume)
        &&& (direction is Sell ==> {
            let ft = min(volume, self.volume_long_today as int);
            vol_ok(self.volume_long_frozen_today + ft) && vol_ok(self.volume_long_frozen_his + volume - ft)
        })
        &&& (direction is Buy ==> {
            let ft = min(volume, self.volume_short_today as int);
            vol_ok(self.volume_short_frozen_today + ft) && vol_ok(self.volume_short_frozen_his + volume - ft)
        })
    }

    /// Freezing for a sell holds back long volume, today's first; for a
    /// buy, short volume. Nothing changes when not enough is available.
    pub open spec fn after_freeze(self, direction: Direction, volume: int) -> (PositionView, bool) {
        if direction is Sell {
            if self.avail_long() < volume {
                (self, false)
            } else {
                let ft = min(volume, self.volume_long_today as int);
                (PositionView {
                    volume_long_frozen_today: (self.volume_long_frozen_today + ft) as i64,
                    volume_long_frozen_his: (self.volume_long_frozen_his + volume - ft) as i64,
                    ..self
                }, true)
            }
        } else {
            if self.avail_short() < volume {
                (self, false)
            } else {
                let ft = min(volume, self.volume_short_today as int);
                (PositionView {
                    volume_short_frozen_today: (self.volume_short_frozen_today + ft) as i64,
                    volume_short_frozen_his: (self.volume_short_frozen_his + volume - ft) as i64,
                    ..self
                }, true)
            }
        }
    }

    pub open spec fn unfreeze_fits(self, direction: Direction, volume: int) -> bool {
        &&& self.in_range()
        &&& vol_ok(volume)
        &&& (direction is Sell ==> {
            let ft = min(volume, self.volume_long_frozen_today as int);
            let rest = volume - ft;
            vol_ok(self.volume_long_frozen_today - ft)
                && vol_ok(self.volume_long_frozen_his - min(rest, self.volume_long_frozen_his as int))
        })
        &&& (direction is Buy ==> {
            let ft = min(volume, self.volume_short_frozen_today as int);
            let rest = volume - ft;
            vol_ok(self.volume_short_frozen_today - ft)
                && vol_ok(self.volume_short_frozen_his - min(rest, self.volume_short_frozen_his as int))
        })
    }

    /// Releasing frozen volume: today's first, then earlier, never more
    /// earlier volume than is frozen.
    pub open spec fn after_unfreeze(self, direction: Direction, volume: int) -> PositionView {
        if direction is Sell {
            let ft = min(volume, self.volume_long_frozen_today as int);
            let rest = volume - ft;
            PositionView {
                volume_long_frozen_today: (self.volume_long_frozen_today - ft) as i64,
                volume_long_frozen_his: (self.volume_long_frozen_his - min(rest, self.volume_long_frozen_his as int)) as i64,
                ..self
            }
        } else {
            let ft = min(volume, self.volume_short_frozen_today as int);
            let rest = volume - ft;
            PositionView {
                volume_short_frozen_today: (self.volume_short_frozen_today - ft) as i64,
                volume_short_frozen_his: (self.volume_short_frozen_his - min(rest, self.volume_short_frozen_his as int)) as i64,
                ..self
            }
        }
    }

    /// End of day: today's volumes become earlier volumes.
    pub open spec fn after_settle(self) -> PositionView {
        PositionView {
            volume_long_his: (self.volume_long_his + self.volume_long_today) as i64,
            volume_long_today: 0,
            volume_short_his: (self.volume_short_his + self.volume_short_today) as i64,
            volume_short_today: 0,
            ..self
        }
    }
}

/// An empty position of `code` with the stock preset.
pub open spec fn empty_position(code: Seq<char>) -> PositionView {
    PositionView {
        code,
        exchange_id: Seq::empty(),
        volume_long_today: 0,
        volume_long_his: 0,
        volume_short_today: 0,
        volume_short_his: 0,
        volume_long_frozen_today: 0,
        volume_long_frozen_his: 0,
        volume_short_frozen_today: 0,
        volume_short_frozen_his: 0,
        position_price_long: 0,
        position_price_short: 0,
        position_cost_long: 0,
        position_cost_short: 0,
        open_price_long: 0,
        open_price_short: 0,
        open_cost_long: 0,
        open_cost_short: 0,
        margin_long: 0,
        margin_short: 0,
        lastest_price: 0,
        lastest_datetime: Seq::empty(),
        preset: stock_default_view(),
    }
}

} // verus!

verus! {

fn div_trunc_i128(a: i128, b: i128) -> (r: i128)
    requires
        b != 0,
        -0x4000_0000_0000_0000_0000_0000_0000_0000 < a < 0x4000_0000_0000_0000_0000_0000_0000_0000,
        -0x4000_0000_0000_0000_0000_0000_0000_0000 < b < 0x4000_0000_0000_0000_0000_0000_0000_0000,
    ensures
        r == div_trunc(a as int, b as int),
{
    let ua = if a >= 0 { a } else { -a };
    let ub = if b >= 0 { b } else { -b };
    let q = ua / ub;
    if (a >= 0) == (b >= 0) {
        q
    } else {
        -q
    }
}

fn min_i64(a: i64, b: i64) -> (r: i64)
    ensures
        r == min(a as int, b as int),
{
    if a <= b {
        a
    } else {
        b
    }
}

impl Position {
    pub fn new(code: String) -> (r: Position)
        ensures
            r@ == empty_position(code@),
            r@.in_range(),
    {
        Position {
            code,
            exchange_id: String::new(),
            volume_long_today: 0,
            volume_long_his: 0,
            volume_short_today: 0,
            volume_short_his: 0,
            volume_long_frozen_today: 0,
            volume_long_frozen_his: 0,
            volume_short_frozen_today: 0,
            volume_short_frozen_his: 0,
            position_price_long: 0,
            position_price_short: 0,
            position_cost_long: 0,
            position_cost_short: 0,
            open_price_long: 0,
            open_price_short: 0,
            open_cost_long: 0,
            open_cost_short: 0,
            margin_long: 0,
            margin_short: 0,
            lastest_price: 0,
            lastest_datetime: String::new(),
            preset: CodePreset::stock_default(),
        }
    }

    pub fn volume_long(&self) -> (r: Volume)
        requires
            self@.in_range(),
        ensures
            r == self@.volume_long(),
    {
        self.volume_long_today + self.volume_long_his
    }

    pub fn volume_short(&self) -> (r: Volume)
        requires
            self@.in_range(),
        ensures
            r == self@.volume_short(),
    {
        self.volume_short_today + self.volume_short_his
    }

    pub fn volume_long_avaliable(&self) -> (r: Volume)
        requires
            self@.in_range(),
        ensures
            r == self@.avail_long(),
    {
        self.volume_long() - self.volume_long_frozen_today - self.volume_long_frozen_his
    }

    pub fn volume_short_avaliable(&self) -> (r: Volume)
        requires
            self@.in_range(),
        ensures
            r == self@.avail_short(),
    {
        self.volume_short() - self.volume_short_frozen_today - self.volume_short_frozen_his
    }

    pub fn volume_net(&self) -> (r: Volume)
        requires
            self@.in_range(),
        ensures
            r == self@.volume_long() - self@.volume_short(),
    {
        self.volume_long() - self.volume_short()
    }

    pub fn volume_total(&self) -> (r: Volume)
        requires
            self@.in_range(),
        ensures
            r == self@.volume_long() + self@.volume_short(),
    {
        self.volume_long() + self.volume_short()
    }

    pub fn is_empty(&self) -> (r: bool)
        requires
            self@.in_range(),
        ensures
            r == self@.is_empty(),
    {
        self.volume_total() == 0
    }

    pub fn market_value(&self) -> (r: Amount)
        requires
            self@.in_range(),
        ensures
            r == self@.market_value(),
            -AMOUNT_LIMIT <= r <= AMOUNT_LIMIT,
    {
        let net: i128 = (self.volume_long() as i128) - (self.volume_short() as i128);
        proof {
            let n = net as int;
            let p = self.lastest_price as int;
            let u = self@.unit();
            assert(-2 * MAX_VOLUME * MAX_PRICE <= n * p <= 2 * MAX_VOLUME * MAX_PRICE) by (nonlinear_arith)
                requires -2 * MAX_VOLUME <= n <= 2 * MAX_VOLUME, -MAX_PRICE <= p <= MAX_PRICE;
            let np = n * p;
            assert(-AMOUNT_LIMIT <= np * u <= AMOUNT_LIMIT) by (nonlinear_arith)
                requires -2 * MAX_VOLUME * MAX_PRICE <= np <= 2 * MAX_VOLUME * MAX_PRICE, 1 <= u <= 0x1_0000;
        }
        net * (self.lastest_price as i128) * (self.preset.unit_table as i128)
    }

    fn side_profit(price_diff: i128, volume: Volume, unit: i64) -> (r: i128)
        requires
            -2 * MAX_PRICE <= price_diff <= 2 * MAX_PRICE,
            vol_ok(volume as int),
            1 <= unit <= 0x1_0000,
        ensures
            r == price_diff * volume * unit,
            -AMOUNT_LIMIT / 2 <= r <= AMOUNT_LIMIT / 2,
    {
        proof {
            let d = price_diff as int;
            let v = volume as int;
            let u = unit as int;
            assert(-2 * MAX_PRICE * MAX_VOLUME <= d * v <= 2 * MAX_PRICE * MAX_VOLUME) by (nonlinear_arith)
                requires -2 * MAX_PRICE <= d <= 2 * MAX_PRICE, -MAX_VOLUME <= v <= MAX_VOLUME;
            let dv = d * v;
            assert(-AMOUNT_LIMIT / 2 <= dv * u <= AMOUNT_LIMIT / 2) by (nonlinear_arith)
                requires -2 * MAX_PRICE * MAX_VOLUME <= dv <= 2 * MAX_PRICE * MAX_VOLUME, 1 <= u <= 0x1_0000;
        }
        price_diff * (volume as i128) * (unit as i128)
    }

    /// Profit against the holding cost price.
    pub fn position_profit(&self) -> (r: Amount)
        requires
            self@.in_range(),
        ensures
            r == self@.position_profit(),
            -AMOUNT_LIMIT <= r <= AMOUNT_LIMIT,
    {
        let u = self.preset.unit_table;
        let long = Self::side_profit(
            self.lastest_price as i128 - self.position_price_long as i128,
            self.volume_long(),
            u,
        );
        let short = Self::side_profit(
            self.position_price_short as i128 - self.lastest_price as i128,
            self.volume_short(),
            u,
        );
        long + short
    }

    /// Profit against the opening cost (see `PositionView::float_profit`).
    pub fn float_profit(&self) -> (r: Amount)
        requires
            self@.in_range(),
        ensures
            r == self@.float_profit(),
            -3 * AMOUNT_LIMIT <= r <= 3 * AMOUNT_LIMIT,
    {
        let u = self.preset.unit_table;
        let long = Self::side_profit(self.lastest_price as i128, self.volume_long(), u);
        let short = Self::side_profit(self.lastest_price as i128, self.volume_short(), u);
        (long - self.open_cost_long) + (self.open_cost_short - short)
    }

    /// Average long holding price: cost per unit, zero when flat.
    pub fn avg_price_long(&self) -> (r: Amount)
        requires
            self@.in_range(),
        ensures
            r == (if self@.volume_long() == 0 { 0 } else { div_trunc(
                self.position_cost_long as int,
                self@.volume_long() * self@.unit(),
            ) }),
    {
        let v = self.volume_long();
        if v == 0 {
            return 0;
        }
        proof {
            let vv = v as int;
            let u = self@.unit();
            assert(-MAX_VOLUME * 0x1_0000 <= vv * u <= MAX_VOLUME * 0x1_0000) by (nonlinear_arith)
                requires -MAX_VOLUME <= vv <= MAX_VOLUME, 1 <= u <= 0x1_0000;
            assert(vv * u != 0) by (nonlinear_arith)
                requires vv != 0, u >= 1;
        }
        div_trunc_i128(self.position_cost_long, (v as i128) * (self.preset.unit_table as i128))
    }

    /// Average short holding price: cost per unit of the absolute short
    /// volume, zero when flat.
    pub fn avg_price_short(&self) -> (r: Amount)
        requires
            self@.in_range(),
        ensures
            r == (if self@.volume_short() == 0 { 0 } else { div_trunc(
                self.position_cost_short as int,
                (if self@.volume_short() >= 0 { self@.volume_short() } else { -self@.volume_short() }) * self@.unit(),
            ) }),
    {
        let v = self.volume_short();
        if v == 0 {
            return 0;
        }
        let av: i64 = if v >= 0 { v } else { -v };
        proof {
            let vv = av as int;
            let u = self@.unit();
            assert(0 < vv * u <= MAX_VOLUME * 0x1_0000) by (nonlinear_arith)
                requires 0 < vv <= MAX_VOLUME, 1 <= u <= 0x1_0000;
        }
        div_trunc_i128(self.position_cost_short, (av as i128) * (self.preset.unit_table as i128))
    }

    pub fn margin(&self) -> (r: Amount)
        requires
            self@.in_range(),
        ensures
            r == self@.margin(),
    {
        self.margin_long + self.margin_short
    }

    /// Books a deal: opening adds to today's volume at a volume-weighted
    /// cost; closing takes today's volume first, then earlier volume, and
    /// revalues the remaining cost at the holding price.
    pub fn receive_deal(
        &mut self,
        trade_id: &str,
        direction: Direction,
        offset: Offset,
        volume: Volume,
        price: Price,
        datetime: String,
    )
        requires
            old(self)@.deal_fits(direction, offset, volume as int, price as int),
        ensures
            final(self)@ == old(self)@.after_deal(direction, offset, volume as int, price as int, datetime@),
            final(self)@.in_range(),
    {
        let ghost p0 = self@;
        let unit = self.preset.unit_table;
        let mr = self.preset.margin_ratio;
        self.lastest_price = price;
        self.lastest_datetime = datetime;
        let pv = trade_amount(price, volume, unit);
        match offset {
            Offset::Open => {
                match direction {
                    Direction::Buy => {
                        let nv = self.volume_long_today + volume;
                        let nc = self.position_cost_long + pv;
                        let total = nv + self.volume_long_his;
                        if total > 0 {
                            proof {
                                assert(0 < total * unit <= MAX_VOLUME * 0x1_0000) by (nonlinear_arith)
                                    requires 0 < total <= MAX_VOLUME, 1 <= unit <= 0x1_0000;
                            }
                            self.position_price_long = div_trunc_i128(nc, (total as i128) * (unit as i128)) as i64;
                        }
                        self.position_cost_long = nc;
                        self.open_cost_long = self.open_cost_long + pv;
                        if self.open_price_long == 0 {
                            self.open_price_long = price;
                        }
                        self.volume_long_today = nv;
                        proof { lemma_ppm_shrinks(nc as int, mr as int); }
                        self.margin_long = mul_ppm(nc, mr);
                    },
                    Direction::Sell => {
                        let nv = self.volume_short_today + volume;
                        let nc = self.position_cost_short + pv;
                        let total = nv + self.volume_short_his;
                        if total > 0 {
                            proof {
                                assert(0 < total * unit <= MAX_VOLUME * 0x1_0000) by (nonlinear_arith)
                                    requires 0 < total <= MAX_VOLUME, 1 <= unit <= 0x1_0000;
                            }
                            self.position_price_short = div_trunc_i128(nc, (total as i128) * (unit as i128)) as i64;
                        }
                        self.position_cost_short = nc;
                        self.open_cost_short = self.open_cost_short + pv;
                        if self.open_price_short == 0 {
                            self.open_price_short = price;
                        }
                        self.volume_short_today = nv;
                        proof { lemma_ppm_shrinks(nc as int, mr as int); }
                        self.margin_short = mul_ppm(nc, mr);
                    },
                }
            },
            _ => {
                match direction {
                    Direction::Sell => {
                        let mut vol = volume;
                        let ct = min_i64(vol, self.volume_long_today);
                        if ct > 0 {
                            self.volume_long_today = self.volume_long_today - ct;
                            vol = vol - ct;
                        }
                        if vol > 0 {
                            let ch = min_i64(vol, self.volume_long_his);
                            self.volume_long_his = self.volume_long_his - ch;
                        }
                        let v = self.volume_long_today + self.volume_long_his;
                        if v == 0 {
                            self.position_cost_long = 0;
                            self.margin_long = 0;
                        } else {
                            let cost = trade_amount(self.position_price_long, v, unit);
                            self.position_cost_long = cost;
                            proof { lemma_ppm_shrinks(cost as int, mr as int); }
                            self.margin_long = mul_ppm(cost, mr);
                        }
                    },
                    Direction::Buy => {
                        let mut vol = volume;
                        let ct = min_i64(vol, self.volume_short_today);
                        if ct > 0 {
                            self.volume_short_today = self.volume_short_today - ct;
                            vol = vol - ct;
                        }
                        if vol > 0 {
                            let ch = min_i64(vol, self.volume_short_his);
                            self.volume_short_his = self.volume_short_his - ch;
                        }
                        let v = self.volume_short_today + self.volume_short_his;
                        if v == 0 {
                            self.position_cost_short = 0;
                            self.margin_short = 0;
                        } else {
                            let cost = trade_amount(self.position_price_short, v, unit);
                            self.position_cost_short = cost;
                            proof { lemma_ppm_shrinks(cost as int, mr as int); }
                            self.margin_short = mul_ppm(cost, mr);
                        }
                    },
                }
            },
        }
    }

    pub fn on_price_change(&mut self, new_price: Price, datetime: String)
        ensures
            final(self)@ == (PositionView {
                lastest_price: new_price,
                lastest_datetime: datetime@,
                ..old(self)@
            }),
    {
        self.lastest_price = new_price;
        self.lastest_datetime = datetime;
    }

    /// End of day: today's volumes become earlier volumes.
    pub fn daily_settle(&mut self)
        requires
            old(self)@.in_range(),
        ensures
            final(self)@ == old(self)@.after_settle(),
            final(self)@.in_range(),
    {
        self.volume_long_his = self.volume_long_his + self.volume_long_today;
        self.volume_long_today = 0;
        self.volume_short_his = self.volume_short_his + self.volume_short_today;
        self.volume_short_today = 0;
    }

    /// Freezes volume for a closing order: long volume for a sell, short
    /// volume for a buy, today's first. False, with nothing changed, when
    /// less is available.
    pub fn freeze_position(&mut self, direction: Direction, volume: Volume) -> (r: bool)
        requires
            old(self)@.freeze_fits(direction, volume as int),
        ensures
            (final(self)@, r) == old(self)@.after_freeze(direction, volume as int),
            final(self)@.in_range(),
    {
        match direction {
            Direction::Sell => {
                let avail = self.volume_long_avaliable();
                if avail < volume {
                    return false;
                }
                let ft = min_i64(volume, self.volume_long_today);
                self.volume_long_frozen_today = self.volume_long_frozen_today + ft;
                self.volume_long_frozen_his = self.volume_long_frozen_his + (volume - ft);
                true
            },
            Direction::Buy => {
                let avail = self.volume_short_avaliable();
                if avail < volume {
                    return false;
                }
                let ft = min_i64(volume, self.volume_short_today);
                self.volume_short_frozen_today = self.volume_short_frozen_today + ft;
                self.volume_short_frozen_his = self.volume_short_frozen_his + (volume - ft);
                true
            },
        }
    }

    /// Releases frozen volume (see `after_unfreeze`).
    pub fn unfreeze_position(&mut self, direction: Direction, volume: Volume)
        requires
            old(self)@.unfreeze_fits(direction, volume as int),
        ensures
            final(self)@ == old(self)@.after_unfreeze(direction, volume as int),
            final(self)@.in_range(),
    {
        match direction {
            Direction::Sell => {
                let ft = min_i64(volume, self.volume_long_frozen_today);
                self.volume_long_frozen_today = self.volume_long_frozen_today - ft;
                let rest = volume - ft;
                let take = min_i64(rest, self.volume_long_frozen_his);
                self.volume_long_frozen_his = self.volume_long_frozen_his - take;
            },
            Direction::Buy => {
                let ft = min_i64(volume, self.volume_short_frozen_today);
                self.volume_short_frozen_today = self.volume_short_frozen_today - ft;
                let rest = volume - ft;
                let take = min_i64(rest, self.volume_short_frozen_his);
                self.volume_short_frozen_his = self.volume_short_frozen_his - take;
            },
        }
    }
}

} // verus!

verus! {

/// End of day moves today's volume into earlier volume: the holding on
/// each side and what is available to close stay as they were.
pub proof fn law_daily_settle_keeps_holdings(p: PositionView)
    requires
        p.in_range(),
    ensures
        p.after_settle().volume_long() == p.volume_long(),
        p.after_settle().volume_short() == p.volume_short(),
        p.after_settle().avail_long() == p.avail_long(),
        p.after_settle().avail_short() == p.avail_short(),
        p.after_settle().volume_long_today == 0,
        p.after_settle().volume_short_today == 0,
{
}

/// Unfreezing what a successful freeze held back gives the same volume
/// available to close again, and the same total frozen on that side.
pub proof fn law_unfreeze_undoes_freeze(p: PositionView, direction: Direction, volume: int)
    requires
        p.freeze_fits(direction, volume),
        p.after_freeze(direction, volume).1,
        volume >= 0,
        p.volume_long_today >= 0,
        p.volume_short_today >= 0,
        p.volume_long_frozen_today >= 0,
        p.volume_long_frozen_his >= 0,
        p.volume_short_frozen_today >= 0,
        p.volume_short_frozen_his >= 0,
    ensures
        ({
            let q = p.after_freeze(direction, volume).0.after_unfreeze(direction, volume);
            &&& q.avail_long() == p.avail_long()
            &&& q.avail_short() == p.avail_short()
            &&& q.volume_long_frozen_today + q.volume_long_frozen_his == p.volume_long_frozen_today
                + p.volume_long_frozen_his
            &&& q.volume_short_frozen_today + q.volume_short_frozen_his == p.volume_short_frozen_today
                + p.volume_short_frozen_his
        }),
{
}

/// Opening a volume and then closing the same volume (a sell closes a
/// long, a buy a short) leaves the holding on both sides, today's and
/// earlier, as it was.
pub proof fn law_close_undoes_open(
    p: PositionView,
    direction: Direction,
    volume: int,
    open_price: int,
    close_price: int,
    t1: Seq<char>,
    t2: Seq<char>,
)
    requires
        p.deal_fits(direction, Offset::Open, volume, open_price),
        volume > 0,
        p.volume_long_today >= 0,
        p.volume_short_today >= 0,
    ensures
        ({
            let q = p.after_deal(direction, Offset::Open, volume, open_price, t1).after_deal(
                direction.spec_opposite(),
                Offset::Close,
                volume,
                close_price,
                t2,
            );
            &&& q.volume_long_today == p.volume_long_today
            &&& q.volume_long_his == p.volume_long_his
            &&& q.volume_short_today == p.volume_short_today
            &&& q.volume_short_his == p.volume_short_his
        }),
{
}

/// Most positions one collection may total over.
pub const MAX_POSITIONS: usize = 0x10_0000;

pub open spec fn pviews(s: Seq<Position>) -> Seq<PositionView> {
    s.map_values(|p: Position| p@)
}

pub open spec fn sum_market_value(s: Seq<PositionView>) -> int
    decreases s.len(),
{
    if s.len() == 0 { 0 } else { sum_market_value(s.drop_last()) + s.last().market_value() }
}

pub open spec fn sum_margin(s: Seq<PositionView>) -> int
    decreases s.len(),
{
    if s.len() == 0 { 0 } else { sum_margin(s.drop_last()) + s.last().margin() }
}

pub open spec fn sum_position_profit(s: Seq<PositionView>) -> int
    decreases s.len(),
{
    if s.len() == 0 { 0 } else { sum_position_profit(s.drop_last()) + s.last().position_profit() }
}

pub open spec fn sum_float_profit(s: Seq<PositionView>) -> int
    decreases s.len(),
{
    if s.len() == 0 { 0 } else { sum_float_profit(s.drop_last()) + s.last().float_profit() }
}

pub open spec fn count_nonempty(s: Seq<PositionView>) -> int
    decreases s.len(),
{
    if s.len() == 0 { 0 } else { count_nonempty(s.drop_last()) + if s.last().is_empty() { 0int } else { 1int } }
}

pub open spec fn all_in_range(s: Seq<PositionView>) -> bool {
    forall|i: int| 0 <= i < s.len() ==> (#[trigger] s[i]).in_range()
}

/// The values of an in-range position stay within twice the amount bound.
pub proof fn lemma_position_value_bounds(p: PositionView)
    requires
        p.in_range(),
    ensures
        -AMOUNT_LIMIT * 2 <= p.market_value() <= AMOUNT_LIMIT * 2,
        -AMOUNT_LIMIT * 3 <= p.float_profit() <= AMOUNT_LIMIT * 3,
        -AMOUNT_LIMIT * 2 <= p.position_profit() <= AMOUNT_LIMIT * 2,
        -AMOUNT_LIMIT * 2 <= p.margin() <= AMOUNT_LIMIT * 2,
{
    let u = p.unit();
    let n = p.volume_long() - p.volume_short();
    let lp = p.lastest_price as int;
    assert(-2 * MAX_VOLUME * MAX_PRICE <= n * lp <= 2 * MAX_VOLUME * MAX_PRICE) by (nonlinear_arith)
        requires -2 * MAX_VOLUME <= n <= 2 * MAX_VOLUME, -MAX_PRICE <= lp <= MAX_PRICE;
    let np = n * lp;
    assert(-AMOUNT_LIMIT <= np * u <= AMOUNT_LIMIT) by (nonlinear_arith)
        requires -2 * MAX_VOLUME * MAX_PRICE <= np <= 2 * MAX_VOLUME * MAX_PRICE, 1 <= u <= 0x1_0000;
    lemma_side_profit_bound(lp, p.volume_long(), u);
    lemma_side_profit_bound(lp, p.volume_short(), u);
    lemma_side_profit_bound(lp - p.position_price_long, p.volume_long(), u);
    lemma_side_profit_bound(p.position_price_short - lp, p.volume_short(), u);
}

proof fn lemma_side_profit_bound(d: int, v: int, u: int)
    requires
        -2 * MAX_PRICE <= d <= 2 * MAX_PRICE,
        vol_ok(v),
        1 <= u <= 0x1_0000,
    ensures
        -AMOUNT_LIMIT / 2 <= d * v * u <= AMOUNT_LIMIT / 2,
{
    assert(-2 * MAX_PRICE * MAX_VOLUME <= d * v <= 2 * MAX_PRICE * MAX_VOLUME) by (nonlinear_arith)
        requires -2 * MAX_PRICE <= d <= 2 * MAX_PRICE, -MAX_VOLUME <= v <= MAX_VOLUME;
    let dv = d * v;
    assert(-AMOUNT_LIMIT / 2 <= dv * u <= AMOUNT_LIMIT / 2) by (nonlinear_arith)
        requires -2 * MAX_PRICE * MAX_VOLUME <= dv <= 2 * MAX_PRICE * MAX_VOLUME, 1 <= u <= 0x1_0000;
}

/// Totals over a set of positions.
#[derive(Debug, Clone, Copy, Default)]
pub struct PositionStats {
    pub total_market_value: Amount,
    pub total_margin: Amount,
    pub total_position_profit: Amount,
    pub total_float_profit: Amount,
    pub position_count: usize,
}

impl PositionStats {
    pub fn from_positions(positions: &[Position]) -> (r: PositionStats)
        requires
            positions@.len() <= MAX_POSITIONS,
            all_in_range(pviews(positions@)),
        ensures
            r.total_market_value == sum_market_value(pviews(positions@)),
            r.total_margin == sum_margin(pviews(positions@)),
            r.total_position_profit == sum_position_profit(pviews(positions@)),
            r.total_float_profit == sum_float_profit(pviews(positions@)),
            r.position_count == count_nonempty(pviews(positions@)),
    {
        let ghost s = pviews(positions@);
        let mut mv: i128 = 0;
        let mut mg: i128 = 0;
        let mut pp: i128 = 0;
        let mut fp: i128 = 0;
        let mut cnt: usize = 0;
        let mut i: usize = 0;
        while i < positions.len()
            invariant
                s == pviews(positions@),
                positions@.len() <= MAX_POSITIONS,
                all_in_range(s),
                i <= positions@.len(),
                mv == sum_market_value(s.take(i as int)),
                mg == sum_margin(s.take(i as int)),
                pp == sum_position_profit(s.take(i as int)),
                fp == sum_float_profit(s.take(i as int)),
                cnt == count_nonempty(s.take(i as int)),
                -i * AMOUNT_LIMIT * 2 <= mv <= i * AMOUNT_LIMIT * 2,
                -i * AMOUNT_LIMIT * 2 <= mg <= i * AMOUNT_LIMIT * 2,
                -i * AMOUNT_LIMIT * 2 <= pp <= i * AMOUNT_LIMIT * 2,
                -i * AMOUNT_LIMIT * 3 <= fp <= i * AMOUNT_LIMIT * 3,
                cnt <= i,
            decreases positions@.len() - i,
        {
            let p = &positions[i];
            assert(s[i as int] == p@);
            assert(s.take(i + 1).drop_last() =~= s.take(i as int));
            assert(s.take(i + 1).last() == p@);
            assert(p@.in_range());
            proof {
                assert((i + 1) * AMOUNT_LIMIT * 2 <= MAX_POSITIONS * AMOUNT_LIMIT * 2) by (nonlinear_arith)
                    requires i + 1 <= MAX_POSITIONS;
                assert(i * AMOUNT_LIMIT * 2 + AMOUNT_LIMIT * 2 == (i + 1) * AMOUNT_LIMIT * 2) by (nonlinear_arith);
                assert((i + 1) * AMOUNT_LIMIT * 3 <= MAX_POSITIONS * AMOUNT_LIMIT * 3) by (nonlinear_arith)
                    requires i + 1 <= MAX_POSITIONS;
                assert(i * AMOUNT_LIMIT * 3 + AMOUNT_LIMIT * 3 == (i + 1) * AMOUNT_LIMIT * 3) by (nonlinear_arith);
            }
            mv = mv + p.market_value();
            mg = mg + p.margin();
            pp = pp + p.position_profit();
            fp = fp + p.float_profit();
            if !p.is_empty() {
                cnt = cnt + 1;
            }
            i = i + 1;
        }
        assert(s.take(positions@.len() as int) =~= s);
        PositionStats {
            total_market_value: mv,
            total_margin: mg,
            total_position_profit: pp,
            total_float_profit: fp,
            position_count: cnt,
        }
    }
}

} // verus!

verus! {

fn vol_ok_exec(v: i128) -> (r: bool)
    ensures
        r == vol_ok(v as int),
{
    -(MAX_VOLUME as i128) <= v && v <= MAX_VOLUME as i128
}

fn price_ok_exec(v: i128) -> (r: bool)
    ensures
        r == price_ok(v as int),
{
    -(MAX_PRICE as i128) <= v && v <= MAX_PRICE as i128
}

fn amount_ok_exec(v: i128) -> (r: bool)
    ensures
        r == amount_ok(v as int),
{
    -AMOUNT_LIMIT <= v && v <= AMOUNT_LIMIT
}

impl Position {
    pub fn in_range(&self) -> (r: bool)
        ensures
            r == self@.in_range(),
    {
        vol_ok_exec(self.volume_long_today as i128) && vol_ok_exec(self.volume_long_his as i128)
            && vol_ok_exec(self.volume_long_today as i128 + self.volume_long_his as i128)
            && vol_ok_exec(self.volume_short_today as i128) && vol_ok_exec(
            self.volume_short_his as i128,
        ) && vol_ok_exec(self.volume_short_today as i128 + self.volume_short_his as i128)
            && vol_ok_exec(self.volume_long_frozen_today as i128) && vol_ok_exec(
            self.volume_long_frozen_his as i128,
        ) && vol_ok_exec(self.volume_short_frozen_today as i128) && vol_ok_exec(
            self.volume_short_frozen_his as i128,
        ) && price_ok_exec(self.position_price_long as i128) && price_ok_exec(
            self.position_price_short as i128,
        ) && price_ok_exec(self.open_price_long as i128) && price_ok_exec(
            self.open_price_short as i128,
        ) && price_ok_exec(self.lastest_price as i128) && amount_ok_exec(self.position_cost_long)
            && amount_ok_exec(self.position_cost_short) && amount_ok_exec(self.open_cost_long)
            && amount_ok_exec(self.open_cost_short) && amount_ok_exec(self.margin_long)
            && amount_ok_exec(self.margin_short) && self.preset.is_valid()
    }

    /// Whether a deal keeps every number in range (see `deal_fits`).
    pub fn deal_fits(&self, direction: Direction, offset: Offset, volume: Volume, price: Price) -> (r: bool)
        ensures
            r == self@.deal_fits(direction, offset, volume as int, price as int),
    {
        if !self.in_range() || !(trade_in_range_exec(price, volume)) {
            return false;
        }
        let unit = self.preset.unit_table;
        let pv = trade_amount(price, volume, unit);
        match offset {
            Offset::Open => {
                let (today, his, cost, ocost) = match direction {
                    Direction::Buy => (self.volume_long_today, self.volume_long_his, self.position_cost_long, self.open_cost_long),
                    Direction::Sell => (self.volume_short_today, self.volume_short_his, self.position_cost_short, self.open_cost_short),
                };
                let nv: i128 = today as i128 + volume as i128;
                let nc: i128 = cost + pv;
                if !(vol_ok_exec(nv) && vol_ok_exec(nv + his as i128) && amount_ok_exec(nc)
                    && amount_ok_exec(ocost + pv)) {
                    return false;
                }
                let total: i128 = nv + his as i128;
                if total > 0 {
                    proof {
                        assert(0 < total * unit <= MAX_VOLUME * 0x1_0000) by (nonlinear_arith)
                            requires 0 < total <= MAX_VOLUME, 1 <= unit <= 0x1_0000;
                    }
                    price_ok_exec(div_trunc_i128(nc, total * (unit as i128)))
                } else {
                    true
                }
            },
            _ => true,
        }
    }

    pub fn freeze_fits(&self, direction: Direction, volume: Volume) -> (r: bool)
        ensures
            r == self@.freeze_fits(direction, volume as int),
    {
        if !self.in_range() || !vol_ok_exec(volume as i128) {
            return false;
        }
        let (today, ft0, fh0) = match direction {
            Direction::Sell => (self.volume_long_today, self.volume_long_frozen_today, self.volume_long_frozen_his),
            Direction::Buy => (self.volume_short_today, self.volume_short_frozen_today, self.volume_short_frozen_his),
        };
        let ft = min_i64(volume, today);
        vol_ok_exec(ft0 as i128 + ft as i128) && vol_ok_exec(fh0 as i128 + volume as i128 - ft as i128)
    }

    pub fn unfreeze_fits(&self, direction: Direction, volume: Volume) -> (r: bool)
        ensures
            r == self@.unfreeze_fits(direction, volume as int),
    {
        if !self.in_range() || !vol_ok_exec(volume as i128) {
            return false;
        }
        let (ft0, fh0) = match direction {
            Direction::Sell => (self.volume_long_frozen_today, self.volume_long_frozen_his),
            Direction::Buy => (self.volume_short_frozen_today, self.volume_short_frozen_his),
        };
        let ft = min_i64(volume, ft0);
        let rest: i128 = volume as i128 - ft as i128;
        let take: i128 = if rest <= fh0 as i128 { rest } else { fh0 as i128 };
        vol_ok_exec(ft0 as i128 - ft as i128) && vol_ok_exec(fh0 as i128 - take)
    }
}

fn trade_in_range_exec(price: Price, volume: Volume) -> (r: bool)
    ensures
        r == trade_in_range(price as int, volume as int),
{
    -MAX_PRICE <= price && price <= MAX_PRICE && -MAX_VOLUME <= volume && volume <= MAX_VOLUME
}

} // verus!

verus! {

/// Law: an opening deal adds its value `price * volume * unit` to the
/// holding cost of its side and its volume to the side's volume, and the
/// side's position price is then the holding cost per unit held, the
/// volume-weighted average over the whole side (truncated toward zero).
pub proof fn law_open_price_is_weighted_average(
    p: PositionView,
    direction: Direction,
    volume: int,
    price: int,
    datetime: Seq<char>,
)
    requires
        p.deal_fits(direction, Offset::Open, volume, price),
    ensures
        ({
            let q = p.after_deal(direction, Offset::Open, volume, price, datetime);
            let u = p.preset.unit_table as int;
            if direction is Buy {
                &&& q.position_cost_long == p.position_cost_long + price * volume * u
                &&& q.volume_long() == p.volume_long() + volume
                &&& q.volume_short() == p.volume_short()
                &&& (q.volume_long() > 0 ==> q.position_price_long == div_trunc(
                    q.position_cost_long as int,
                    q.volume_long() * u,
                ))
            } else {
                &&& q.position_cost_short == p.position_cost_short + price * volume * u
                &&& q.volume_short() == p.volume_short() + volume
                &&& q.volume_long() == p.volume_long()
                &&& (q.volume_short() > 0 ==> q.position_price_short == div_trunc(
                    q.position_cost_short as int,
                    q.volume_short() * u,
                ))
            }
        }),
{
}

} // verus!
