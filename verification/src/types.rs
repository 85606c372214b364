//! Fixed-point numeric types.
//!
//! Prices are integers in micro-units (one millionth of the quote
//! currency), volumes are whole units (shares, contracts), amounts are
//! micro-units of money, and rates are parts per million.

use vstd::prelude::*;

verus! {

/// A price in micro-units: 10.25 is written 10_250_000.
pub type Price = i64;

/// A volume in whole units.
pub type Volume = i64;

/// An amount of money in micro-units.
pub type Amount = i128;

/// A rate in parts per million: 0.0003 is written 300.
pub type Ppm = i64;

/// Micro-units per unit.
pub const SCALE: i64 = 1_000_000;

// The bounds below are where i128 money runs out. A trade's amount is
// price * volume * multiplier (at most 2^100 micro-units); each position
// keeps its amounts within 2^102, which leaves room for costs built from
// several trades, margins and floating profit; an account sums up to 2^20
// positions plus cash, fees and frozen cash within 2^126, just under the
// i128 limit of 2^127. Raising one bound means lowering another.

/// Largest price a trade may carry: 2^48 micro-units, about 281 million
/// per unit.
pub const MAX_PRICE: i64 = 0x1_0000_0000_0000;

/// Largest volume a trade may carry: 2^36 units, about 68.7 billion.
pub const MAX_VOLUME: i64 = 0x10_0000_0000;

/// Largest contract multiplier: 2^16.
pub const MAX_UNIT: i64 = 0x1_0000;

/// Largest rate (100% is 1_000_000 ppm; rates up to 16x are representable).
pub const MAX_PPM: i64 = 0x100_0000;

/// Magnitude bound kept by every amount a position accumulates.
pub const AMOUNT_LIMIT: i128 = 0x40_0000_0000_0000_0000_0000_0000;

} // verus!

verus! {

/// Largest money amount of a single trade: MAX_PRICE * MAX_VOLUME * MAX_UNIT
/// (2^100 micro-units).
pub const MAX_TRADE_AMOUNT: i128 = 0x10_0000_0000_0000_0000_0000_0000;

/// `a * r` parts per million, truncated toward zero.
pub open spec fn ppm_of(a: int, r: int) -> int {
    let p = a * r;
    if p >= 0 {
        p / 1_000_000
    } else {
        -((-p) / 1_000_000)
    }
}

/// A trade's price and volume are within the representable range.
pub open spec fn trade_in_range(price: int, volume: int) -> bool {
    &&& -MAX_PRICE <= price <= MAX_PRICE
    &&& -MAX_VOLUME <= volume <= MAX_VOLUME
}

pub proof fn lemma_trade_amount_bound(price: int, volume: int, unit: int)
    requires
        trade_in_range(price, volume),
        0 <= unit <= MAX_UNIT,
    ensures
        -MAX_PRICE * MAX_VOLUME <= price * volume <= MAX_PRICE * MAX_VOLUME,
        -MAX_TRADE_AMOUNT <= price * volume * unit <= MAX_TRADE_AMOUNT,
{
    assert(-MAX_PRICE * MAX_VOLUME <= price * volume <= MAX_PRICE * MAX_VOLUME) by (nonlinear_arith)
        requires
            -MAX_PRICE <= price <= MAX_PRICE,
            -MAX_VOLUME <= volume <= MAX_VOLUME,
    ;
    let pv = price * volume;
    assert(-MAX_PRICE * MAX_VOLUME * MAX_UNIT <= pv * unit <= MAX_PRICE * MAX_VOLUME * MAX_UNIT)
        by (nonlinear_arith)
        requires
            -MAX_PRICE * MAX_VOLUME <= pv <= MAX_PRICE * MAX_VOLUME,
            0 <= unit <= MAX_UNIT,
    ;
}

/// `r` parts per million of an amount within `b` stays within `17 * b`.
pub proof fn lemma_ppm_bound(a: int, r: int, b: int)
    requires
        -b <= a <= b,
        0 <= r <= MAX_PPM,
    ensures
        -b * MAX_PPM <= a * r <= b * MAX_PPM,
        -b * 17 <= ppm_of(a, r) <= b * 17,
{
    assert(-b * MAX_PPM <= a * r <= b * MAX_PPM) by (nonlinear_arith)
        requires
            -b <= a <= b,
            0 <= r <= MAX_PPM,
    ;
    let p = a * r;
    if p >= 0 {
        assert(p / 1_000_000 <= b * 17) by (nonlinear_arith)
            requires 0 <= p <= b * MAX_PPM;
        assert(p / 1_000_000 >= 0) by (nonlinear_arith)
            requires 0 <= p;
    } else {
        let q = -p;
        assert(q / 1_000_000 <= b * 17) by (nonlinear_arith)
            requires 0 <= q <= b * MAX_PPM;
        assert(q / 1_000_000 >= 0) by (nonlinear_arith)
            requires 0 <= q;
    }
}

/// `a * r` parts per million, truncated toward zero.
pub fn mul_ppm(a: Amount, r: Ppm) -> (res: Amount)
    requires
        -AMOUNT_LIMIT <= a <= AMOUNT_LIMIT,
        0 <= r <= MAX_PPM,
    ensures
        res == ppm_of(a as int, r as int),
{
    proof {
        lemma_ppm_bound(a as int, r as int, AMOUNT_LIMIT as int);
    }
    let p: i128 = a * (r as i128);
    if p >= 0 {
        p / 1_000_000
    } else {
        -((-p) / 1_000_000)
    }
}

/// The money value of `volume` units at `price` with multiplier `unit`.
pub fn trade_amount(price: Price, volume: Volume, unit: i64) -> (res: Amount)
    requires
        trade_in_range(price as int, volume as int),
        0 <= unit <= MAX_UNIT,
    ensures
        res == price * volume * unit,
        -MAX_TRADE_AMOUNT <= res <= MAX_TRADE_AMOUNT,
{
    proof {
        lemma_trade_amount_bound(price as int, volume as int, unit as int);
    }
    let pv: i128 = (price as i128) * (volume as i128);
    pv * (unit as i128)
}

} // verus!

verus! {

/// A rate of at most 100% never enlarges an amount.
pub proof fn lemma_ppm_shrinks(a: int, r: int)
    requires
        0 <= r <= 1_000_000,
    ensures
        a >= 0 ==> 0 <= ppm_of(a, r) <= a,
        a < 0 ==> a <= ppm_of(a, r) <= 0,
{
    if a >= 0 {
        assert(0 <= a * r <= a * 1_000_000) by (nonlinear_arith)
            requires a >= 0, 0 <= r <= 1_000_000;
        assert((a * r) / 1_000_000 <= a) by (nonlinear_arith)
            requires 0 <= a * r <= a * 1_000_000;
        assert((a * r) / 1_000_000 >= 0) by (nonlinear_arith)
            requires 0 <= a * r;
    } else {
        let b = -a;
        assert(0 <= b * r <= b * 1_000_000) by (nonlinear_arith)
            requires b >= 0, 0 <= r <= 1_000_000;
        assert(-(a * r) == b * r) by (nonlinear_arith)
            requires b == -a;
        assert((b * r) / 1_000_000 <= b) by (nonlinear_arith)
            requires 0 <= b * r <= b * 1_000_000;
        assert((b * r) / 1_000_000 >= 0) by (nonlinear_arith)
            requires 0 <= b * r;
    }
}

} // verus!
