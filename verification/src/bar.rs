//! Bars (candles) of any frequency, and collections of them.

use vstd::prelude::*;
use crate::date::Date;
use crate::order::{div_trunc, div_trunc_exec, lemma_div_trunc_bound};
use crate::enums::Frequency;
use crate::types::{Amount, Ppm, Price, Volume};

verus! {

/// One bar.
#[derive(Debug)]
pub struct Bar {
    pub order_book_id: String,
    pub exchange_id: String,
    pub frequency: Frequency,
    /// Bar time: a date for daily bars, a time to the minute otherwise.
    pub datetime: String,
    pub trading_date: Option<Date>,
    pub open: Price,
    pub high: Price,
    pub low: Price,
    pub close: Price,
    pub volume: Volume,
    pub amount: Amount,
    pub limit_up: Price,
    pub limit_down: Price,
    pub pre_close: Price,
    pub open_interest: Volume,
    /// Split coefficient in parts per million (1.0 is 1_000_000).
    pub split_coefficient_to: Ppm,
    pub dividend_cash_before_tax: Amount,
}

impl Clone for Bar {
    fn clone(&self) -> (r: Self)
        ensures
            r == *self,
    {
        Bar {
            order_book_id: self.order_book_id.clone(),
            exchange_id: self.exchange_id.clone(),
            frequency: self.frequency,
            datetime: self.datetime.clone(),
            trading_date: self.trading_date,
            open: self.open,
            high: self.high,
            low: self.low,
            close: self.close,
            volume: self.volume,
            amount: self.amount,
            limit_up: self.limit_up,
            limit_down: self.limit_down,
            pre_close: self.pre_close,
            open_interest: self.open_interest,
            split_coefficient_to: self.split_coefficient_to,
            dividend_cash_before_tax: self.dividend_cash_before_tax,
        }
    }
}

pub open spec fn max_int(a: int, b: int) -> int {
    if a >= b { a } else { b }
}

pub open spec fn min_int(a: int, b: int) -> int {
    if a <= b { a } else { b }
}

impl Bar {
    /// An empty bar: all numbers zero, no trading date, split
    /// coefficient one.
    pub fn new(order_book_id: String, freq: Frequency, datetime: String) -> (r: Bar)
        ensures
            r.order_book_id == order_book_id,
            r.exchange_id@.len() == 0,
            r.frequency == freq,
            r.datetime == datetime,
            r.trading_date is None,
            r.open == 0 && r.high == 0 && r.low == 0 && r.close == 0,
            r.volume == 0 && r.amount == 0,
            r.limit_up == 0 && r.limit_down == 0 && r.pre_close == 0,
            r.open_interest == 0,
            r.split_coefficient_to == 1_000_000,
            r.dividend_cash_before_tax == 0,
    {
        Bar {
            order_book_id,
            exchange_id: String::new(),
            frequency: freq,
            datetime,
            trading_date: None,
            open: 0,
            high: 0,
            low: 0,
            close: 0,
            volume: 0,
            amount: 0,
            limit_up: 0,
            limit_down: 0,
            pre_close: 0,
            open_interest: 0,
            split_coefficient_to: 1_000_000,
            dividend_cash_before_tax: 0,
        }
    }

    /// Close less previous close.
    pub fn change_amount(&self) -> (r: i128)
        ensures
            r == self.close - self.pre_close,
    {
        self.close as i128 - self.pre_close as i128
    }

    /// Closed at a positive limit-up price.
    pub fn is_limit_up(&self) -> (r: bool)
        ensures
            r == (self.limit_up > 0 && self.close == self.limit_up),
    {
        self.limit_up > 0 && self.close == self.limit_up
    }

    /// Closed at a positive limit-down price.
    pub fn is_limit_down(&self) -> (r: bool)
        ensures
            r == (self.limit_down > 0 && self.close == self.limit_down),
    {
        self.limit_down > 0 && self.close == self.limit_down
    }

    /// (high + low + close) / 3, truncated toward zero.
    pub fn typical_price(&self) -> (r: i128)
        ensures
            r == div_trunc(self.high + self.low + self.close, 3),
    {
        div_trunc_exec(self.high as i128 + self.low as i128 + self.close as i128, 3)
    }

    /// |close - open|.
    pub fn body_size(&self) -> (r: i128)
        ensures
            r == (if self.close >= self.open { self.close - self.open } else { self.open - self.close }),
    {
        let d = self.close as i128 - self.open as i128;
        if d >= 0 {
            d
        } else {
            -d
        }
    }

    /// High less the higher of close and open.
    pub fn upper_shadow(&self) -> (r: i128)
        ensures
            r == self.high - max_int(self.close as int, self.open as int),
    {
        let top = if self.close >= self.open {
            self.close
        } else {
            self.open
        };
        self.high as i128 - top as i128
    }

    /// The lower of close and open less low.
    pub fn lower_shadow(&self) -> (r: i128)
        ensures
            r == min_int(self.close as int, self.open as int) - self.low,
    {
        let bottom = if self.close <= self.open {
            self.close
        } else {
            self.open
        };
        bottom as i128 - self.low as i128
    }

    /// High less low.
    pub fn range(&self) -> (r: i128)
        ensures
            r == self.high - self.low,
    {
        self.high as i128 - self.low as i128
    }

    pub fn is_bullish(&self) -> (r: bool)
        ensures
            r == (self.close > self.open),
    {
        self.close > self.open
    }

    pub fn is_bearish(&self) -> (r: bool)
        ensures
            r == (self.close < self.open),
    {
        self.close < self.open
    }
}

/// `a` comes before `b` in text order (by character code).
pub open spec fn text_lt(a: Seq<char>, b: Seq<char>) -> bool
    decreases a.len(),
{
    if b.len() == 0 {
        false
    } else if a.len() == 0 {
        true
    } else if a[0] != b[0] {
        (a[0] as u32) < (b[0] as u32)
    } else {
        text_lt(a.drop_first(), b.drop_first())
    }
}

/// Whether `a` comes before `b` in text order.
pub fn text_less(a: &str, b: &str) -> (r: bool)
    ensures
        r == text_lt(a@, b@),
{
    let n: usize = a.unicode_len();
    let m: usize = b.unicode_len();
    let mut i: usize = 0;
    assert(a@.skip(0) =~= a@);
    assert(b@.skip(0) =~= b@);
    while i < n && i < m
        invariant
            n == a@.len(),
            m == b@.len(),
            i <= n,
            i <= m,
            a@.subrange(0, i as int) == b@.subrange(0, i as int),
            text_lt(a@, b@) == text_lt(a@.skip(i as int), b@.skip(i as int)),
        decreases n - i,
    {
        let ca = a.get_char(i);
        let cb = b.get_char(i);
        assert(a@.skip(i as int)[0] == ca && b@.skip(i as int)[0] == cb);
        if ca != cb {
            return (ca as u32) < (cb as u32);
        }
        assert(a@.skip(i as int).drop_first() =~= a@.skip(i + 1));
        assert(b@.skip(i as int).drop_first() =~= b@.skip(i + 1));
        assert(a@.subrange(0, i + 1) =~= a@.subrange(0, i as int).push(ca));
        assert(b@.subrange(0, i + 1) =~= b@.subrange(0, i as int).push(cb));
        i = i + 1;
    }
    i < m
}

/// Bar `b` goes after the bars of `s` whose time is not later: the stable
/// place of `b` in a time-sorted `s`.
pub open spec fn insert_by_time(s: Seq<Bar>, b: Bar) -> Seq<Bar>
    decreases s.len(),
{
    if s.len() == 0 {
        seq![b]
    } else if text_lt(b.datetime@, s.last().datetime@) {
        insert_by_time(s.drop_last(), b).push(s.last())
    } else {
        s.push(b)
    }
}

/// The bars in time order, bars of the same time in their given order.
pub open spec fn sorted_by_time(s: Seq<Bar>) -> Seq<Bar>
    decreases s.len(),
{
    if s.len() == 0 {
        s
    } else {
        insert_by_time(sorted_by_time(s.drop_last()), s.last())
    }
}

/// A collection of bars.
#[derive(Debug)]
pub struct BarCollection {
    pub bars: Vec<Bar>,
}

pub open spec fn closes_of(s: Seq<Bar>) -> Seq<i64> {
    s.map_values(|b: Bar| b.close)
}

pub open spec fn sum_i64(s: Seq<i64>) -> int
    decreases s.len(),
{
    if s.len() == 0 { 0 } else { sum_i64(s.drop_last()) + s.last() }
}

pub open spec fn max_seq(s: Seq<i64>) -> int
    decreases s.len(),
{
    if s.len() <= 1 {
        if s.len() == 0 { 0 } else { s[0] as int }
    } else {
        max_int(max_seq(s.drop_last()), s.last() as int)
    }
}

pub open spec fn min_seq(s: Seq<i64>) -> int
    decreases s.len(),
{
    if s.len() <= 1 {
        if s.len() == 0 { 0 } else { s[0] as int }
    } else {
        min_int(min_seq(s.drop_last()), s.last() as int)
    }
}

proof fn lemma_sum_bound(s: Seq<i64>)
    ensures
        s.len() * (i64::MIN as int) <= sum_i64(s) <= s.len() * (i64::MAX as int),
    decreases s.len(),
{
    if s.len() > 0 {
        lemma_sum_bound(s.drop_last());
        assert(s.drop_last().len() * (i64::MIN as int) + (i64::MIN as int) == s.len() * (i64::MIN as int)) by (nonlinear_arith)
            requires s.drop_last().len() + 1 == s.len();
        assert(s.drop_last().len() * (i64::MAX as int) + (i64::MAX as int) == s.len() * (i64::MAX as int)) by (nonlinear_arith)
            requires s.drop_last().len() + 1 == s.len();
    }
}

/// The truncated average of `n` numbers fits their type.
proof fn lemma_avg_fits(sum: int, n: int)
    requires
        n >= 1,
        n * (i64::MIN as int) <= sum <= n * (i64::MAX as int),
    ensures
        i64::MIN <= div_trunc(sum, n) <= i64::MAX,
{
    if sum >= 0 {
        assert(sum / n <= i64::MAX) by (nonlinear_arith)
            requires 0 <= sum <= n * (i64::MAX as int), n >= 1;
        assert(sum / n >= 0) by (nonlinear_arith)
            requires sum >= 0, n >= 1;
    } else {
        let a = -sum;
        assert(a / n <= -(i64::MIN as int)) by (nonlinear_arith)
            requires 0 <= a <= n * (-(i64::MIN as int)), n >= 1;
        assert(a / n >= 0) by (nonlinear_arith)
            requires a >= 0, n >= 1;
    }
}

impl BarCollection {
    pub fn new() -> (r: BarCollection)
        ensures
            r.bars@.len() == 0,
    {
        BarCollection { bars: Vec::new() }
    }

    pub fn add(&mut self, bar: Bar)
        ensures
            final(self).bars@ == old(self).bars@.push(bar),
    {
        self.bars.push(bar);
    }

    /// Appends a batch, in order.
    pub fn add_batch(&mut self, batch: Vec<Bar>)
        ensures
            final(self).bars@ == old(self).bars@ + batch@,
    {
        let mut b = batch;
        self.bars.append(&mut b);
    }

    pub fn size(&self) -> (r: usize)
        ensures
            r == self.bars@.len(),
    {
        self.bars.len()
    }

    pub fn is_empty(&self) -> (r: bool)
        ensures
            r == (self.bars@.len() == 0),
    {
        self.bars.len() == 0
    }

    pub fn last(&self) -> (r: Option<&Bar>)
        ensures
            r == (if self.bars@.len() == 0 { None } else { Some(&self.bars@.last()) }),
    {
        if self.bars.len() == 0 {
            None
        } else {
            Some(&self.bars[self.bars.len() - 1])
        }
    }

    /// The bar at position `index` (what indexing the collection gives).
    pub fn get(&self, index: usize) -> (r: &Bar)
        requires
            index < self.bars@.len(),
        ensures
            *r == self.bars@[index as int],
    {
        &self.bars[index]
    }

    /// The bars from `start` to `end` (exclusive), both clamped to the
    /// collection and `start` to `end`.
    pub fn get_range(&self, start: usize, end: usize) -> (r: &[Bar])
        ensures
            ({
                let e = if end <= self.bars@.len() { end as int } else { self.bars@.len() as int };
                let s = if start <= e { start as int } else { e };
                r@ == self.bars@.subrange(s, e)
            }),
    {
        let e = if end <= self.bars.len() { end } else { self.bars.len() };
        let s = if start <= e { start } else { e };
        vstd::slice::slice_subrange(self.bars.as_slice(), s, e)
    }

    pub fn closes(&self) -> (r: Vec<Price>)
        ensures
            r@ == closes_of(self.bars@),
    {
        let mut out: Vec<Price> = Vec::new();
        let mut i: usize = 0;
        while i < self.bars.len()
            invariant
                i <= self.bars@.len(),
                out@ == closes_of(self.bars@).take(i as int),
            decreases self.bars@.len() - i,
        {
            out.push(self.bars[i].close);
            assert(closes_of(self.bars@).take(i + 1) =~= closes_of(self.bars@).take(i as int).push(self.bars@[i as int].close));
            i = i + 1;
        }
        assert(closes_of(self.bars@).take(self.bars@.len() as int) =~= closes_of(self.bars@));
        out
    }

    pub fn highs(&self) -> (r: Vec<Price>)
        ensures
            r@ == self.bars@.map_values(|b: Bar| b.high),
    {
        let ghost h = self.bars@.map_values(|b: Bar| b.high);
        let mut out: Vec<Price> = Vec::new();
        let mut i: usize = 0;
        while i < self.bars.len()
            invariant
                i <= self.bars@.len(),
                h == self.bars@.map_values(|b: Bar| b.high),
                out@ == h.take(i as int),
            decreases self.bars@.len() - i,
        {
            out.push(self.bars[i].high);
            assert(h.take(i + 1) =~= h.take(i as int).push(self.bars@[i as int].high));
            i = i + 1;
        }
        assert(h.take(self.bars@.len() as int) =~= h);
        out
    }

    pub fn lows(&self) -> (r: Vec<Price>)
        ensures
            r@ == self.bars@.map_values(|b: Bar| b.low),
    {
        let ghost h = self.bars@.map_values(|b: Bar| b.low);
        let mut out: Vec<Price> = Vec::new();
        let mut i: usize = 0;
        while i < self.bars.len()
            invariant
                i <= self.bars@.len(),
                h == self.bars@.map_values(|b: Bar| b.low),
                out@ == h.take(i as int),
            decreases self.bars@.len() - i,
        {
            out.push(self.bars[i].low);
            assert(h.take(i + 1) =~= h.take(i as int).push(self.bars@[i as int].low));
            i = i + 1;
        }
        assert(h.take(self.bars@.len() as int) =~= h);
        out
    }

    pub fn volumes(&self) -> (r: Vec<Volume>)
        ensures
            r@ == self.bars@.map_values(|b: Bar| b.volume),
    {
        let ghost h = self.bars@.map_values(|b: Bar| b.volume);
        let mut out: Vec<Volume> = Vec::new();
        let mut i: usize = 0;
        while i < self.bars.len()
            invariant
                i <= self.bars@.len(),
                h == self.bars@.map_values(|b: Bar| b.volume),
                out@ == h.take(i as int),
            decreases self.bars@.len() - i,
        {
            out.push(self.bars[i].volume);
            assert(h.take(i + 1) =~= h.take(i as int).push(self.bars@[i as int].volume));
            i = i + 1;
        }
        assert(h.take(self.bars@.len() as int) =~= h);
        out
    }

    /// The highest high, none for an empty collection.
    pub fn max_price(&self) -> (r: Option<Price>)
        ensures
            r == (if self.bars@.len() == 0 { None } else { Some(
                max_seq(self.bars@.map_values(|b: Bar| b.high)) as i64,
            ) }),
    {
        let h = self.highs();
        if h.len() == 0 {
            return None;
        }
        let mut m: i64 = h[0];
        let mut i: usize = 1;
        while i < h.len()
            invariant
                1 <= i <= h@.len(),
                m == max_seq(h@.take(i as int)),
            decreases h@.len() - i,
        {
            assert(h@.take(i + 1).drop_last() =~= h@.take(i as int));
            if h[i] > m {
                m = h[i];
            }
            i = i + 1;
        }
        assert(h@.take(h@.len() as int) =~= h@);
        Some(m)
    }

    /// The lowest low, none for an empty collection.
    pub fn min_price(&self) -> (r: Option<Price>)
        ensures
            r == (if self.bars@.len() == 0 { None } else { Some(
                min_seq(self.bars@.map_values(|b: Bar| b.low)) as i64,
            ) }),
    {
        let h = self.lows();
        if h.len() == 0 {
            return None;
        }
        let mut m: i64 = h[0];
        let mut i: usize = 1;
        while i < h.len()
            invariant
                1 <= i <= h@.len(),
                m == min_seq(h@.take(i as int)),
            decreases h@.len() - i,
        {
            assert(h@.take(i + 1).drop_last() =~= h@.take(i as int));
            if h[i] < m {
                m = h[i];
            }
            i = i + 1;
        }
        assert(h@.take(h@.len() as int) =~= h@);
        Some(m)
    }

    /// The average close, truncated toward zero; zero when empty.
    pub fn avg_price(&self) -> (r: Price)
        ensures
            r == (if self.bars@.len() == 0 { 0 } else { div_trunc(
                sum_i64(closes_of(self.bars@)),
                self.bars@.len() as int,
            ) }),
    {
        if self.bars.len() == 0 {
            return 0;
        }
        let c = self.closes();
        assert(c@.len() == c.len());
        let mut sum: i128 = 0;
        let mut i: usize = 0;
        while i < c.len()
            invariant
                i <= c@.len(),
                c@.len() < 0x1_0000_0000_0000_0000,
                sum == sum_i64(c@.take(i as int)),
            decreases c@.len() - i,
        {
            proof {
                assert(c@.take(i + 1).drop_last() =~= c@.take(i as int));
                lemma_sum_bound(c@.take(i as int));
                assert(i * (i64::MAX as int) <= 0x1_0000_0000_0000_0000 * (i64::MAX as int)) by (nonlinear_arith)
                    requires i <= 0x1_0000_0000_0000_0000;
                assert(i * (i64::MIN as int) >= 0x1_0000_0000_0000_0000 * (i64::MIN as int)) by (nonlinear_arith)
                    requires 0 <= i <= 0x1_0000_0000_0000_0000;
            }
            sum = sum + c[i] as i128;
            i = i + 1;
        }
        assert(c@.take(c@.len() as int) =~= c@);
        proof {
            lemma_sum_bound(c@);
            lemma_avg_fits(sum as int, c@.len() as int);
            assert(c@.len() * (i64::MAX as int) <= 0x1_0000_0000_0000_0000 * (i64::MAX as int)) by (nonlinear_arith)
                requires c@.len() <= 0x1_0000_0000_0000_0000;
            assert(c@.len() * (i64::MIN as int) >= 0x1_0000_0000_0000_0000 * (i64::MIN as int)) by (nonlinear_arith)
                requires 0 <= c@.len() <= 0x1_0000_0000_0000_0000;
        }
        div_trunc_wide(sum, c.len() as i128) as i64
    }

    /// The sum of the volumes.
    pub fn total_volume(&self) -> (r: i128)
        ensures
            r == sum_i64(self.bars@.map_values(|b: Bar| b.volume)),
    {
        let v = self.volumes();
        assert(v@.len() == v.len());
        let mut sum: i128 = 0;
        let mut i: usize = 0;
        while i < v.len()
            invariant
                i <= v@.len(),
                v@.len() < 0x1_0000_0000_0000_0000,
                sum == sum_i64(v@.take(i as int)),
            decreases v@.len() - i,
        {
            proof {
                assert(v@.take(i + 1).drop_last() =~= v@.take(i as int));
                lemma_sum_bound(v@.take(i as int));
                assert(i * (i64::MAX as int) <= 0x1_0000_0000_0000_0000 * (i64::MAX as int)) by (nonlinear_arith)
                    requires i <= 0x1_0000_0000_0000_0000;
                assert(i * (i64::MIN as int) >= 0x1_0000_0000_0000_0000 * (i64::MIN as int)) by (nonlinear_arith)
                    requires 0 <= i <= 0x1_0000_0000_0000_0000;
            }
            sum = sum + v[i] as i128;
            i = i + 1;
        }
        assert(v@.take(v@.len() as int) =~= v@);
        sum
    }

    /// Sorts the bars by time, bars of the same time keeping their order.
    pub fn sort_by_time(&mut self)
        ensures
            final(self).bars@ == sorted_by_time(old(self).bars@),
    {
        let mut v: Vec<Bar> = Vec::new();
        std::mem::swap(&mut v, &mut self.bars);
        self.bars = sort_bars_by_time(v);
    }

    /// Simple moving average of the closes over `period` bars: none until
    /// `period` bars are in, then the truncated average of the last
    /// `period` closes.
    pub fn sma(&self, period: usize) -> (r: Vec<Option<Price>>)
        requires
            period >= 1,
        ensures
            r@.len() == self.bars@.len(),
            forall|i: int|
                0 <= i < r@.len() ==> #[trigger] r@[i] == (if i + 1 < period { None } else { Some(
                    div_trunc(sum_i64(closes_of(self.bars@).subrange(i + 1 - period, i + 1)), period as int) as i64,
                ) }),
    {
        let closes = self.closes();
        let n: usize = closes.len();
        assert(closes@.len() == n);
        let mut out: Vec<Option<Price>> = Vec::new();
        let mut i: usize = 0;
        while i < n
            invariant
                n == closes@.len(),
                closes@ == closes_of(self.bars@),
                period >= 1,
                i <= n,
                out@.len() == i,
                n < 0x1_0000_0000_0000_0000,
                forall|j: int|
                    0 <= j < i ==> #[trigger] out@[j] == (if j + 1 < period { None } else { Some(
                        div_trunc(sum_i64(closes@.subrange(j + 1 - period, j + 1)), period as int) as i64,
                    ) }),
            decreases n - i,
        {
            if i + 1 < period {
                out.push(None);
            } else {
                let start = i + 1 - period;
                let mut sum: i128 = 0;
                let mut k: usize = start;
                while k <= i
                    invariant
                        start <= k <= i + 1,
                        i < n,
                        n == closes@.len(),
                        n < 0x1_0000_0000_0000_0000,
                        sum == sum_i64(closes@.subrange(start as int, k as int)),
                    decreases i + 1 - k,
                {
                    proof {
                        assert(closes@.subrange(start as int, k + 1).drop_last() =~= closes@.subrange(start as int, k as int));
                        lemma_sum_bound(closes@.subrange(start as int, k as int));
                        assert((k - start) * (i64::MAX as int) <= 0x1_0000_0000_0000_0000 * (i64::MAX as int)) by (nonlinear_arith)
                            requires 0 <= k - start <= 0x1_0000_0000_0000_0000;
                        assert((k - start) * (i64::MIN as int) >= 0x1_0000_0000_0000_0000 * (i64::MIN as int)) by (nonlinear_arith)
                            requires 0 <= k - start <= 0x1_0000_0000_0000_0000;
                    }
                    sum = sum + closes[k] as i128;
                    k = k + 1;
                }
                proof {
                    let w = closes@.subrange(start as int, i + 1);
                    lemma_sum_bound(w);
                    assert(w.len() == period);
                    lemma_avg_fits(sum as int, period as int);
                }
                out.push(Some(div_trunc_wide(sum, period as i128) as i64));
            }
            i = i + 1;
        }
        out
    }
}

/// Integer division truncated toward zero, for any dividend but the
/// smallest and a positive divisor.
fn div_trunc_wide(a: i128, b: i128) -> (r: i128)
    requires
        a > i128::MIN,
        b >= 1,
    ensures
        r == div_trunc(a as int, b as int),
{
    let ua = if a >= 0 { a } else { -a };
    let q = ua / b;
    if a >= 0 {
        q
    } else {
        -q
    }
}

/// Inserts `b` into time-sorted `v` after every bar not later than it.
fn insert_bar_by_time(v: &mut Vec<Bar>, b: Bar)
    ensures
        final(v)@ == insert_by_time(old(v)@, b),
{
    let mut i: usize = v.len();
    assert(old(v)@.take(i as int) =~= old(v)@);
    assert(old(v)@.skip(i as int) =~= Seq::<Bar>::empty());
    assert(insert_by_time(old(v)@, b) + Seq::<Bar>::empty() =~= insert_by_time(old(v)@, b));
    while i > 0 && text_less(b.datetime.as_str(), v[i - 1].datetime.as_str())
        invariant
            i <= v@.len(),
            v@ == old(v)@,
            insert_by_time(old(v)@, b) == insert_by_time(old(v)@.take(i as int), b) + old(v)@.skip(i as int),
        decreases i,
    {
        proof {
            let t = old(v)@.take(i as int);
            assert(t.drop_last() =~= old(v)@.take(i - 1));
            assert(t.last() == old(v)@[i - 1]);
            assert(old(v)@.skip(i - 1) =~= seq![old(v)@[i - 1]] + old(v)@.skip(i as int));
            assert(insert_by_time(t, b) == insert_by_time(t.drop_last(), b).push(t.last()));
            assert(insert_by_time(t.drop_last(), b).push(t.last()) + old(v)@.skip(i as int) =~= insert_by_time(
                t.drop_last(),
                b,
            ) + (seq![t.last()] + old(v)@.skip(i as int)));
        }
        i = i - 1;
    }
    proof {
        let t = old(v)@.take(i as int);
        if i > 0 {
            assert(t.last() == old(v)@[i - 1]);
            assert(t.drop_last().push(t.last()) =~= t);
        }
        assert(insert_by_time(t, b) =~= t.push(b));
    }
    v.insert(i, b);
    assert(v@ =~= old(v)@.take(i as int).push(b) + old(v)@.skip(i as int));
}

/// The bars in time order, bars of the same time keeping their order.
pub fn sort_bars_by_time(bars: Vec<Bar>) -> (r: Vec<Bar>)
    ensures
        r@ == sorted_by_time(bars@),
{
    let mut out: Vec<Bar> = Vec::new();
    let mut i: usize = 0;
    assert(bars@.take(0) =~= Seq::<Bar>::empty());
    while i < bars.len()
        invariant
            i <= bars@.len(),
            out@ == sorted_by_time(bars@.take(i as int)),
        decreases bars@.len() - i,
    {
        let b = bars[i].clone();
        assert(bars@.take(i + 1).drop_last() =~= bars@.take(i as int));
        assert(bars@.take(i + 1).last() == b);
        insert_bar_by_time(&mut out, b);
        i = i + 1;
    }
    assert(bars@.take(bars@.len() as int) =~= bars@);
    out
}

/// No bar of `s` comes before an earlier one in time.
pub open spec fn time_ordered(s: Seq<Bar>) -> bool {
    forall|i: int, j: int| 0 <= i < j < s.len() ==> !text_lt(s[j].datetime@, s[i].datetime@)
}

proof fn lemma_text_lt_irrefl(a: Seq<char>)
    ensures
        !text_lt(a, a),
    decreases a.len(),
{
    if a.len() > 0 {
        lemma_text_lt_irrefl(a.drop_first());
    }
}

proof fn lemma_text_lt_trans(a: Seq<char>, b: Seq<char>, c: Seq<char>)
    requires
        text_lt(a, b),
        text_lt(b, c),
    ensures
        text_lt(a, c),
    decreases a.len(),
{
    if a.len() > 0 && a[0] == b[0] && b[0] == c[0] {
        lemma_text_lt_trans(a.drop_first(), b.drop_first(), c.drop_first());
    }
}

proof fn lemma_text_lt_total(a: Seq<char>, b: Seq<char>)
    ensures
        text_lt(a, b) || text_lt(b, a) || a == b,
    decreases a.len(),
{
    if a.len() == 0 && b.len() == 0 {
        assert(a =~= b);
    } else if a.len() > 0 && b.len() > 0 && a[0] == b[0] {
        lemma_text_lt_total(a.drop_first(), b.drop_first());
        if a.drop_first() == b.drop_first() {
            assert(a =~= seq![a[0]] + a.drop_first());
            assert(b =~= seq![b[0]] + b.drop_first());
        }
    } else if a.len() > 0 && b.len() > 0 {
        vstd::utf8::char_u32_cast(a[0], a[0] as u32);
        vstd::utf8::char_u32_cast(b[0], b[0] as u32);
    }
}

/// Not after `b` and `b` not after `c` gives not after `c`: the order is
/// total, so "not before" is transitive.
proof fn lemma_not_lt_trans(a: Seq<char>, b: Seq<char>, c: Seq<char>)
    requires
        !text_lt(a, b),
        !text_lt(b, c),
    ensures
        !text_lt(a, c),
{
    if text_lt(a, c) {
        lemma_text_lt_total(a, b);
        lemma_text_lt_total(b, c);
        if text_lt(b, a) && text_lt(c, b) {
            lemma_text_lt_trans(c, b, a);
            lemma_text_lt_trans(a, c, a);
            lemma_text_lt_irrefl(a);
        } else if text_lt(b, a) {
            lemma_text_lt_trans(b, a, c);
        } else if text_lt(c, b) {
            lemma_text_lt_trans(a, c, b);
        }
    }
}

proof fn lemma_insert_by_time(s: Seq<Bar>, b: Bar)
    requires
        time_ordered(s),
    ensures
        time_ordered(insert_by_time(s, b)),
        insert_by_time(s, b).to_multiset() == s.to_multiset().insert(b),
    decreases s.len(),
{
    broadcast use vstd::seq_lib::group_to_multiset_ensures;
    if s.len() == 0 {
        assert(seq![b] =~= Seq::<Bar>::empty().push(b));
    } else if text_lt(b.datetime@, s.last().datetime@) {
        let d = s.drop_last();
        let l = s.last();
        assert(time_ordered(d)) by {
            assert forall|i: int, j: int| 0 <= i < j < d.len() implies !text_lt(d[j].datetime@, d[i].datetime@) by {
                assert(d[i] == s[i] && d[j] == s[j]);
            }
        }
        lemma_insert_by_time(d, b);
        let r = insert_by_time(d, b);
        assert(s =~= d.push(l));
        assert forall|i: int, j: int| 0 <= i < j < r.len() + 1 implies !text_lt(
            r.push(l)[j].datetime@,
            r.push(l)[i].datetime@,
        ) by {
            if j == r.len() {
                let x = r[i];
                assert(r.to_multiset().count(x) > 0);
                if x == b {
                    if text_lt(l.datetime@, b.datetime@) {
                        lemma_text_lt_trans(b.datetime@, l.datetime@, b.datetime@);
                        lemma_text_lt_irrefl(b.datetime@);
                    }
                } else {
                    assert(d.to_multiset().count(x) > 0);
                    let k = choose|k: int| 0 <= k < d.len() && d[k] == x;
                    assert(s[k] == x && s[s.len() - 1] == l);
                }
            } else {
                assert(r.push(l)[i] == r[i] && r.push(l)[j] == r[j]);
            }
        }
    } else {
        assert forall|i: int, j: int| 0 <= i < j < s.len() + 1 implies !text_lt(
            s.push(b)[j].datetime@,
            s.push(b)[i].datetime@,
        ) by {
            if j == s.len() {
                if i < s.len() - 1 {
                    assert(!text_lt(s[s.len() - 1].datetime@, s[i].datetime@));
                    lemma_not_lt_trans(b.datetime@, s.last().datetime@, s[i].datetime@);
                }
            } else {
                assert(s.push(b)[i] == s[i] && s.push(b)[j] == s[j]);
            }
        }
    }
}

/// The bars of `s` whose time is `t`, in their order.
pub open spec fn bars_at(s: Seq<Bar>, t: Seq<char>) -> Seq<Bar>
    decreases s.len(),
{
    if s.len() == 0 {
        Seq::empty()
    } else {
        let r = bars_at(s.drop_last(), t);
        if s.last().datetime@ == t { r.push(s.last()) } else { r }
    }
}

proof fn lemma_bars_at_push(s: Seq<Bar>, b: Bar, t: Seq<char>)
    ensures
        bars_at(s.push(b), t) == (if b.datetime@ == t { bars_at(s, t).push(b) } else { bars_at(s, t) }),
{
    assert(s.push(b).drop_last() =~= s);
}

proof fn lemma_insert_bars_at(s: Seq<Bar>, b: Bar, t: Seq<char>)
    ensures
        bars_at(insert_by_time(s, b), t) == (if b.datetime@ == t { bars_at(s, t).push(b) } else { bars_at(s, t) }),
    decreases s.len(),
{
    if s.len() == 0 {
        lemma_bars_at_push(s, b, t);
        assert(seq![b] =~= s.push(b));
    } else if text_lt(b.datetime@, s.last().datetime@) {
        let d = s.drop_last();
        let l = s.last();
        lemma_insert_bars_at(d, b, t);
        lemma_bars_at_push(insert_by_time(d, b), l, t);
        lemma_bars_at_push(d, l, t);
        assert(s =~= d.push(l));
        lemma_text_lt_irrefl(b.datetime@);
    } else {
        lemma_bars_at_push(s, b, t);
    }
}

proof fn lemma_sort_keeps_bars_at(s: Seq<Bar>, t: Seq<char>)
    ensures
        bars_at(sorted_by_time(s), t) == bars_at(s, t),
    decreases s.len(),
{
    if s.len() > 0 {
        lemma_sort_keeps_bars_at(s.drop_last(), t);
        lemma_insert_bars_at(sorted_by_time(s.drop_last()), s.last(), t);
        lemma_bars_at_push(s.drop_last(), s.last(), t);
        assert(s =~= s.drop_last().push(s.last()));
    }
}

/// Law: sorting bars by time orders them by time (text order of their
/// times), keeps exactly the bars it was given, and keeps the bars of
/// each time in their given order.
pub proof fn law_sort_by_time(s: Seq<Bar>)
    ensures
        time_ordered(sorted_by_time(s)),
        sorted_by_time(s).to_multiset() == s.to_multiset(),
        forall|t: Seq<char>| #[trigger] bars_at(sorted_by_time(s), t) == bars_at(s, t),
    decreases s.len(),
{
    broadcast use vstd::seq_lib::group_to_multiset_ensures;
    if s.len() > 0 {
        law_sort_by_time(s.drop_last());
        lemma_insert_by_time(sorted_by_time(s.drop_last()), s.last());
        assert(s =~= s.drop_last().push(s.last()));
    }
    assert forall|t: Seq<char>| #[trigger] bars_at(sorted_by_time(s), t) == bars_at(s, t) by {
        lemma_sort_keeps_bars_at(s, t);
    }
}

} // verus!
