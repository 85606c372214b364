//! Strategies and the backtest engine: bars are replayed in time order,
//! the strategy sees each one and places orders, the market fills them,
//! and the account's value is recorded after every bar.

use vstd::prelude::*;
use crate::account::{acc_ok, qifi_snapshot_of, Account, AccountView};
use crate::bar::{sort_bars_by_time, sorted_by_time, Bar};
use crate::date::{date_text, Date};
use crate::enums::AccountEnvironment;
use crate::market_system::{concat_all, execution_chain, MarketOrder, MarketView, QAMarketSystem};
use crate::order::{div_trunc, lemma_div_trunc_bound};
use crate::qifi::{Qifi, Trade};
use crate::orderbook::TradeView;
use crate::strmap::StrMap;
use crate::text::{push_str_chars, string_from_chars};
use crate::types::{Amount, Price, Volume, MAX_PRICE};

verus! {

/// A value a strategy records for plotting. Values are fixed-point with
/// six decimals (1.0 is 1_000_000).
#[derive(Debug)]
pub struct IndicatorPoint {
    pub datetime: String,
    pub name: String,
    pub value: i64,
}

/// What a strategy may do while it runs: read the market, place orders
/// for its account (queued once it returns), and record indicator values.
pub struct Context<'a> {
    pub market: &'a QAMarketSystem,
    pub account_cookie: String,
    pub current_datetime: String,
    pub orders: Vec<MarketOrder>,
    pub indicators: Vec<IndicatorPoint>,
}

impl<'a> Context<'a> {
    pub fn new(market: &'a QAMarketSystem, account_cookie: String, current_datetime: String) -> (r: Context<'a>)
        ensures
            r.market == market,
            r.account_cookie == account_cookie,
            r.current_datetime == current_datetime,
            r.orders@.len() == 0,
            r.indicators@.len() == 0,
    {
        Context { market, account_cookie, current_datetime, orders: Vec::new(), indicators: Vec::new() }
    }

    /// Places a buy for the context's account (price zero or less: at the
    /// latest price).
    pub fn buy(&mut self, code: &str, volume: Volume, price: Price)
        ensures
            final(self).market == old(self).market,
            final(self).account_cookie == old(self).account_cookie,
            final(self).current_datetime == old(self).current_datetime,
            final(self).indicators == old(self).indicators,
            final(self).orders@.len() == old(self).orders@.len() + 1,
            final(self).orders@.take(old(self).orders@.len() as int) == old(self).orders@,
            ({
                let o = final(self).orders@.last();
                &&& o.account_cookie@ == old(self).account_cookie@
                &&& o.code@ == code@
                &&& o.volume == volume
                &&& o.price == price
                &&& o.direction is Buy
                &&& o.offset@ == "open"@
                &&& o.label@.len() == 0
            }),
    {
        let o = MarketOrder::buy(self.account_cookie.as_str(), code, volume, price);
        self.orders.push(o);
        assert(self.orders@.take(old(self).orders@.len() as int) =~= old(self).orders@);
    }

    /// Places a sell for the context's account.
    pub fn sell(&mut self, code: &str, volume: Volume, price: Price)
        ensures
            final(self).market == old(self).market,
            final(self).account_cookie == old(self).account_cookie,
            final(self).current_datetime == old(self).current_datetime,
            final(self).indicators == old(self).indicators,
            final(self).orders@.len() == old(self).orders@.len() + 1,
            final(self).orders@.take(old(self).orders@.len() as int) == old(self).orders@,
            ({
                let o = final(self).orders@.last();
                &&& o.account_cookie@ == old(self).account_cookie@
                &&& o.code@ == code@
                &&& o.volume == volume
                &&& o.price == price
                &&& o.direction is Sell
                &&& o.offset@ == "close"@
                &&& o.label@.len() == 0
            }),
    {
        let o = MarketOrder::sell(self.account_cookie.as_str(), code, volume, price);
        self.orders.push(o);
        assert(self.orders@.take(old(self).orders@.len() as int) =~= old(self).orders@);
    }

    /// Records an indicator value at the context's time.
    pub fn record(&mut self, name: String, value: i64)
        ensures
            final(self).market == old(self).market,
            final(self).account_cookie == old(self).account_cookie,
            final(self).current_datetime == old(self).current_datetime,
            final(self).orders == old(self).orders,
            final(self).indicators@.len() == old(self).indicators@.len() + 1,
            final(self).indicators@.take(old(self).indicators@.len() as int) == old(self).indicators@,
            final(self).indicators@.last().datetime@ == old(self).current_datetime@,
            final(self).indicators@.last().name == name,
            final(self).indicators@.last().value == value,
    {
        let p = IndicatorPoint { datetime: self.current_datetime.clone(), name, value };
        self.indicators.push(p);
        assert(self.indicators@.take(old(self).indicators@.len() as int) =~= old(self).indicators@);
    }
}

/// Event-driven trading logic, written by the library's users.
pub trait Strategy {
    fn name(&self) -> &str;

    /// Called once before the first bar.
    fn on_start(&mut self, ctx: &mut Context) {
    }

    /// Called for every bar of a subscribed instrument.
    fn on_bar(&mut self, ctx: &mut Context, bar: &Bar);

    /// Called when a new trading day starts.
    fn on_day_open(&mut self, ctx: &mut Context, date: Date) {
    }

    /// Called when a trading day ends.
    fn on_day_close(&mut self, ctx: &mut Context, date: Date) {
    }

    /// Called once after the last bar.
    fn on_stop(&mut self, ctx: &mut Context) {
    }

    /// The codes whose bars the strategy sees, as a value; a strategy that
    /// subscribes to codes states them here (by default it names none).
    open spec fn spec_instruments(&self) -> Seq<Seq<char>> {
        Seq::empty()
    }

    /// The codes whose bars the strategy sees.
    fn instruments(&self) -> (r: Vec<String>)
        ensures
            texts(r@) == self.spec_instruments();
}

/// The texts of a list of strings.
pub open spec fn texts(s: Seq<String>) -> Seq<Seq<char>> {
    s.map_values(|x: String| x@)
}

/// Parameters of the moving-average cross strategy.
#[derive(Debug)]
pub struct SmaParams {
    pub code: String,
    /// Fast average period.
    pub fast: usize,
    /// Slow average period.
    pub slow: usize,
    /// Volume of each opening.
    pub lots: Volume,
}

impl Default for SmaParams {
    /// Code 000001, periods 5 and 20, 100 shares.
    fn default() -> (r: Self)
        ensures
            r.code@ == "000001"@,
            r.fast == 5,
            r.slow == 20,
            r.lots == 100,
    {
        SmaParams { code: String::from_str("000001"), fast: 5, slow: 20, lots: 100 }
    }
}

/// Buys when the fast average of the closes rises above the slow one,
/// sells when it falls below.
pub struct SmaCrossStrategy {
    pub params: SmaParams,
    pub closes: Vec<Price>,
    pub position: Volume,
}

pub open spec fn sum_prices(s: Seq<i64>) -> int
    decreases s.len(),
{
    if s.len() == 0 { 0 } else { sum_prices(s.drop_last()) + s.last() }
}

/// The average of the last `period` closes, truncated toward zero; none
/// while fewer closes are in or for a zero period.
pub open spec fn sma_of(closes: Seq<i64>, period: int) -> Option<int> {
    if period < 1 || closes.len() < period {
        None
    } else {
        Some(div_trunc(sum_prices(closes.skip(closes.len() - period)), period))
    }
}

proof fn lemma_sum_prices_bound(s: Seq<i64>)
    ensures
        s.len() * (i64::MIN as int) <= sum_prices(s) <= s.len() * (i64::MAX as int),
    decreases s.len(),
{
    if s.len() > 0 {
        lemma_sum_prices_bound(s.drop_last());
        assert(s.drop_last().len() * (i64::MIN as int) + (i64::MIN as int) == s.len() * (i64::MIN as int)) by (nonlinear_arith)
            requires s.drop_last().len() + 1 == s.len();
        assert(s.drop_last().len() * (i64::MAX as int) + (i64::MAX as int) == s.len() * (i64::MAX as int)) by (nonlinear_arith)
            requires s.drop_last().len() + 1 == s.len();
    }
}

/// Law: the strategy buys only while it holds nothing and the fast average
/// is above the slow one, and sells only while it holds and the fast
/// average is below; so once a buy of `lots > 0` has been made, no later
/// bar brings another buy, whatever its averages, until a sell.
pub proof fn law_sma_buys_only_when_flat(f: int, s: int, pos: int, lots: int, f2: int, s2: int)
    requires
        lots > 0,
    ensures
        sma_action(f, s, pos) == 1 ==> pos <= 0 && f > s,
        sma_action(f, s, pos) == -1 ==> pos > 0 && f < s,
        sma_action(f2, s2, lots) != 1,
{
}

/// What the strategy does on seeing fast average `f` and slow average `s`
/// while holding `pos`: 1 buys, -1 sells what is held, 0 does nothing.
pub open spec fn sma_action(f: int, s: int, pos: int) -> int {
    if f > s && pos <= 0 {
        1
    } else if f < s && pos > 0 {
        -1
    } else {
        0
    }
}

/// Names the strategy records under.
pub open spec fn signal_value(up: bool, down: bool) -> int {
    if up { 1_000_000 } else if down { -1_000_000 } else { 0 }
}

impl SmaCrossStrategy {
    pub fn new(params: SmaParams) -> (r: SmaCrossStrategy)
        ensures
            r.params == params,
            r.closes@.len() == 0,
            r.position == 0,
    {
        SmaCrossStrategy { params, closes: Vec::new(), position: 0 }
    }

    /// The average of the last `period` closes (see `sma_of`).
    pub fn sma(&self, period: usize) -> (r: Option<i64>)
        ensures
            r matches Some(v) ==> sma_of(self.closes@, period as int) == Some(v as int),
            r is None <==> sma_of(self.closes@, period as int) is None,
    {
        let n: usize = self.closes.len();
        assert(self.closes@.len() == n);
        if period < 1 || n < period {
            return None;
        }
        let start = n - period;
        let ghost w = self.closes@.skip(start as int);
        let mut sum: i128 = 0;
        let mut k: usize = start;
        while k < n
            invariant
                start <= k <= n,
                n == self.closes@.len(),
                n < 0x1_0000_0000_0000_0000,
                w == self.closes@.skip(start as int),
                sum == sum_prices(w.take(k - start)),
            decreases n - k,
        {
            proof {
                assert(w.take(k + 1 - start).drop_last() =~= w.take(k - start));
                assert(w.take(k + 1 - start).last() == self.closes@[k as int]);
                lemma_sum_prices_bound(w.take(k - start));
                assert((k - start) * (i64::MAX as int) <= 0x1_0000_0000_0000_0000 * (i64::MAX as int)) by (nonlinear_arith)
                    requires 0 <= k - start <= 0x1_0000_0000_0000_0000;
                assert((k - start) * (i64::MIN as int) >= 0x1_0000_0000_0000_0000 * (i64::MIN as int)) by (nonlinear_arith)
                    requires 0 <= k - start <= 0x1_0000_0000_0000_0000;
            }
            sum = sum + self.closes[k] as i128;
            k = k + 1;
        }
        assert(w.take(n - start) =~= w);
        proof {
            lemma_sum_prices_bound(w);
            let p = period as int;
            let si = sum as int;
            if si >= 0 {
                assert(si / p <= i64::MAX) by (nonlinear_arith)
                    requires 0 <= si <= p * (i64::MAX as int), p >= 1;
                assert(si / p >= 0) by (nonlinear_arith)
                    requires si >= 0, p >= 1;
            } else {
                let a = -si;
                assert(a / p <= -(i64::MIN as int)) by (nonlinear_arith)
                    requires 0 <= a <= p * (-(i64::MIN as int)), p >= 1;
                assert(a / p >= 0) by (nonlinear_arith)
                    requires a >= 0, p >= 1;
            }
        }
        let ua: i128 = if sum >= 0 { sum } else { -sum };
        let q: i128 = ua / (period as i128);
        let avg: i128 = if sum >= 0 { q } else { -q };
        Some(avg as i64)
    }
}

impl Strategy for SmaCrossStrategy {
    fn name(&self) -> (r: &str)
        ensures
            r@ == "sma_cross"@,
    {
        "sma_cross"
    }

    /// Takes the close of a bar of its code; once both averages exist,
    /// records them and a signal: buys `lots` at the close when the fast
    /// average is above the slow one and nothing is held, sells what is
    /// held when it is below.
    fn on_bar(&mut self, ctx: &mut Context, bar: &Bar)
        ensures
            bar.order_book_id@ != old(self).params.code@ ==> *final(self) == *old(self) && *final(ctx) == *old(ctx),
            bar.order_book_id@ == old(self).params.code@ ==> ({
                let closes = old(self).closes@.push(bar.close);
                let f = sma_of(closes, old(self).params.fast as int);
                let s = sma_of(closes, old(self).params.slow as int);
                &&& final(self).params == old(self).params
                &&& final(self).closes@ == closes
                &&& final(ctx).market == old(ctx).market
                &&& final(ctx).account_cookie == old(ctx).account_cookie
                &&& final(ctx).current_datetime == old(ctx).current_datetime
                &&& if f is Some && s is Some {
                    let a = sma_action(f->0, s->0, old(self).position as int);
                    &&& final(self).position == (if a == 1 {
                        old(self).params.lots
                    } else if a == -1 {
                        0
                    } else {
                        old(self).position
                    })
                    &&& final(ctx).orders@.len() == old(ctx).orders@.len() + (if a == 0 { 0int } else { 1int })
                    &&& final(ctx).orders@.take(old(ctx).orders@.len() as int) == old(ctx).orders@
                    &&& (a != 0 ==> {
                        let o = final(ctx).orders@.last();
                        &&& o.code@ == old(self).params.code@
                        &&& o.price == bar.close
                        &&& o.account_cookie@ == old(ctx).account_cookie@
                        &&& (a == 1 ==> o.direction is Buy && o.volume == old(self).params.lots)
                        &&& (a == -1 ==> o.direction is Sell && o.volume == old(self).position)
                    })
                    &&& final(ctx).indicators@.len() == old(ctx).indicators@.len() + 3
                    &&& final(ctx).indicators@.take(old(ctx).indicators@.len() as int) == old(ctx).indicators@
                    &&& final(ctx).indicators@[old(ctx).indicators@.len() as int].value == f->0
                    &&& final(ctx).indicators@[old(ctx).indicators@.len() + 1int].value == s->0
                    &&& final(ctx).indicators@[old(ctx).indicators@.len() + 2int].value == signal_value(a == 1, a == -1)
                } else {
                    &&& final(self).position == old(self).position
                    &&& *final(ctx) == *old(ctx)
                }
            }),
    {
        if bar.order_book_id != self.params.code {
            return;
        }
        self.closes.push(bar.close);
        let fast = self.sma(self.params.fast);
        let slow = self.sma(self.params.slow);
        match (fast, slow) {
            (Some(f), Some(s)) => {
                ctx.record(String::from_str("sma_fast"), f);
                ctx.record(String::from_str("sma_slow"), s);
                if f > s && self.position <= 0 {
                    ctx.buy(self.params.code.as_str(), self.params.lots, bar.close);
                    self.position = self.params.lots;
                    ctx.record(String::from_str("signal"), 1_000_000);
                } else if f < s && self.position > 0 {
                    ctx.sell(self.params.code.as_str(), self.position, bar.close);
                    self.position = 0;
                    ctx.record(String::from_str("signal"), -1_000_000);
                } else {
                    ctx.record(String::from_str("signal"), 0);
                }
            },
            _ => {},
        }
    }

    /// Records the latest close.
    fn on_day_close(&mut self, ctx: &mut Context, date: Date)
        ensures
            *final(self) == *old(self),
            old(self).closes@.len() == 0 ==> *final(ctx) == *old(ctx),
            old(self).closes@.len() > 0 ==> {
                &&& final(ctx).orders == old(ctx).orders
                &&& final(ctx).indicators@.len() == old(ctx).indicators@.len() + 1
                &&& final(ctx).indicators@.take(old(ctx).indicators@.len() as int) == old(ctx).indicators@
                &&& final(ctx).indicators@.last().name@ == "close"@
                &&& final(ctx).indicators@.last().value == old(self).closes@.last()
            },
    {
        if self.closes.len() > 0 {
            let c = self.closes[self.closes.len() - 1];
            ctx.record(String::from_str("close"), c);
        }
    }

    open spec fn spec_instruments(&self) -> Seq<Seq<char>> {
        seq![self.params.code@]
    }

    fn instruments(&self) -> (r: Vec<String>) {
        let mut v: Vec<String> = Vec::new();
        v.push(self.params.code.clone());
        assert(texts(v@) =~= seq![self.params.code@]);
        v
    }
}

/// A point of the value curve: the account after one bar.
#[derive(Debug)]
pub struct EquityPoint {
    pub date: String,
    pub datetime: String,
    pub cash: Amount,
    pub market_value: Amount,
    pub total_value: Amount,
    pub float_pnl: Amount,
    pub close_pnl: Amount,
}

/// How a backtest is set up.
#[derive(Debug)]
pub struct BacktestConfig {
    pub account_cookie: String,
    pub init_cash: Amount,
    pub environment: AccountEnvironment,
}

impl Default for BacktestConfig {
    /// Account `backtest` with one million in cash.
    fn default() -> (r: Self)
        ensures
            r.account_cookie@ == "backtest"@,
            r.init_cash == 1_000_000_000_000,
            r.environment == AccountEnvironment::Backtest,
    {
        BacktestConfig {
            account_cookie: String::from_str("backtest"),
            init_cash: 1_000_000_000_000,
            environment: AccountEnvironment::Backtest,
        }
    }
}

/// What a backtest produces: the value curve, the recorded indicators and
/// the final snapshot.
pub struct BacktestResult {
    pub account_cookie: String,
    pub init_cash: Amount,
    pub trade_count: usize,
    pub equity_curve: Vec<EquityPoint>,
    pub indicators: Vec<IndicatorPoint>,
    pub final_qifi: Qifi,
    pub trades: Vec<Trade>,
}

/// The text before the first space.
pub open spec fn first_word(s: Seq<char>) -> Seq<char>
    decreases s.len(),
{
    if s.len() == 0 {
        s
    } else if s[0] == ' ' {
        Seq::empty()
    } else {
        seq![s[0]] + first_word(s.drop_first())
    }
}

/// The date a value point is filed under: the bar's trading date, else the
/// date part of its time.
pub open spec fn point_date(b: Bar) -> Seq<char> {
    match b.trading_date {
        Some(d) => date_text(d.y(), d.m(), d.d()),
        None => first_word(b.datetime@),
    }
}

/// Point `p` of the value curve is bar `bar` valued on account `a`: the
/// bar's time and date, and the account's cash, position values and
/// profits.
pub open spec fn point_matches(p: EquityPoint, bar: Bar, a: AccountView) -> bool {
    &&& p.datetime@ == bar.datetime@
    &&& p.date@ == point_date(bar)
    &&& p.cash == a.cash
    &&& p.market_value == a.market_value()
    &&& p.total_value == a.total_value()
    &&& p.float_pnl == a.float_pnl()
    &&& p.close_pnl == a.close_pnl
}

/// The bars of the codes `ins`, in that order, before sorting; a code
/// with no bars adds none.
pub open spec fn gathered(bars: Map<Seq<char>, Vec<Bar>>, ins: Seq<Seq<char>>) -> Seq<Bar>
    decreases ins.len(),
{
    if ins.len() == 0 {
        Seq::empty()
    } else {
        gathered(bars, ins.drop_last()) + (if bars.contains_key(ins.last()) {
            bars[ins.last()]@
        } else {
            Seq::empty()
        })
    }
}

/// One call the engine makes on its strategy, with what it hands over.
pub enum Callback {
    Start,
    DayOpen(Date),
    Bar(Bar),
    DayClose(Date),
    Stop,
}

/// The trading date of the latest dated bar among the first `n` of `tl`.
pub open spec fn last_date_among(tl: Seq<Bar>, n: int) -> Option<Date>
    decreases n,
{
    if n <= 0 {
        None
    } else {
        match tl[n - 1].trading_date {
            Some(d) => Some(d),
            None => last_date_among(tl, n - 1),
        }
    }
}

/// The calls that bar `i` of the timeline brings: when it carries a
/// trading date other than the latest one before it, the previous day
/// closes (if there was one) and the bar's day opens; then the bar itself.
pub open spec fn bar_calls(tl: Seq<Bar>, i: int) -> Seq<Callback> {
    let day = match tl[i].trading_date {
        Some(d) => match last_date_among(tl, i) {
            None => seq![Callback::DayOpen(d)],
            Some(p) => if p != d {
                seq![Callback::DayClose(p), Callback::DayOpen(d)]
            } else {
                Seq::empty()
            },
        },
        None => Seq::empty(),
    };
    day.push(Callback::Bar(tl[i]))
}

/// The calls the first `n` bars of the timeline bring, in order.
pub open spec fn calls_through(tl: Seq<Bar>, n: int) -> Seq<Callback>
    decreases n,
{
    if n <= 0 {
        Seq::empty()
    } else {
        calls_through(tl, n - 1) + bar_calls(tl, n - 1)
    }
}

/// Every call a run over timeline `tl` makes on the strategy, in order:
/// the start, the calls of each bar, the close of the last trading day if
/// any bar carried one, and the stop.
pub open spec fn run_calls(tl: Seq<Bar>) -> Seq<Callback> {
    let last = match last_date_among(tl, tl.len() as int) {
        Some(d) => seq![Callback::DayClose(d)],
        None => Seq::empty(),
    };
    seq![Callback::Start] + calls_through(tl, tl.len() as int) + last + seq![Callback::Stop]
}

/// The timeline a run replays: the bars of the codes `ins`, in time order,
/// bars of equal time in the order of the codes and then of their lists.
pub fn timeline_of(bars: &StrMap<Vec<Bar>>, ins: &Vec<String>) -> (r: Vec<Bar>)
    requires
        bars.wf(),
    ensures
        r@ == sorted_by_time(gathered(bars.map(), texts(ins@))),
{
    let mut timeline: Vec<Bar> = Vec::new();
    let mut c: usize = 0;
    let ghost names = texts(ins@);
    assert(names.take(0) =~= Seq::<Seq<char>>::empty());
    while c < ins.len()
        invariant
            bars.wf(),
            names == texts(ins@),
            c <= ins@.len(),
            timeline@ == gathered(bars.map(), names.take(c as int)),
        decreases ins@.len() - c,
    {
        proof {
            assert(names.take(c + 1).drop_last() =~= names.take(c as int));
            assert(names.take(c + 1).last() == ins@[c as int]@);
        }
        match bars.get(ins[c].as_str()) {
            Some(bs) => {
                let mut j: usize = 0;
                let ghost base = timeline@;
                while j < bs.len()
                    invariant
                        j <= bs@.len(),
                        timeline@ == base + bs@.take(j as int),
                    decreases bs@.len() - j,
                {
                    timeline.push(bs[j].clone());
                    assert(bs@.take(j + 1) =~= bs@.take(j as int).push(bs@[j as int]));
                    j = j + 1;
                }
                assert(bs@.take(bs@.len() as int) =~= bs@);
            },
            None => {
                assert(timeline@ =~= timeline@ + Seq::<Bar>::empty());
            },
        }
        c = c + 1;
    }
    assert(names.take(ins@.len() as int) =~= names);
    sort_bars_by_time(timeline)
}

fn first_word_of(s: &str) -> (r: String)
    ensures
        r@ == first_word(s@),
{
    let n: usize = s.unicode_len();
    let mut v: Vec<char> = Vec::new();
    let mut i: usize = 0;
    assert(s@.skip(0) =~= s@);
    while i < n
        invariant
            n == s@.len(),
            i <= n,
            v@ + first_word(s@.skip(i as int)) == first_word(s@),
        decreases n - i,
    {
        let c = s.get_char(i);
        assert(s@.skip(i as int)[0] == c);
        if c == ' ' {
            assert(first_word(s@.skip(i as int)) =~= Seq::<char>::empty());
            assert(v@ =~= v@ + Seq::<char>::empty());
            return string_from_chars(v);
        }
        assert(s@.skip(i as int).drop_first() =~= s@.skip(i + 1));
        let ghost before = v@;
        v.push(c);
        assert(before + first_word(s@.skip(i as int)) =~= v@ + first_word(s@.skip(i + 1)));
        i = i + 1;
    }
    assert(s@.skip(n as int) =~= Seq::<char>::empty());
    assert(v@ + Seq::<char>::empty() =~= v@);
    string_from_chars(v)
}

/// What one run of the order queue did: the market before and after it,
/// how many trades it made, and how many strategy calls had been made by
/// then.
pub struct FillRecord {
    pub before: MarketView,
    pub after: MarketView,
    pub trade_count: nat,
    pub calls_upto: nat,
}

/// The queue of `f.before` was executed order by order into `f.after`,
/// making `f.trade_count` trades.
pub open spec fn queue_executed(f: FillRecord) -> bool {
    exists|mids: Seq<MarketView>, outs: Seq<Seq<TradeView>>|
        #[trigger] execution_chain(f.before.pending, mids, outs)
            && mids[0] == (MarketView { pending: Seq::empty(), ..f.before })
            && mids.last() == f.after
            && f.trade_count == concat_all(outs).len()
}

/// Record `fills[j]` executed what was queued before it: the orders left
/// over (`base`) followed by those the strategy placed in its calls from
/// number `cut` up to the run of the queue.
pub open spec fn fill_follows(
    fills: Seq<FillRecord>,
    j: int,
    orders: Seq<Seq<MarketOrder>>,
    base: Seq<MarketOrder>,
    cut: int,
) -> bool {
    &&& cut <= fills[j].calls_upto <= orders.len()
    &&& fills[j].before.pending == base + orders.subrange(cut, fills[j].calls_upto as int).flatten_alt()
    &&& queue_executed(fills[j])
}

/// Run `i` of a backtest whose queue runs are logged from `first` on
/// executed what was queued before it: for the first run, the orders the
/// market held before the backtest and those of its calls from number
/// `n0` on; for later ones, what the previous run left and the orders of
/// the calls since.
pub open spec fn fill_in_run(
    fills: Seq<FillRecord>,
    first: int,
    i: int,
    orders: Seq<Seq<MarketOrder>>,
    pending0: Seq<MarketOrder>,
    n0: int,
) -> bool {
    let base = if i == 0 { pending0 } else { fills[first + i - 1].after.pending };
    let cut = if i == 0 { n0 } else { fills[first + i - 1].calls_upto as int };
    fill_follows(fills, first + i, orders, base, cut)
}

/// The trades of a list of queue runs, in all.
pub open spec fn total_trades(fills: Seq<FillRecord>) -> nat
    decreases fills.len(),
{
    if fills.len() == 0 {
        0
    } else {
        total_trades(fills.drop_last()) + fills.last().trade_count
    }
}

/// A logged queue run keeps saying the same when later calls and runs are
/// logged after it.
proof fn lemma_fill_in_run_extend(
    fills: Seq<FillRecord>,
    fills2: Seq<FillRecord>,
    first: int,
    i: int,
    orders: Seq<Seq<MarketOrder>>,
    orders2: Seq<Seq<MarketOrder>>,
    pending0: Seq<MarketOrder>,
    n0: int,
)
    requires
        0 <= first,
        0 <= i,
        first + i < fills.len() <= fills2.len(),
        forall|k: int| 0 <= k < fills.len() ==> #[trigger] fills2[k] == fills[k],
        orders.len() <= orders2.len(),
        forall|k: int| 0 <= k < orders.len() ==> #[trigger] orders2[k] == orders[k],
        0 <= n0,
        fill_in_run(fills, first, i, orders, pending0, n0),
    ensures
        fill_in_run(fills2, first, i, orders2, pending0, n0),
{
    let cut = if i == 0 { n0 } else { fills[first + i - 1].calls_upto as int };
    if i > 0 {
        assert(fills2[first + i - 1] == fills[first + i - 1]);
    }
    assert(fills2[first + i] == fills[first + i]);
    assert(orders2.subrange(cut, fills[first + i].calls_upto as int) =~= orders.subrange(
        cut,
        fills[first + i].calls_upto as int,
    ));
}

proof fn lemma_flatten_single<A>(s: Seq<Seq<A>>, a: int)
    requires
        0 <= a < s.len(),
    ensures
        s.subrange(a, a + 1).flatten_alt() == s[a],
{
    let t = s.subrange(a, a + 1);
    assert(t.drop_last() =~= Seq::<Seq<A>>::empty());
    assert(t.drop_last().flatten_alt() + t.last() =~= s[a]);
}

proof fn lemma_flatten_split<A>(s: Seq<Seq<A>>, a: int, b: int, c: int)
    requires
        0 <= a <= b <= c <= s.len(),
    ensures
        s.subrange(a, c).flatten_alt() == s.subrange(a, b).flatten_alt() + s.subrange(b, c).flatten_alt(),
    decreases c - b,
{
    if c == b {
        assert(s.subrange(b, c) =~= Seq::<Seq<A>>::empty());
        assert(s.subrange(a, b).flatten_alt() + Seq::<A>::empty() =~= s.subrange(a, b).flatten_alt());
    } else {
        lemma_flatten_split(s, a, b, c - 1);
        lemma_flatten_extend(s, a, c - 1);
        lemma_flatten_extend(s, b, c - 1);
        assert(s.subrange(a, b).flatten_alt() + s.subrange(b, c - 1).flatten_alt() + s[c - 1] =~= s.subrange(a, b).flatten_alt()
            + (s.subrange(b, c - 1).flatten_alt() + s[c - 1]));
    }
}

proof fn lemma_flatten_extend<A>(s: Seq<Seq<A>>, a: int, b: int)
    requires
        0 <= a <= b < s.len(),
    ensures
        s.subrange(a, b + 1).flatten_alt() == s.subrange(a, b).flatten_alt() + s[b],
{
    assert(s.subrange(a, b + 1).drop_last() =~= s.subrange(a, b));
}

proof fn lemma_flatten_none<A>(s: Seq<Seq<A>>, a: int)
    requires
        0 <= a <= s.len(),
    ensures
        s.subrange(a, a).flatten_alt() == Seq::<A>::empty(),
{
}

/// Replays bars through a strategy and a market that fills at once.
pub struct BacktestEngine<S: Strategy> {
    market: QAMarketSystem,
    account_cookie: String,
    strategy: S,
    bars: StrMap<Vec<Bar>>,
    calls: Ghost<Seq<Callback>>,
    orders_log: Ghost<Seq<Seq<MarketOrder>>>,
    points_log: Ghost<Seq<Seq<IndicatorPoint>>>,
    fills: Ghost<Seq<FillRecord>>,
}

impl<S: Strategy> BacktestEngine<S> {
    /// The market is sound and holds the engine's account, every loaded
    /// close is a representable price, and each logged call has its
    /// orders and points logged.
    pub closed spec fn wf(&self) -> bool {
        &&& self.market.wf()
        &&& self.market@.accounts.contains_key(self.account_cookie@)
        &&& self.bars.wf()
        &&& forall|k: Seq<char>, i: int|
            #[trigger] self.bars.map().contains_key(k) && 0 <= i < self.bars.map()[k]@.len() ==> -MAX_PRICE
                <= #[trigger] self.bars.map()[k]@[i].close <= MAX_PRICE
        &&& self.calls@.len() == self.orders_log@.len()
        &&& self.calls@.len() == self.points_log@.len()
    }

    pub closed spec fn spec_market(&self) -> QAMarketSystem {
        self.market
    }

    pub closed spec fn spec_account_cookie(&self) -> Seq<char> {
        self.account_cookie@
    }

    pub closed spec fn loaded(&self) -> Map<Seq<char>, Vec<Bar>> {
        self.bars.map()
    }

    /// The codes the engine's strategy subscribes to now.
    pub closed spec fn subscribed(&self) -> Seq<Seq<char>> {
        self.strategy.spec_instruments()
    }

    /// Every call the engine has made on its strategy, in order.
    pub closed spec fn callbacks(&self) -> Seq<Callback> {
        self.calls@
    }

    /// The orders each call placed, call by call.
    pub closed spec fn call_orders(&self) -> Seq<Seq<MarketOrder>> {
        self.orders_log@
    }

    /// The indicator points each call recorded, call by call.
    pub closed spec fn call_points(&self) -> Seq<Seq<IndicatorPoint>> {
        self.points_log@
    }

    /// Every run of the order queue, in order.
    pub closed spec fn fill_records(&self) -> Seq<FillRecord> {
        self.fills@
    }

    /// `self` is sound and has the loaded bars, account and queue runs of
    /// `other`.
    closed spec fn keeps(&self, other: &Self) -> bool {
        &&& self.wf()
        &&& self.loaded() == other.loaded()
        &&& self.account_cookie@ == other.account_cookie@
        &&& self.fills@ == other.fills@
    }

    /// `self` came from `other` by strategy calls and market steps: the
    /// same sound engine, the logs of `other` kept as they were, the queue
    /// grown by the orders of the new calls, and the points of the new
    /// calls added to `before`, giving `after`.
    closed spec fn grown(&self, other: &Self, before: Seq<IndicatorPoint>, after: Seq<IndicatorPoint>) -> bool {
        &&& self.keeps(other)
        &&& other.orders_log@.len() <= self.orders_log@.len()
        &&& other.points_log@.len() <= self.points_log@.len()
        &&& forall|k: int| 0 <= k < other.orders_log@.len() ==> #[trigger] self.orders_log@[k] == other.orders_log@[k]
        &&& forall|k: int| 0 <= k < other.points_log@.len() ==> #[trigger] self.points_log@[k] == other.points_log@[k]
        &&& self.market@.pending == other.market@.pending + self.orders_log@.subrange(
            other.orders_log@.len() as int,
            self.orders_log@.len() as int,
        ).flatten_alt()
        &&& after == before + self.points_log@.subrange(
            other.points_log@.len() as int,
            self.points_log@.len() as int,
        ).flatten_alt()
    }

    /// A step that changes only the market, not its queue, is growth with
    /// no new calls.
    proof fn lemma_market_step(&self, other: &Self, ind: Seq<IndicatorPoint>)
        requires
            self.wf(),
            other.wf(),
            self.account_cookie == other.account_cookie,
            self.bars == other.bars,
            self.calls == other.calls,
            self.orders_log == other.orders_log,
            self.points_log == other.points_log,
            self.fills == other.fills,
            self.market@.pending == other.market@.pending,
        ensures
            self.grown(other, ind, ind),
    {
        lemma_flatten_none(self.orders_log@, self.orders_log@.len() as int);
        lemma_flatten_none(self.points_log@, self.points_log@.len() as int);
        assert(other.market@.pending + Seq::<MarketOrder>::empty() =~= other.market@.pending);
        assert(ind + Seq::<IndicatorPoint>::empty() =~= ind);
    }

    /// Growth composes.
    proof fn lemma_grown_trans(
        &self,
        mid: &Self,
        first: &Self,
        i0: Seq<IndicatorPoint>,
        i1: Seq<IndicatorPoint>,
        i2: Seq<IndicatorPoint>,
    )
        requires
            mid.grown(first, i0, i1),
            self.grown(mid, i1, i2),
        ensures
            self.grown(first, i0, i2),
    {
        let (a, b, c) = (first.orders_log@.len() as int, mid.orders_log@.len() as int, self.orders_log@.len() as int);
        lemma_flatten_split(self.orders_log@, a, b, c);
        assert(self.orders_log@.subrange(a, b) =~= mid.orders_log@.subrange(a, b));
        let (pa, pb, pc) = (first.points_log@.len() as int, mid.points_log@.len() as int, self.points_log@.len() as int);
        lemma_flatten_split(self.points_log@, pa, pb, pc);
        assert(self.points_log@.subrange(pa, pb) =~= mid.points_log@.subrange(pa, pb));
        assert(first.market@.pending + mid.orders_log@.subrange(a, b).flatten_alt() + self.orders_log@.subrange(b, c).flatten_alt()
            =~= first.market@.pending + self.orders_log@.subrange(a, c).flatten_alt());
        assert(self.market@.pending == first.market@.pending + self.orders_log@.subrange(a, c).flatten_alt());
        assert(i0 + mid.points_log@.subrange(pa, pb).flatten_alt() + self.points_log@.subrange(pb, pc).flatten_alt()
            =~= i0 + self.points_log@.subrange(pa, pc).flatten_alt());
        assert(self.keeps(first));
        assert(forall|k: int| 0 <= k < first.orders_log@.len() ==> #[trigger] self.orders_log@[k] == first.orders_log@[k]);
        assert(forall|k: int| 0 <= k < first.points_log@.len() ==> #[trigger] self.points_log@[k] == first.points_log@[k]);
    }

    /// An engine with a fresh stock account registered in a new market.
    pub fn new(cfg: BacktestConfig, strategy: S) -> (r: Self)
        requires
            acc_ok(cfg.init_cash as int),
        ensures
            r.wf(),
            r.spec_account_cookie() == cfg.account_cookie@,
            r.spec_market()@.accounts.dom() == set![cfg.account_cookie@],
            r.spec_market()@.pending.len() == 0,
            crate::account::is_fresh_account(
                r.spec_market()@.accounts[cfg.account_cookie@],
                cfg.account_cookie@,
                cfg.init_cash as int,
                crate::enums::AccountType::Stock,
            ),
            r.loaded() == Map::<Seq<char>, Vec<Bar>>::empty(),
            r.callbacks() == Seq::<Callback>::empty(),
            r.call_orders() == Seq::<Seq<MarketOrder>>::empty(),
            r.call_points() == Seq::<Seq<IndicatorPoint>>::empty(),
            r.fill_records() == Seq::<FillRecord>::empty(),
    {
        let mut market = QAMarketSystem::new(String::from_str("backtest"));
        market.register_account(cfg.account_cookie.clone(), cfg.init_cash);
        assert(market@.accounts.dom() =~= set![cfg.account_cookie@]);
        BacktestEngine {
            market,
            account_cookie: cfg.account_cookie,
            strategy,
            bars: StrMap::new(),
            calls: Ghost(Seq::empty()),
            orders_log: Ghost(Seq::empty()),
            points_log: Ghost(Seq::empty()),
            fills: Ghost(Seq::empty()),
        }
    }

    /// Loads the bars of a code (in time order), replacing earlier ones.
    pub fn load_bars(&mut self, code: String, bars: Vec<Bar>)
        requires
            old(self).wf(),
            forall|i: int| 0 <= i < bars@.len() ==> -MAX_PRICE <= #[trigger] bars@[i].close <= MAX_PRICE,
        ensures
            final(self).wf(),
            final(self).loaded() == old(self).loaded().insert(code@, bars),
            final(self).spec_market() == old(self).spec_market(),
            final(self).spec_account_cookie() == old(self).spec_account_cookie(),
            final(self).subscribed() == old(self).subscribed(),
            final(self).callbacks() == old(self).callbacks(),
            final(self).call_orders() == old(self).call_orders(),
            final(self).call_points() == old(self).call_points(),
            final(self).fill_records() == old(self).fill_records(),
    {
        self.bars.insert(code, bars);
    }

    pub fn account(&self) -> (r: &Account)
        requires
            self.wf(),
        ensures
            r@ == self.spec_market()@.accounts[self.spec_account_cookie()],
            r.wf(),
    {
        self.market.get_account(self.account_cookie.as_str()).unwrap()
    }

    pub fn market(&self) -> (r: &QAMarketSystem)
        ensures
            *r == self.spec_market(),
    {
        &self.market
    }

    /// Queues what a strategy call produced and keeps its indicators.
    fn absorb(&mut self, orders: Vec<MarketOrder>, points: Vec<IndicatorPoint>, indicators: &mut Vec<IndicatorPoint>)
        requires
            old(self).wf(),
        ensures
            final(self).keeps(&*old(self)),
            final(self).calls@ == old(self).calls@,
            final(self).orders_log@ == old(self).orders_log@,
            final(self).points_log@ == old(self).points_log@,
            final(self).market@ == (MarketView { pending: old(self).market@.pending + orders@, ..old(self).market@ }),
            final(indicators)@ == old(indicators)@ + points@,
    {
        let mut i: usize = 0;
        while i < orders.len()
            invariant
                self.keeps(&*old(self)),
                self.calls@ == old(self).calls@,
                self.orders_log@ == old(self).orders_log@,
                self.points_log@ == old(self).points_log@,
                i <= orders@.len(),
                self.market@ == (MarketView { pending: old(self).market@.pending + orders@.take(i as int), ..old(self).market@ }),
            decreases orders@.len() - i,
        {
            let o = orders[i].clone();
            self.market.schedule_order(o);
            assert(orders@.take(i + 1) =~= orders@.take(i as int).push(orders@[i as int]));
            i = i + 1;
        }
        assert(orders@.take(orders@.len() as int) =~= orders@);
        let mut p = points;
        indicators.append(&mut p);
    }

    /// Starts the strategy with a fresh context at `now`.
    fn notify_start(&mut self, now: String, indicators: &mut Vec<IndicatorPoint>)
        requires
            old(self).wf(),
        ensures
            final(self).grown(&*old(self), old(indicators)@, final(indicators)@),
            final(self).calls@ == old(self).calls@.push(Callback::Start),
    {
        let mut ctx = Context::new(&self.market, self.account_cookie.clone(), now);
        self.strategy.on_start(&mut ctx);
        let Context { orders, indicators: points, .. } = ctx;
        let ghost (o, p) = (orders@, points@);
        self.absorb(orders, points, indicators);
        proof {
            self.calls@ = self.calls@.push(Callback::Start);
            self.orders_log@ = self.orders_log@.push(o);
            self.points_log@ = self.points_log@.push(p);
            lemma_flatten_single(self.orders_log@, self.orders_log@.len() - 1);
            lemma_flatten_single(self.points_log@, self.points_log@.len() - 1);
        }
    }

    /// Opens trading day `date` for the strategy.
    fn notify_day_open(&mut self, date: Date, now: String, indicators: &mut Vec<IndicatorPoint>)
        requires
            old(self).wf(),
        ensures
            final(self).grown(&*old(self), old(indicators)@, final(indicators)@),
            final(self).calls@ == old(self).calls@.push(Callback::DayOpen(date)),
    {
        let mut ctx = Context::new(&self.market, self.account_cookie.clone(), now);
        self.strategy.on_day_open(&mut ctx, date);
        let Context { orders, indicators: points, .. } = ctx;
        let ghost (o, p) = (orders@, points@);
        self.absorb(orders, points, indicators);
        proof {
            self.calls@ = self.calls@.push(Callback::DayOpen(date));
            self.orders_log@ = self.orders_log@.push(o);
            self.points_log@ = self.points_log@.push(p);
            lemma_flatten_single(self.orders_log@, self.orders_log@.len() - 1);
            lemma_flatten_single(self.points_log@, self.points_log@.len() - 1);
        }
    }

    /// Hands `bar` to the strategy.
    fn notify_bar(&mut self, bar: &Bar, now: String, indicators: &mut Vec<IndicatorPoint>)
        requires
            old(self).wf(),
        ensures
            final(self).grown(&*old(self), old(indicators)@, final(indicators)@),
            final(self).calls@ == old(self).calls@.push(Callback::Bar(*bar)),
    {
        let mut ctx = Context::new(&self.market, self.account_cookie.clone(), now);
        self.strategy.on_bar(&mut ctx, bar);
        let Context { orders, indicators: points, .. } = ctx;
        let ghost (o, p) = (orders@, points@);
        self.absorb(orders, points, indicators);
        proof {
            self.calls@ = self.calls@.push(Callback::Bar(*bar));
            self.orders_log@ = self.orders_log@.push(o);
            self.points_log@ = self.points_log@.push(p);
            lemma_flatten_single(self.orders_log@, self.orders_log@.len() - 1);
            lemma_flatten_single(self.points_log@, self.points_log@.len() - 1);
        }
    }

    /// Closes trading day `date` for the strategy.
    fn notify_day_close(&mut self, date: Date, now: String, indicators: &mut Vec<IndicatorPoint>)
        requires
            old(self).wf(),
        ensures
            final(self).grown(&*old(self), old(indicators)@, final(indicators)@),
            final(self).calls@ == old(self).calls@.push(Callback::DayClose(date)),
    {
        let mut ctx = Context::new(&self.market, self.account_cookie.clone(), now);
        self.strategy.on_day_close(&mut ctx, date);
        let Context { orders, indicators: points, .. } = ctx;
        let ghost (o, p) = (orders@, points@);
        self.absorb(orders, points, indicators);
        proof {
            self.calls@ = self.calls@.push(Callback::DayClose(date));
            self.orders_log@ = self.orders_log@.push(o);
            self.points_log@ = self.points_log@.push(p);
            lemma_flatten_single(self.orders_log@, self.orders_log@.len() - 1);
            lemma_flatten_single(self.points_log@, self.points_log@.len() - 1);
        }
    }

    /// Stops the strategy.
    fn notify_stop(&mut self, now: String, indicators: &mut Vec<IndicatorPoint>)
        requires
            old(self).wf(),
        ensures
            final(self).grown(&*old(self), old(indicators)@, final(indicators)@),
            final(self).calls@ == old(self).calls@.push(Callback::Stop),
    {
        let mut ctx = Context::new(&self.market, self.account_cookie.clone(), now);
        self.strategy.on_stop(&mut ctx);
        let Context { orders, indicators: points, .. } = ctx;
        let ghost (o, p) = (orders@, points@);
        self.absorb(orders, points, indicators);
        proof {
            self.calls@ = self.calls@.push(Callback::Stop);
            self.orders_log@ = self.orders_log@.push(o);
            self.points_log@ = self.points_log@.push(p);
            lemma_flatten_single(self.orders_log@, self.orders_log@.len() - 1);
            lemma_flatten_single(self.points_log@, self.points_log@.len() - 1);
        }
    }

    /// Replays bar `t` of timeline `tl` up to its fill: the current time
    /// moves to the bar's; when the bar's trading date differs from the
    /// latest one, that day closes (if there was one) and the bar's day
    /// opens; the bar's close becomes its code's price; the strategy sees
    /// the bar. Returns the latest trading date.
    fn replay_bar(
        &mut self,
        bar: &Bar,
        last_date: Option<Date>,
        indicators: &mut Vec<IndicatorPoint>,
        Ghost(tl): Ghost<Seq<Bar>>,
        Ghost(t): Ghost<int>,
    ) -> (d: Option<Date>)
        requires
            old(self).wf(),
            0 <= t < tl.len(),
            *bar == tl[t],
            last_date == last_date_among(tl, t),
            -MAX_PRICE <= bar.close <= MAX_PRICE,
        ensures
            final(self).grown(&*old(self), old(indicators)@, final(indicators)@),
            final(self).calls@ == old(self).calls@ + bar_calls(tl, t),
            d == last_date_among(tl, t + 1),
    {
        let ghost s0 = *self;
        let ghost i0 = indicators@;
        let dt = bar.datetime.clone();
        self.market.set_datetime(dt.clone());
        proof {
            self.lemma_market_step(&s0, i0);
        }
        let mut d = last_date;
        match bar.trading_date {
            Some(date) => {
                match last_date {
                    Some(prev) => {
                        if prev != date {
                            let ghost s1 = *self;
                            let ghost i1 = indicators@;
                            self.notify_day_close(prev, dt.clone(), indicators);
                            proof {
                                self.lemma_grown_trans(&s1, &s0, i0, i1, indicators@);
                            }
                            let ghost s2 = *self;
                            let ghost i2 = indicators@;
                            self.notify_day_open(date, dt.clone(), indicators);
                            proof {
                                self.lemma_grown_trans(&s2, &s0, i0, i2, indicators@);
                            }
                            let ghost s3 = *self;
                            self.market.set_date(date);
                            proof {
                                self.lemma_market_step(&s3, indicators@);
                                self.lemma_grown_trans(&s3, &s0, i0, indicators@, indicators@);
                            }
                        }
                    },
                    None => {
                        let ghost s2 = *self;
                        let ghost i2 = indicators@;
                        self.notify_day_open(date, dt.clone(), indicators);
                        proof {
                            self.lemma_grown_trans(&s2, &s0, i0, i2, indicators@);
                        }
                        let ghost s3 = *self;
                        self.market.set_date(date);
                        proof {
                            self.lemma_market_step(&s3, indicators@);
                            self.lemma_grown_trans(&s3, &s0, i0, indicators@, indicators@);
                        }
                    },
                }
                d = Some(date);
            },
            None => {},
        }
        let ghost s4 = *self;
        self.market.update_price(bar.order_book_id.as_str(), bar.close);
        proof {
            self.lemma_market_step(&s4, indicators@);
            self.lemma_grown_trans(&s4, &s0, i0, indicators@, indicators@);
        }
        let ghost s5 = *self;
        let ghost i5 = indicators@;
        self.notify_bar(bar, dt, indicators);
        proof {
            self.lemma_grown_trans(&s5, &s0, i0, i5, indicators@);
            assert(self.calls@ =~= s0.calls@ + bar_calls(tl, t));
        }
        d
    }

    /// Executes the queue and logs the run.
    fn fill_queue(&mut self) -> (n: usize)
        requires
            old(self).wf(),
        ensures
            final(self).wf(),
            final(self).loaded() == old(self).loaded(),
            final(self).account_cookie == old(self).account_cookie,
            final(self).calls == old(self).calls,
            final(self).orders_log == old(self).orders_log,
            final(self).points_log == old(self).points_log,
            final(self).fills@ == old(self).fills@.push(
                FillRecord {
                    before: old(self).market@,
                    after: final(self).market@,
                    trade_count: n as nat,
                    calls_upto: old(self).calls@.len(),
                },
            ),
            queue_executed(final(self).fills@.last()),
    {
        let ghost m0 = self.market@;
        let trades = self.market.process_order_queue();
        proof {
            let rec = FillRecord {
                before: m0,
                after: self.market@,
                trade_count: trades@.len() as nat,
                calls_upto: self.calls@.len(),
            };
            let (mids, outs) = choose|mids: Seq<MarketView>, outs: Seq<Seq<TradeView>>|
                #[trigger] execution_chain(m0.pending, mids, outs)
                    && mids[0] == (MarketView { pending: Seq::empty(), ..m0 })
                    && mids.last() == self.market@
                    && crate::orderbook::trade_views(trades@) == concat_all(outs);
            assert(execution_chain(rec.before.pending, mids, outs));
            assert(crate::orderbook::trade_views(trades@).len() == trades@.len());
            self.fills@ = self.fills@.push(rec);
        }
        trades.len()
    }

    /// Runs the backtest over the bars of the codes the strategy subscribes
    /// to: the strategy starts; the bars are replayed in time order, each
    /// moving the current time, opening its trading day when its date
    /// differs from the latest one (closing that one first), updating the
    /// price, reaching the strategy, executing every queued order, and
    /// adding a point to the value curve, valued on the account as the
    /// execution left it; the last day closes, the strategy stops, and
    /// every account is settled. Every call on the strategy, the orders and
    /// points it produced, and every run of the queue are logged; the
    /// indicators returned are the points of the calls, in order, and the
    /// trade count is the number of trades of the runs (capped at the
    /// largest `usize`).
    pub fn run(&mut self) -> (r: BacktestResult)
        requires
            old(self).wf(),
        ensures
            final(self).wf(),
            final(self).loaded() == old(self).loaded(),
            ({
                let tl = sorted_by_time(gathered(old(self).loaded(), old(self).subscribed()));
                let n0 = old(self).callbacks().len();
                let f0 = old(self).fill_records().len();
                let calls = final(self).callbacks();
                let fills = final(self).fill_records();
                &&& calls == old(self).callbacks() + run_calls(tl)
                &&& final(self).call_orders().len() == calls.len()
                &&& final(self).call_orders().subrange(0, n0 as int) == old(self).call_orders()
                &&& final(self).call_points().subrange(0, n0 as int) == old(self).call_points()
                &&& r.indicators@ == final(self).call_points().subrange(n0 as int, calls.len() as int).flatten_alt()
                &&& fills.len() == f0 + tl.len()
                &&& fills.subrange(0, f0 as int) == old(self).fill_records()
                &&& r.equity_curve@.len() == tl.len()
                &&& forall|i: int|
                    0 <= i < tl.len() ==> #[trigger] fill_in_run(
                        fills,
                        f0 as int,
                        i,
                        final(self).call_orders(),
                        old(self).spec_market()@.pending,
                        n0 as int,
                    )
                &&& forall|i: int|
                    0 <= i < tl.len() ==> point_matches(
                        #[trigger] r.equity_curve@[i],
                        tl[i],
                        fills[f0 + i].after.accounts[old(self).spec_account_cookie()],
                    )
                &&& r.trade_count == (if total_trades(fills.subrange(f0 as int, fills.len() as int)) > usize::MAX {
                    usize::MAX as int
                } else {
                    total_trades(fills.subrange(f0 as int, fills.len() as int)) as int
                })
            }),
            r.account_cookie@ == old(self).spec_account_cookie(),
            r.init_cash == old(self).spec_market()@.accounts[old(self).spec_account_cookie()].init_cash,
            forall|i: int|
                0 <= i < r.equity_curve@.len() ==> (#[trigger] r.equity_curve@[i]).total_value
                    == r.equity_curve@[i].cash + r.equity_curve@[i].market_value + r.equity_curve@[i].float_pnl,
            qifi_snapshot_of(r.final_qifi, final(self).spec_market()@.accounts[old(self).spec_account_cookie()]),
            r.trades@.len() == 0,
    {
        let init_cash = self.account().summary().init_cash;
        let account_cookie = self.account_cookie.clone();
        let instruments = self.strategy.instruments();
        let timeline = timeline_of(&self.bars, &instruments);
        let ghost tl = timeline@;
        let ghost n0 = self.calls@.len();
        let ghost f0 = self.fills@.len();
        let ghost olds = *self;
        proof {
            let gath = gathered(self.loaded(), self.subscribed());
            assert forall|i: int| 0 <= i < gath.len() implies -MAX_PRICE <= #[trigger] gath[i].close <= MAX_PRICE by {
                lemma_gathered_closes(self.loaded(), self.subscribed(), i);
            }
            lemma_sorted_closes(gath);
        }
        let mut indicators: Vec<IndicatorPoint> = Vec::new();
        let mut equity_curve: Vec<EquityPoint> = Vec::new();

        self.notify_start(String::new(), &mut indicators);
        let ghost base = self.callbacks();
        let ghost mut qbase: Seq<MarketOrder> = olds.market@.pending;
        let ghost mut cut: int = n0 as int;
        proof {
            assert(calls_through(tl, 0) =~= Seq::<Callback>::empty());
            assert(indicators@ =~= Seq::<IndicatorPoint>::empty() + self.points_log@.subrange(n0 as int, self.points_log@.len() as int).flatten_alt());
        }

        let mut last_date: Option<Date> = None;
        let mut trade_count: usize = 0;
        let mut t: usize = 0;
        while t < timeline.len()
            invariant
                self.wf(),
                self.loaded() == olds.loaded(),
                self.account_cookie@ == olds.account_cookie@,
                account_cookie@ == olds.account_cookie@,
                tl == timeline@,
                forall|i: int| 0 <= i < tl.len() ==> -MAX_PRICE <= #[trigger] tl[i].close <= MAX_PRICE,
                t <= tl.len(),
                last_date == last_date_among(tl, t as int),
                self.calls@ == base + calls_through(tl, t as int),
                base == olds.calls@.push(Callback::Start),
                n0 == olds.calls@.len(),
                n0 == olds.orders_log@.len(),
                n0 == olds.points_log@.len(),
                forall|k: int| 0 <= k < n0 ==> #[trigger] self.orders_log@[k] == olds.orders_log@[k],
                forall|k: int| 0 <= k < n0 ==> #[trigger] self.points_log@[k] == olds.points_log@[k],
                indicators@ == self.points_log@.subrange(n0 as int, self.points_log@.len() as int).flatten_alt(),
                n0 <= cut <= self.orders_log@.len(),
                self.market@.pending == qbase + self.orders_log@.subrange(cut, self.orders_log@.len() as int).flatten_alt(),
                t == 0 ==> qbase == olds.market@.pending && cut == n0,
                t > 0 ==> qbase == self.fills@[f0 + t - 1].after.pending && cut == self.fills@[f0 + t - 1].calls_upto,
                self.fills@.len() == f0 + t,
                f0 == olds.fills@.len(),
                forall|k: int| 0 <= k < f0 ==> #[trigger] self.fills@[k] == olds.fills@[k],
                equity_curve@.len() == t,
                forall|i: int|
                    0 <= i < t ==> #[trigger] fill_in_run(self.fills@, f0 as int, i, self.orders_log@, olds.market@.pending, n0 as int),
                forall|i: int|
                    0 <= i < t ==> point_matches(#[trigger] equity_curve@[i], tl[i], self.fills@[f0 + i].after.accounts[olds.account_cookie@]),
                forall|i: int|
                    0 <= i < t ==> (#[trigger] equity_curve@[i]).total_value == equity_curve@[i].cash
                        + equity_curve@[i].market_value + equity_curve@[i].float_pnl,
                trade_count == (if total_trades(self.fills@.subrange(f0 as int, self.fills@.len() as int)) > usize::MAX {
                    usize::MAX as int
                } else {
                    total_trades(self.fills@.subrange(f0 as int, self.fills@.len() as int)) as int
                }),
            decreases tl.len() - t,
        {
            let bar = &timeline[t];
            let ghost head = *self;
            let ghost ih = indicators@;
            last_date = self.replay_bar(bar, last_date, &mut indicators, Ghost(tl), Ghost(t as int));
            proof {
                let (a, b, c) = (n0 as int, head.points_log@.len() as int, self.points_log@.len() as int);
                lemma_flatten_split(self.points_log@, a, b, c);
                assert(self.points_log@.subrange(a, b) =~= head.points_log@.subrange(a, b));
                lemma_flatten_split(self.orders_log@, cut, b, c);
                assert(self.orders_log@.subrange(cut, b) =~= head.orders_log@.subrange(cut, b));
                assert(self.market@.pending =~= qbase + self.orders_log@.subrange(cut, c).flatten_alt());
                assert(indicators@ =~= self.points_log@.subrange(a, c).flatten_alt());
                assert(calls_through(tl, t + 1) == calls_through(tl, t as int) + bar_calls(tl, t as int));
                assert(self.calls@ =~= base + calls_through(tl, t + 1));
            }
            let ghost mid = *self;
            let n = self.fill_queue();
            trade_count = trade_count.saturating_add(n);
            let acc = self.account();
            let summary = acc.summary();
            let dt = bar.datetime.clone();
            let date = match bar.trading_date {
                Some(d) => d.as_str(),
                None => first_word_of(dt.as_str()),
            };
            let ghost prev = equity_curve@;
            equity_curve.push(
                EquityPoint {
                    date,
                    datetime: dt,
                    cash: summary.cash,
                    market_value: summary.market_value,
                    total_value: summary.total_value,
                    float_pnl: summary.float_pnl,
                    close_pnl: summary.close_pnl,
                },
            );
            proof {
                assert(self.fills@[f0 + t] == self.fills@.last());
                assert(self.fills@[f0 + t].before == mid.market@);
                assert(fill_follows(self.fills@, f0 + t, self.orders_log@, qbase, cut));
                assert(fill_in_run(self.fills@, f0 as int, t as int, self.orders_log@, olds.market@.pending, n0 as int));
                assert forall|i: int| 0 <= i < t + 1 implies #[trigger] fill_in_run(
                    self.fills@,
                    f0 as int,
                    i,
                    self.orders_log@,
                    olds.market@.pending,
                    n0 as int,
                ) by {
                    if i < t {
                        assert(fill_in_run(head.fills@, f0 as int, i, head.orders_log@, olds.market@.pending, n0 as int));
                        lemma_fill_in_run_extend(
                            head.fills@,
                            self.fills@,
                            f0 as int,
                            i,
                            head.orders_log@,
                            self.orders_log@,
                            olds.market@.pending,
                            n0 as int,
                        );
                    }
                }
                assert forall|i: int| 0 <= i < t + 1 implies point_matches(
                    #[trigger] equity_curve@[i],
                    tl[i],
                    self.fills@[f0 + i].after.accounts[olds.account_cookie@],
                ) by {
                    if i < t {
                        assert(equity_curve@[i] == prev[i]);
                        assert(self.fills@[f0 + i] == head.fills@[f0 + i]);
                    }
                }
                assert(self.fills@.subrange(f0 as int, self.fills@.len() as int).drop_last() =~= head.fills@.subrange(
                    f0 as int,
                    head.fills@.len() as int,
                ));
                qbase = self.market@.pending;
                cut = self.orders_log@.len() as int;
                lemma_flatten_none(self.orders_log@, cut);
                assert(qbase + Seq::<MarketOrder>::empty() =~= qbase);
            }
            t = t + 1;
        }

        let ghost end = *self;
        let ghost iend = indicators@;
        match last_date {
            Some(date) => {
                let now = self.market.current_datetime();
                self.notify_day_close(date, now, &mut indicators);
                proof {
                    self.lemma_grown_trans(&end, &end, iend, iend, indicators@);
                }
            },
            None => {
                proof {
                    self.lemma_market_step(&end, iend);
                }
            },
        }
        let ghost s6 = *self;
        let ghost i6 = indicators@;
        let now = self.market.current_datetime();
        self.notify_stop(now, &mut indicators);
        proof {
            self.lemma_grown_trans(&s6, &end, iend, i6, indicators@);
            let last = match last_date_among(tl, tl.len() as int) {
                Some(d) => seq![Callback::DayClose(d)],
                None => Seq::<Callback>::empty(),
            };
            assert(self.calls@ =~= end.calls@ + last + seq![Callback::Stop]);
            assert(olds.calls@ + run_calls(tl) =~= self.calls@);
            let (a, b, c) = (n0 as int, end.points_log@.len() as int, self.points_log@.len() as int);
            lemma_flatten_split(self.points_log@, a, b, c);
            assert(self.points_log@.subrange(a, b) =~= end.points_log@.subrange(a, b));
            assert(self.orders_log@.subrange(0, n0 as int) =~= olds.orders_log@);
            assert(self.points_log@.subrange(0, n0 as int) =~= olds.points_log@);
            assert(self.fills@.subrange(0, f0 as int) =~= olds.fills@);
            assert forall|i: int| 0 <= i < tl.len() implies #[trigger] fill_in_run(
                self.fills@,
                f0 as int,
                i,
                self.orders_log@,
                olds.market@.pending,
                n0 as int,
            ) by {
                assert(fill_in_run(end.fills@, f0 as int, i, end.orders_log@, olds.market@.pending, n0 as int));
                lemma_fill_in_run_extend(end.fills@, self.fills@, f0 as int, i, end.orders_log@, self.orders_log@, olds.market@.pending, n0 as int);
            }
            assert(indicators@ == self.points_log@.subrange(n0 as int, self.calls@.len() as int).flatten_alt());
            assert(self.fills@ == end.fills@);
        }

        self.market.daily_settle_all();
        let final_qifi = self.account().to_qifi();
        let trades: Vec<Trade> = Vec::new();
        BacktestResult { account_cookie, init_cash, trade_count, equity_curve, indicators, final_qifi, trades }
    }
}

proof fn lemma_gathered_closes(bars: Map<Seq<char>, Vec<Bar>>, ins: Seq<Seq<char>>, i: int)
    requires
        forall|k: Seq<char>, j: int|
            #[trigger] bars.contains_key(k) && 0 <= j < bars[k]@.len() ==> -MAX_PRICE <= #[trigger] bars[k]@[j].close <= MAX_PRICE,
        0 <= i < gathered(bars, ins).len(),
    ensures
        -MAX_PRICE <= gathered(bars, ins)[i].close <= MAX_PRICE,
    decreases ins.len(),
{
    let pre = gathered(bars, ins.drop_last());
    if i < pre.len() {
        lemma_gathered_closes(bars, ins.drop_last(), i);
    } else {
        let k = ins.last();
        assert(bars.contains_key(k));
        assert(bars[k]@[i - pre.len()] == gathered(bars, ins)[i]);
    }
}

proof fn lemma_sorted_closes(s: Seq<Bar>)
    requires
        forall|i: int| 0 <= i < s.len() ==> -MAX_PRICE <= #[trigger] s[i].close <= MAX_PRICE,
    ensures
        forall|i: int| 0 <= i < sorted_by_time(s).len() ==> -MAX_PRICE <= #[trigger] sorted_by_time(s)[i].close <= MAX_PRICE,
    decreases s.len(),
{
    if s.len() > 0 {
        lemma_sorted_closes(s.drop_last());
        lemma_insert_closes(sorted_by_time(s.drop_last()), s.last());
    }
}

proof fn lemma_insert_closes(s: Seq<Bar>, b: Bar)
    requires
        forall|i: int| 0 <= i < s.len() ==> -MAX_PRICE <= #[trigger] s[i].close <= MAX_PRICE,
        -MAX_PRICE <= b.close <= MAX_PRICE,
    ensures
        forall|i: int|
            0 <= i < crate::bar::insert_by_time(s, b).len() ==> -MAX_PRICE <= #[trigger] crate::bar::insert_by_time(s, b)[i].close
                <= MAX_PRICE,
    decreases s.len(),
{
    if s.len() > 0 {
        lemma_insert_closes(s.drop_last(), b);
    }
}

} // verus!
