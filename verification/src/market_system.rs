//! The market system: registered accounts, one order book per
//! instrument, a queue of orders, and the routing of fills back to the
//! accounts that placed them.

use vstd::prelude::*;
use crate::account::{acc_ok, is_fresh_account, is_new_order, qifi_snapshot_of, Account, AccountView};
use crate::bar::Bar;
use crate::date::{date_text, Date};
use crate::enums::{AccountType, Direction, OrderSide};
use crate::ids::{generate_time_based_id, time_id_text};
use crate::order::OrderView;
use crate::orderbook::{add_order_post, trade_views, BookOrder, BookOrderView, BookState, Orderbook, TradeResult, TradeView};
use crate::position::PositionView;
use crate::qifi::Qifi;
use crate::strmap::StrMap;
use crate::text::{push_str_chars, string_from_chars};
use crate::types::{Amount, Price, Volume, MAX_PRICE};

verus! {

/// An order request to the market system.
#[derive(Debug)]
pub struct MarketOrder {
    pub account_cookie: String,
    pub code: String,
    pub volume: Volume,
    pub price: Price,
    pub direction: Direction,
    pub offset: String,
    pub label: String,
}

impl Clone for MarketOrder {
    fn clone(&self) -> (r: Self)
        ensures
            r == *self,
    {
        MarketOrder {
            account_cookie: self.account_cookie.clone(),
            code: self.code.clone(),
            volume: self.volume,
            price: self.price,
            direction: self.direction,
            offset: self.offset.clone(),
            label: self.label.clone(),
        }
    }
}

impl MarketOrder {
    /// A buy of `volume` at `price` (zero or less: at the latest price).
    pub fn buy(account: &str, code: &str, volume: Volume, price: Price) -> (r: MarketOrder)
        ensures
            r.account_cookie@ == account@,
            r.code@ == code@,
            r.volume == volume,
            r.price == price,
            r.direction == Direction::Buy,
            r.offset@ == "open"@,
            r.label@.len() == 0,
    {
        MarketOrder {
            account_cookie: String::from_str(account),
            code: String::from_str(code),
            volume,
            price,
            direction: Direction::Buy,
            offset: String::from_str("open"),
            label: String::new(),
        }
    }

    /// A sell of `volume` at `price` (zero or less: at the latest price).
    pub fn sell(account: &str, code: &str, volume: Volume, price: Price) -> (r: MarketOrder)
        ensures
            r.account_cookie@ == account@,
            r.code@ == code@,
            r.volume == volume,
            r.price == price,
            r.direction == Direction::Sell,
            r.offset@ == "close"@,
            r.label@.len() == 0,
    {
        MarketOrder {
            account_cookie: String::from_str(account),
            code: String::from_str(code),
            volume,
            price,
            direction: Direction::Sell,
            offset: String::from_str("close"),
            label: String::new(),
        }
    }
}

/// The market system.
pub struct QAMarketSystem {
    pub portfolio: String,
    pub username: String,
    /// Fill every accepted order at once, in full, at its price (or the
    /// latest price) instead of matching it in the book.
    pub backtest_auto_fill: bool,
    accounts: StrMap<Account>,
    orderbooks: StrMap<Orderbook>,
    current_date: Option<Date>,
    current_datetime: String,
    pending_orders: Vec<MarketOrder>,
    last_trades: StrMap<Vec<TradeResult>>,
    market_prices: StrMap<Price>,
}

/// The mathematical state of the market system.
#[verifier::ext_equal]
pub struct MarketView {
    pub portfolio: Seq<char>,
    pub username: Seq<char>,
    pub backtest_auto_fill: bool,
    pub accounts: Map<Seq<char>, AccountView>,
    pub account_names: Seq<Seq<char>>,
    pub orderbooks: Map<Seq<char>, BookState>,
    pub current_date: Option<Date>,
    pub current_datetime: Seq<char>,
    pub pending: Seq<MarketOrder>,
    pub last_trades: Map<Seq<char>, Seq<TradeView>>,
    pub market_prices: Map<Seq<char>, i64>,
}

impl View for QAMarketSystem {
    type V = MarketView;

    closed spec fn view(&self) -> MarketView {
        MarketView {
            portfolio: self.portfolio@,
            username: self.username@,
            backtest_auto_fill: self.backtest_auto_fill,
            accounts: self.accounts.map().map_values(|a: Account| a@),
            account_names: self.accounts.key_seq(),
            orderbooks: self.orderbooks.map().map_values(|b: Orderbook| b@),
            current_date: self.current_date,
            current_datetime: self.current_datetime@,
            pending: self.pending_orders@,
            last_trades: self.last_trades.map().map_values(|v: Vec<TradeResult>| trade_views(v@)),
            market_prices: self.market_prices.map(),
        }
    }
}

/// The account-level side of a market order's direction.
pub open spec fn side_of(d: Direction) -> OrderSide {
    if d is Buy { OrderSide::Buy } else { OrderSide::Sell }
}

/// One fill report: booked when the account accepts it, ignored when it
/// refuses it.
pub open spec fn fill_step(a: AccountView, id: Seq<char>, t: TradeView, tt: Seq<char>, dt: Seq<char>) -> AccountView {
    if a.fill_error(id, t.volume as int, t.price as int) is None {
        a.after_fill(id, t.volume as int, t.price as int, tt, dt)
    } else {
        a
    }
}

/// The account after reporting `trades` in turn for order `id`, with the
/// clock texts each booked fill recorded.
pub open spec fn after_fills(
    a: AccountView,
    id: Seq<char>,
    trades: Seq<TradeView>,
    tts: Seq<Seq<char>>,
    dts: Seq<Seq<char>>,
) -> AccountView
    decreases trades.len(),
{
    if trades.len() == 0 {
        a
    } else {
        fill_step(
            after_fills(a, id, trades.drop_last(), tts.drop_last(), dts.drop_last()),
            id,
            trades.last(),
            tts.last(),
            dts.last(),
        )
    }
}

pub open spec fn empty_book(code: Seq<char>) -> BookState {
    BookState {
        instrument_id: code,
        bids: Seq::empty(),
        asks: Seq::empty(),
        index: Map::empty(),
        seq: 0,
        trade_seq: 0,
    }
}

impl MarketView {
    pub open spec fn book_or_new(self, code: Seq<char>) -> BookState {
        if self.orderbooks.contains_key(code) {
            self.orderbooks[code]
        } else {
            empty_book(code)
        }
    }

    pub open spec fn trades_for(self, code: Seq<char>) -> Seq<TradeView> {
        if self.last_trades.contains_key(code) {
            self.last_trades[code]
        } else {
            Seq::empty()
        }
    }

    /// The price an automatic fill uses: the order's own, or the latest
    /// price when the order names none.
    pub open spec fn auto_fill_price(self, mo: MarketOrder) -> int {
        if mo.price > 0 {
            mo.price as int
        } else if self.market_prices.contains_key(mo.code@) {
            self.market_prices[mo.code@] as int
        } else {
            mo.price as int
        }
    }

    /// The market after the account accepted `mo` as order `o`: filled at
    /// once in full (automatic fills) or matched in the instrument's book,
    /// the fills reported to the account, and the trades recorded.
    pub open spec fn executed(
        self,
        mo: MarketOrder,
        o: OrderView,
        tts: Seq<Seq<char>>,
        dts: Seq<Seq<char>>,
        m2: MarketView,
        out: Seq<TradeView>,
    ) -> bool {
        let acct = mo.account_cookie@;
        let code = mo.code@;
        let a1 = self.accounts[acct].after_place(side_of(mo.direction), code, mo.volume as int, mo.price as int, o);
        &&& tts.len() == out.len()
        &&& dts.len() == out.len()
        &&& if self.backtest_auto_fill {
            &&& out.len() == 1
            &&& (exists|nanos: i64| out[0].trade_id == time_id_text("TRD_"@ + code, nanos))
            &&& out[0].bid_order_id == (if mo.direction is Buy { o.order_id } else { Seq::<char>::empty() })
            &&& out[0].ask_order_id == (if mo.direction is Sell { o.order_id } else { Seq::<char>::empty() })
            &&& out[0].price == self.auto_fill_price(mo)
            &&& out[0].volume == mo.volume
            &&& m2 == (MarketView {
                accounts: self.accounts.insert(acct, after_fills(a1, o.order_id, out, tts, dts)),
                last_trades: self.last_trades.insert(code, self.trades_for(code) + out),
                ..self
            })
        } else {
            let post = add_order_post(
                self.book_or_new(code),
                BookOrderView {
                    order_id: o.order_id,
                    direction: mo.direction,
                    price: mo.price,
                    volume: mo.volume,
                    timestamp: 0,
                },
            );
            &&& out == post.1
            &&& m2 == (MarketView {
                orderbooks: self.orderbooks.insert(code, post.0),
                accounts: self.accounts.insert(acct, after_fills(a1, o.order_id, out, tts, dts)),
                last_trades: self.last_trades.insert(code, self.trades_for(code) + out),
                ..self
            })
        }
    }

    /// `m2` and `out` are what executing `mo` gives: nothing for an unknown
    /// account or a refused order (the account records the refusal);
    /// otherwise the order placed and executed.
    pub open spec fn execute_rel(self, mo: MarketOrder, m2: MarketView, out: Seq<TradeView>) -> bool {
        let acct = mo.account_cookie@;
        let code = mo.code@;
        let side = side_of(mo.direction);
        if !self.accounts.contains_key(acct) {
            out.len() == 0 && m2 == self
        } else {
            let a = self.accounts[acct];
            if a.place_error(side, code, mo.volume as int, mo.price as int) is Some {
                &&& out.len() == 0
                &&& m2 == (MarketView {
                    accounts: self.accounts.insert(acct, a.after_place_error(side, code, mo.volume as int, mo.price as int)),
                    ..self
                })
            } else {
                exists|o: OrderView, tts: Seq<Seq<char>>, dts: Seq<Seq<char>>|
                    is_new_order(o, a.account_cookie, code, side, mo.volume as int, mo.price as int)
                        && #[trigger] self.executed(mo, o, tts, dts, m2, out)
            }
        }
    }
}

/// The trades of several executions, in order.
pub open spec fn concat_all(outs: Seq<Seq<TradeView>>) -> Seq<TradeView>
    decreases outs.len(),
{
    if outs.len() == 0 {
        Seq::empty()
    } else {
        concat_all(outs.drop_last()) + outs.last()
    }
}

/// `mids` are the market states and `outs` the trades of executing
/// `pend` in turn from `mids[0]`.
pub open spec fn execution_chain(pend: Seq<MarketOrder>, mids: Seq<MarketView>, outs: Seq<Seq<TradeView>>) -> bool {
    &&& mids.len() == pend.len() + 1
    &&& outs.len() == pend.len()
    &&& forall|i: int| 0 <= i < pend.len() ==> #[trigger] mids[i].execute_rel(pend[i], mids[i + 1], outs[i])
}

/// `m2` is `m` after a price of `code`: recorded, and every account
/// revalued at a time of its own.
pub open spec fn price_applied(m: MarketView, code: Seq<char>, price: int, m2: MarketView) -> bool {
    &&& m2 == (MarketView {
        market_prices: m.market_prices.insert(code, price as i64),
        accounts: m2.accounts,
        ..m
    })
    &&& m2.accounts.dom() == m.accounts.dom()
    &&& forall|k: Seq<char>|
        #[trigger] m.accounts.contains_key(k) ==> exists|dt: Seq<char>|
            m2.accounts[k] == m.accounts[k].after_price(code, price, dt)
}

/// Codes and prices as text and numbers.
pub open spec fn price_pairs(prices: Seq<(String, Price)>) -> Seq<(Seq<char>, i64)> {
    prices.map_values(|p: (String, Price)| (p.0@, p.1))
}

/// `mids` are the market states of applying the prices `ps` in turn
/// from `mids[0]`.
pub open spec fn price_chain(ps: Seq<(Seq<char>, i64)>, mids: Seq<MarketView>) -> bool {
    &&& mids.len() == ps.len() + 1
    &&& forall|i: int| 0 <= i < ps.len() ==> #[trigger] price_applied(mids[i], ps[i].0, ps[i].1 as int, mids[i + 1])
}

impl QAMarketSystem {
    /// Sound maps; every account sound and registered under its name;
    /// every book sound.
    pub closed spec fn wf(&self) -> bool {
        &&& self.accounts.wf()
        &&& self.orderbooks.wf()
        &&& self.last_trades.wf()
        &&& self.market_prices.wf()
        &&& forall|k: Seq<char>| #[trigger] self.accounts.map().contains_key(k) ==> {
            &&& self.accounts.map()[k].wf()
            &&& self.accounts.map()[k]@.account_cookie == k
        }
        &&& forall|k: Seq<char>| #[trigger] self.orderbooks.map().contains_key(k) ==> self.orderbooks.map()[k].wf()
    }

    /// A market system filling orders at once (backtests).
    pub fn new(portfolio: String) -> (r: QAMarketSystem)
        ensures
            r.wf(),
            r@.portfolio == portfolio@,
            r@.username.len() == 0,
            r@.backtest_auto_fill,
            r@.accounts == Map::<Seq<char>, AccountView>::empty(),
            r@.account_names.len() == 0,
            r@.orderbooks == Map::<Seq<char>, BookState>::empty(),
            r@.current_date is None,
            r@.current_datetime.len() == 0,
            r@.pending.len() == 0,
            r@.last_trades == Map::<Seq<char>, Seq<TradeView>>::empty(),
            r@.market_prices == Map::<Seq<char>, i64>::empty(),
    {
        let r = QAMarketSystem {
            portfolio,
            username: String::new(),
            backtest_auto_fill: true,
            accounts: StrMap::new(),
            orderbooks: StrMap::new(),
            current_date: None,
            current_datetime: String::new(),
            pending_orders: Vec::new(),
            last_trades: StrMap::new(),
            market_prices: StrMap::new(),
        };
        assert(r@.accounts =~= Map::<Seq<char>, AccountView>::empty());
        assert(r@.orderbooks =~= Map::<Seq<char>, BookState>::empty());
        assert(r@.last_trades =~= Map::<Seq<char>, Seq<TradeView>>::empty());
        r
    }

    /// A market system matching orders in the books (simulation, live).
    pub fn new_sim(portfolio: String) -> (r: QAMarketSystem)
        ensures
            r.wf(),
            r@ == (MarketView { backtest_auto_fill: false, ..QAMarketSystem::new_view(portfolio@) }),
    {
        let mut s = Self::new(portfolio);
        s.backtest_auto_fill = false;
        assert(s@ =~= (MarketView { backtest_auto_fill: false, ..QAMarketSystem::new_view(portfolio@) }));
        s
    }

    pub open spec fn new_view(portfolio: Seq<char>) -> MarketView {
        MarketView {
            portfolio,
            username: Seq::empty(),
            backtest_auto_fill: true,
            accounts: Map::empty(),
            account_names: Seq::empty(),
            orderbooks: Map::empty(),
            current_date: None,
            current_datetime: Seq::empty(),
            pending: Seq::empty(),
            last_trades: Map::empty(),
            market_prices: Map::empty(),
        }
    }

    /// Registers a new stock account named `name` holding `init_cash`,
    /// replacing one of the same name.
    pub fn register_account(&mut self, name: String, init_cash: Amount)
        requires
            old(self).wf(),
            acc_ok(init_cash as int),
        ensures
            final(self).wf(),
            final(self)@.accounts.contains_key(name@),
            is_fresh_account(final(self)@.accounts[name@], name@, init_cash as int, AccountType::Stock),
            final(self)@ == (MarketView {
                accounts: old(self)@.accounts.insert(name@, final(self)@.accounts[name@]),
                account_names: final(self)@.account_names,
                ..old(self)@
            }),
    {
        let key = name.clone();
        let acc = Account::new_stock(name, init_cash);
        let ghost av = acc@;
        self.accounts.insert(key, acc);
        proof {
            assert(self@.accounts =~= old(self)@.accounts.insert(key@, av));
        }
    }

    /// Registers an account under its own name.
    pub fn register_account_arc(&mut self, account: Account)
        requires
            old(self).wf(),
            account.wf(),
        ensures
            final(self).wf(),
            final(self)@ == (MarketView {
                accounts: old(self)@.accounts.insert(account@.account_cookie, account@),
                account_names: final(self)@.account_names,
                ..old(self)@
            }),
    {
        let ghost av = account@;
        let key = account.cookie();
        self.accounts.insert(key, account);
        proof {
            assert(self@.accounts =~= old(self)@.accounts.insert(av.account_cookie, av));
        }
    }

    pub fn get_account(&self, name: &str) -> (r: Option<&Account>)
        requires
            self.wf(),
        ensures
            match r {
                Some(a) => self@.accounts.contains_key(name@) && a@ == self@.accounts[name@] && a.wf(),
                None => !self@.accounts.contains_key(name@),
            },
    {
        self.accounts.get(name)
    }

    /// The names of the registered accounts, in registration order.
    pub fn account_names(&self) -> (r: Vec<String>)
        requires
            self.wf(),
        ensures
            r@.map_values(|s: String| s@) == self@.account_names,
    {
        let mut out: Vec<String> = Vec::new();
        let n: usize = self.accounts.len();
        let mut i: usize = 0;
        proof {
            self.accounts.lemma_wf();
        }
        while i < n
            invariant
                self.wf(),
                n == self.accounts.key_seq().len(),
                i <= n,
                out@.map_values(|s: String| s@) == self.accounts.key_seq().take(i as int),
            decreases n - i,
        {
            proof {
                self.accounts.lemma_wf();
            }
            let k = self.accounts.key_at(i).clone();
            assert(k@ == self.accounts.key_seq()[i as int]);
            let ghost before = out@;
            out.push(k);
            assert(out@ == before.push(k));
            assert(self.accounts.key_seq().take(i + 1) =~= self.accounts.key_seq().take(i as int).push(k@));
            assert(out@.map_values(|s: String| s@) =~= before.map_values(|s: String| s@).push(k@));
            i = i + 1;
        }
        assert(self.accounts.key_seq().take(n as int) =~= self.accounts.key_seq());
        out
    }

    /// Sets the trading date; the current time becomes its `YYYY-MM-DD`.
    pub fn set_date(&mut self, date: Date)
        ensures
            final(self)@ == (MarketView {
                current_date: Some(date),
                current_datetime: date_text(date.y(), date.m(), date.d()),
                ..old(self)@
            }),
            final(self).wf() == old(self).wf(),
    {
        self.current_date = Some(date);
        self.current_datetime = date.as_str();
    }

    pub fn set_datetime(&mut self, dt: String)
        ensures
            final(self)@ == (MarketView { current_datetime: dt@, ..old(self)@ }),
            final(self).wf() == old(self).wf(),
    {
        self.current_datetime = dt;
    }

    pub fn current_date(&self) -> (r: Option<Date>)
        ensures
            r == self@.current_date,
    {
        self.current_date
    }

    pub fn current_datetime(&self) -> (r: String)
        ensures
            r@ == self@.current_datetime,
    {
        self.current_datetime.clone()
    }

    /// Queues an order for the next `process_order_queue`.
    pub fn schedule_order(&mut self, order: MarketOrder)
        ensures
            final(self)@ == (MarketView { pending: old(self)@.pending.push(order), ..old(self)@ }),
            final(self).wf() == old(self).wf(),
    {
        self.pending_orders.push(order);
    }
}

fn concat2(a: &str, b: &str) -> (r: String)
    ensures
        r@ == a@ + b@,
{
    let mut v: Vec<char> = Vec::new();
    push_str_chars(&mut v, a);
    push_str_chars(&mut v, b);
    string_from_chars(v)
}

impl QAMarketSystem {
    /// Executes one order: places it through its account, then fills it
    /// at once (automatic fills) or matches it in its instrument's book,
    /// reports each fill to the account and records the trades. Returns
    /// the trades; none for an unknown account or a refused order.
    pub fn execute_order(&mut self, mo: &MarketOrder) -> (r: Vec<TradeResult>)
        requires
            old(self).wf(),
        ensures
            final(self).wf(),
            old(self)@.execute_rel(*mo, final(self)@, trade_views(r@)),
            final(self)@.accounts.dom() == old(self)@.accounts.dom(),
    {
        let ai = match self.accounts.find(mo.account_cookie.as_str()) {
            Some(i) => i,
            None => {
                let v: Vec<TradeResult> = Vec::new();
                assert(trade_views(v@) =~= Seq::<TradeView>::empty());
                return v;
            },
        };
        proof {
            self.accounts.lemma_wf();
            self.accounts.lemma_index_of(ai as int);
        }
        let ghost m0 = self@;
        let ghost acct = mo.account_cookie@;
        let ghost code = mo.code@;
        let side = match mo.direction {
            Direction::Buy => OrderSide::Buy,
            Direction::Sell => OrderSide::Sell,
        };
        let placeholder = Account::new(String::new(), 0, AccountType::Stock);
        let mut acc = self.accounts.swap_value(ai, placeholder);
        assert(acc@ == m0.accounts[acct]);
        let oid = match acc.place_order(side, mo.code.as_str(), mo.volume, mo.price) {
            Ok(id) => id,
            Err(_) => {
                let ghost av = acc@;
                self.accounts.swap_value(ai, acc);
                proof {
                    assert(self@.accounts =~= m0.accounts.insert(acct, av));
                    assert(self@ =~= (MarketView { accounts: m0.accounts.insert(acct, av), ..m0 }));
                    assert(self@.accounts.dom() =~= m0.accounts.dom());
                }
                let v: Vec<TradeResult> = Vec::new();
                assert(trade_views(v@) =~= Seq::<TradeView>::empty());
                return v;
            },
        };
        let ghost a1 = acc@;
        let ghost o = acc@.orders[oid@];
        let ghost m1 = self@;
        let trades: Vec<TradeResult> = if self.backtest_auto_fill {
            let fill_price: i64 = if mo.price > 0 {
                mo.price
            } else {
                match self.market_prices.get(mo.code.as_str()) {
                    Some(p) => *p,
                    None => mo.price,
                }
            };
            let prefix = concat2("TRD_", mo.code.as_str());
            let tid = generate_time_based_id(prefix.as_str());
            let bid = if mo.direction.is_buy() {
                oid.clone()
            } else {
                String::new()
            };
            let ask = if mo.direction.is_sell() {
                oid.clone()
            } else {
                String::new()
            };
            let t = TradeResult { trade_id: tid, bid_order_id: bid, ask_order_id: ask, price: fill_price, volume: mo.volume };
            let mut v: Vec<TradeResult> = Vec::new();
            v.push(t);
            v
        } else {
            proof {
                self.orderbooks.lemma_wf();
            }
            let bi = self.orderbooks.find(mo.code.as_str());
            let mut ob = match bi {
                Some(i) => self.orderbooks.swap_value(i, Orderbook::new(String::new())),
                None => Orderbook::new(mo.code.clone()),
            };
            proof {
                if bi.is_some() {
                    assert(ob@ == m0.orderbooks[code]);
                } else {
                    assert(ob@.bids =~= Seq::<BookOrderView>::empty());
                    assert(ob@.asks =~= Seq::<BookOrderView>::empty());
                    assert(ob@ == empty_book(code));
                }
            }
            assert(ob@ == m0.book_or_new(code));
            let ghost b0 = ob@;
            let trades = ob.add_order(
                BookOrder { order_id: oid.clone(), direction: mo.direction, price: mo.price, volume: mo.volume, timestamp: 0 },
            );
            let ghost b1 = ob@;
            match bi {
                Some(i) => {
                    proof {
                        self.orderbooks.lemma_index_of(i as int);
                    }
                    self.orderbooks.swap_value(i, ob);
                },
                None => {
                    self.orderbooks.insert(mo.code.clone(), ob);
                },
            }
            proof {
                assert(self@.orderbooks =~= m0.orderbooks.insert(code, b1));
            }
            trades
        };
        let ghost m2 = self@;
        let ghost tv = trade_views(trades@);
        let ghost mut tts: Seq<Seq<char>> = Seq::empty();
        let ghost mut dts: Seq<Seq<char>> = Seq::empty();
        let mut k: usize = 0;
        assert(tv.take(0) =~= Seq::<TradeView>::empty());
        while k < trades.len()
            invariant
                acc.wf(),
                k <= trades@.len(),
                tv == trade_views(trades@),
                tts.len() == k,
                dts.len() == k,
                acc@ == after_fills(a1, oid@, tv.take(k as int), tts, dts),
                acc@.account_cookie == a1.account_cookie,
            decreases trades@.len() - k,
        {
            let t = &trades[k];
            let ghost before = acc@;
            let res = acc.on_trade(oid.as_str(), t.volume, t.price);
            proof {
                let tt = match res {
                    Ok(_) => acc@.orders[oid@].trade_time,
                    Err(_) => Seq::<char>::empty(),
                };
                let dt = match res {
                    Ok(_) => acc@.positions[before.orders[oid@].instrument_id].lastest_datetime,
                    Err(_) => Seq::<char>::empty(),
                };
                let tts2 = tts.push(tt);
                let dts2 = dts.push(dt);
                assert(tv.take(k + 1).drop_last() =~= tv.take(k as int));
                assert(tts2.drop_last() =~= tts);
                assert(dts2.drop_last() =~= dts);
                assert(tv.take(k + 1).last() == t@);
                tts = tts2;
                dts = dts2;
            }
            k = k + 1;
        }
        assert(tv.take(trades@.len() as int) =~= tv);
        let ghost af = acc@;
        self.accounts.swap_value(ai, acc);
        proof {
            assert(self@.accounts =~= m0.accounts.insert(acct, af));
            self.last_trades.lemma_wf();
        }
        let li = self.last_trades.find(mo.code.as_str());
        let mut lt: Vec<TradeResult> = match li {
            Some(i) => self.last_trades.swap_value(i, Vec::new()),
            None => Vec::new(),
        };
        let ghost lt0 = trade_views(lt@);
        assert(lt0 == m0.trades_for(code));
        let mut j: usize = 0;
        while j < trades.len()
            invariant
                j <= trades@.len(),
                tv == trade_views(trades@),
                trade_views(lt@) == lt0 + tv.take(j as int),
            decreases trades@.len() - j,
        {
            let c = trades[j].clone();
            let ghost before = lt@;
            lt.push(c);
            assert(trade_views(lt@) =~= trade_views(before).push(c@));
            assert(tv.take(j + 1) =~= tv.take(j as int).push(tv[j as int]));
            j = j + 1;
        }
        let ghost ltv = trade_views(lt@);
        match li {
            Some(i) => {
                proof {
                    self.last_trades.lemma_index_of(i as int);
                }
                self.last_trades.swap_value(i, lt);
            },
            None => {
                self.last_trades.insert(mo.code.clone(), lt);
            },
        }
        proof {
            assert(self@.last_trades =~= m0.last_trades.insert(code, m0.trades_for(code) + tv));
            assert(m0.executed(*mo, o, tts, dts, self@, tv));
            assert(self@.accounts.dom() =~= m0.accounts.dom());
            assert forall|k: Seq<char>| #[trigger] self.accounts.map().contains_key(k) implies {
                &&& self.accounts.map()[k].wf()
                &&& self.accounts.map()[k]@.account_cookie == k
            } by {
                if k != acct {
                    assert(old(self).accounts.map().contains_key(k));
                }
            }
            assert forall|k: Seq<char>| #[trigger] self.orderbooks.map().contains_key(k) implies self.orderbooks.map()[k].wf() by {
                if k != code {
                    assert(old(self).orderbooks.map().contains_key(k));
                }
            }
        }
        trades
    }
}

impl QAMarketSystem {
    /// Executes every queued order in turn and empties the queue. Returns
    /// all trades, in order.
    pub fn process_order_queue(&mut self) -> (r: Vec<TradeResult>)
        requires
            old(self).wf(),
        ensures
            final(self).wf(),
            final(self)@.accounts.dom() == old(self)@.accounts.dom(),
            exists|mids: Seq<MarketView>, outs: Seq<Seq<TradeView>>|
                #[trigger] execution_chain(old(self)@.pending, mids, outs)
                    && mids[0] == (MarketView { pending: Seq::empty(), ..old(self)@ })
                    && mids.last() == final(self)@
                    && trade_views(r@) == concat_all(outs),
    {
        let mut pend: Vec<MarketOrder> = Vec::new();
        std::mem::swap(&mut pend, &mut self.pending_orders);
        let ghost m0 = self@;
        assert(m0 =~= (MarketView { pending: Seq::empty(), ..old(self)@ }));
        let mut all: Vec<TradeResult> = Vec::new();
        let mut i: usize = 0;
        let ghost mut mids: Seq<MarketView> = seq![m0];
        let ghost mut outs: Seq<Seq<TradeView>> = Seq::empty();
        assert(trade_views(all@) =~= Seq::<TradeView>::empty());
        while i < pend.len()
            invariant
                self.wf(),
                i <= pend@.len(),
                pend@ == old(self)@.pending,
                mids.len() == i + 1,
                outs.len() == i,
                mids[0] == m0,
                mids.last() == self@,
                self@.accounts.dom() == old(self)@.accounts.dom(),
                forall|j: int| 0 <= j < i ==> #[trigger] mids[j].execute_rel(pend@[j], mids[j + 1], outs[j]),
                trade_views(all@) == concat_all(outs),
            decreases pend@.len() - i,
        {
            let ghost mid = self@;
            let ghost out1 = trade_views(all@);
            let trades = self.execute_order(&pend[i]);
            let ghost out2 = trade_views(trades@);
            let mut j: usize = 0;
            while j < trades.len()
                invariant
                    j <= trades@.len(),
                    out2 == trade_views(trades@),
                    trade_views(all@) == out1 + out2.take(j as int),
                decreases trades@.len() - j,
            {
                let c = trades[j].clone();
                let ghost before = all@;
                all.push(c);
                assert(trade_views(all@) =~= trade_views(before).push(c@));
                assert(out2.take(j + 1) =~= out2.take(j as int).push(out2[j as int]));
                j = j + 1;
            }
            proof {
                assert(out2.take(out2.len() as int) =~= out2);
                assert(trade_views(all@) =~= out1 + out2);
                let mids2 = mids.push(self@);
                let outs2 = outs.push(out2);
                assert(outs2.drop_last() =~= outs);
                assert forall|j: int| 0 <= j < i + 1 implies #[trigger] mids2[j].execute_rel(pend@[j], mids2[j + 1], outs2[j]) by {
                    if j < i {
                        assert(mids2[j] == mids[j] && mids2[j + 1] == mids[j + 1] && outs2[j] == outs[j]);
                    } else {
                        assert(mids2[j] == mid);
                    }
                }
                mids = mids2;
                outs = outs2;
            }
            i = i + 1;
        }
        assert(execution_chain(old(self)@.pending, mids, outs));
        all
    }

    /// One step: the bar's close becomes its instrument's price, then the
    /// queued orders are processed.
    pub fn step_with_bar(&mut self, bar: &Bar)
        requires
            old(self).wf(),
            -MAX_PRICE <= bar.close <= MAX_PRICE,
        ensures
            final(self).wf(),
            final(self)@.accounts.dom() == old(self)@.accounts.dom(),
            exists|m1: MarketView, mids: Seq<MarketView>, outs: Seq<Seq<TradeView>>|
                price_applied(old(self)@, bar.order_book_id@, bar.close as int, m1)
                    && #[trigger] execution_chain(m1.pending, mids, outs)
                    && mids[0] == (MarketView { pending: Seq::empty(), ..m1 })
                    && mids.last() == final(self)@,
    {
        self.update_price(bar.order_book_id.as_str(), bar.close);
        let ghost m1 = self@;
        let _trades = self.process_order_queue();
        proof {
            let (mids, outs) = choose|mids: Seq<MarketView>, outs: Seq<Seq<TradeView>>|
                #[trigger] execution_chain(m1.pending, mids, outs)
                    && mids[0] == (MarketView { pending: Seq::empty(), ..m1 })
                    && mids.last() == self@
                    && trade_views(_trades@) == concat_all(outs);
            assert(price_applied(old(self)@, bar.order_book_id@, bar.close as int, m1));
            assert(execution_chain(m1.pending, mids, outs));
        }
    }

    /// Records the price of `code` and revalues every account.
    pub fn update_price(&mut self, code: &str, price: Price)
        requires
            old(self).wf(),
            -MAX_PRICE <= price <= MAX_PRICE,
        ensures
            final(self).wf(),
            price_applied(old(self)@, code@, price as int, final(self)@),
    {
        self.market_prices.insert(String::from_str(code), price);
        let ghost m1 = self@;
        let n: usize = self.accounts.len();
        let mut i: usize = 0;
        proof {
            self.accounts.lemma_wf();
        }
        let ghost keys = self.accounts.key_seq();
        let ghost mut dts: Seq<Seq<char>> = Seq::empty();
        while i < n
            invariant
                self.wf(),
                -MAX_PRICE <= price <= MAX_PRICE,
                dts.len() == i,
                n == keys.len(),
                i <= n,
                keys == self.accounts.key_seq(),
                self@ == (MarketView { accounts: self@.accounts, ..m1 }),
                self@.accounts.dom() == m1.accounts.dom(),
                forall|j: int| 0 <= j < i ==> #[trigger] self@.accounts[keys[j]] == m1.accounts[keys[j]].after_price(code@, price as int, dts[j]),
                forall|j: int| i <= j < n ==> #[trigger] self@.accounts[keys[j]] == m1.accounts[keys[j]],
            decreases n - i,
        {
            proof {
                self.accounts.lemma_wf();
                self.accounts.lemma_index_of(i as int);
            }
            let ghost prev = self@;
            let placeholder = Account::new(String::new(), 0, AccountType::Stock);
            let mut acc = self.accounts.swap_value(i, placeholder);
            assert(acc@ == prev.accounts[keys[i as int]]);
            let ghost a0 = acc@;
            acc.update_market_data(code, price);
            let ghost av = acc@;
            let ghost dt = if a0.positions.contains_key(code@) {
                av.positions[code@].lastest_datetime
            } else {
                Seq::<char>::empty()
            };
            assert(av == a0.after_price(code@, price as int, dt));
            self.accounts.swap_value(i, acc);
            proof {
                assert(self@.accounts =~= prev.accounts.insert(keys[i as int], av));
                assert(self@.accounts[keys[i as int]] == m1.accounts[keys[i as int]].after_price(code@, price as int, dt));
                dts = dts.push(dt);
                assert forall|j: int| 0 <= j < n && j != i implies self@.accounts[#[trigger] keys[j]] == prev.accounts[keys[j]] by {
                    assert(keys[j] != keys[i as int]);
                }
                assert forall|k: Seq<char>| #[trigger] self.accounts.map().contains_key(k) implies {
                    &&& self.accounts.map()[k].wf()
                    &&& self.accounts.map()[k]@.account_cookie == k
                } by {
                    if k != keys[i as int] {
                        assert(prev.accounts.contains_key(k));
                    }
                }
            }
            i = i + 1;
        }
        proof {
            self.accounts.lemma_wf();
            assert forall|k: Seq<char>| #[trigger] old(self)@.accounts.contains_key(k) implies exists|dt: Seq<char>|
                self@.accounts[k] == old(self)@.accounts[k].after_price(code@, price as int, dt) by {
                let j = choose|j: int| 0 <= j < keys.len() && #[trigger] keys[j] == k;
                assert(self@.accounts[keys[j]] == m1.accounts[keys[j]].after_price(code@, price as int, dts[j]));
            }
        }
    }

    /// Records each price in turn (see `update_price`).
    pub fn update_all_prices(&mut self, prices: &Vec<(String, Price)>)
        requires
            old(self).wf(),
            forall|i: int| 0 <= i < prices@.len() ==> -MAX_PRICE <= (#[trigger] prices@[i]).1 <= MAX_PRICE,
        ensures
            final(self).wf(),
            exists|mids: Seq<MarketView>|
                #[trigger] price_chain(price_pairs(prices@), mids)
                    && mids[0] == old(self)@ && mids.last() == final(self)@,
    {
        let ghost ps = price_pairs(prices@);
        let mut i: usize = 0;
        let ghost mut mids: Seq<MarketView> = seq![self@];
        while i < prices.len()
            invariant
                self.wf(),
                i <= prices@.len(),
                ps == price_pairs(prices@),
                forall|j: int| 0 <= j < prices@.len() ==> -MAX_PRICE <= (#[trigger] prices@[j]).1 <= MAX_PRICE,
                mids.len() == i + 1,
                mids[0] == old(self)@,
                mids.last() == self@,
                forall|j: int| 0 <= j < i ==> #[trigger] price_applied(mids[j], ps[j].0, ps[j].1 as int, mids[j + 1]),
            decreases prices@.len() - i,
        {
            let ghost mid = self@;
            let (code, price) = (&prices[i].0, prices[i].1);
            assert(-MAX_PRICE <= prices@[i as int].1 <= MAX_PRICE);
            self.update_price(code.as_str(), price);
            proof {
                assert(ps[i as int] == (code@, price));
                let mids2 = mids.push(self@);
                assert forall|j: int| 0 <= j < i + 1 implies #[trigger] price_applied(mids2[j], ps[j].0, ps[j].1 as int, mids2[j + 1]) by {
                    if j < i {
                        assert(mids2[j] == mids[j] && mids2[j + 1] == mids[j + 1]);
                    } else {
                        assert(mids2[j] == mid);
                    }
                }
                mids = mids2;
            }
            i = i + 1;
        }
        assert(price_chain(ps, mids));
    }

    pub fn get_orderbook(&self, code: &str) -> (r: Option<&Orderbook>)
        requires
            self.wf(),
        ensures
            match r {
                Some(b) => self@.orderbooks.contains_key(code@) && b@ == self@.orderbooks[code@] && b.wf(),
                None => !self@.orderbooks.contains_key(code@),
            },
    {
        self.orderbooks.get(code)
    }

    /// The trades recorded for `code`, oldest first.
    pub fn last_trades(&self, code: &str) -> (r: Vec<TradeResult>)
        requires
            self.wf(),
        ensures
            trade_views(r@) == self@.trades_for(code@),
    {
        let mut out: Vec<TradeResult> = Vec::new();
        match self.last_trades.get(code) {
            Some(v) => {
                let mut j: usize = 0;
                while j < v.len()
                    invariant
                        j <= v@.len(),
                        trade_views(out@) == trade_views(v@).take(j as int),
                    decreases v@.len() - j,
                {
                    let c = v[j].clone();
                    let ghost before = out@;
                    out.push(c);
                    assert(trade_views(out@) =~= trade_views(before).push(c@));
                    assert(trade_views(v@).take(j + 1) =~= trade_views(v@).take(j as int).push(v@[j as int]@));
                    j = j + 1;
                }
                assert(trade_views(v@).take(v@.len() as int) =~= trade_views(v@));
            },
            None => {
                assert(trade_views(out@) =~= Seq::<TradeView>::empty());
            },
        }
        out
    }

    /// A QIFI snapshot of every account, under its name.
    pub fn snapshot_all_accounts(&self) -> (r: StrMap<Qifi>)
        requires
            self.wf(),
        ensures
            r.wf(),
            r.map().dom() == self@.accounts.dom(),
            forall|k: Seq<char>| #[trigger] r.map().contains_key(k) ==> qifi_snapshot_of(r.map()[k], self@.accounts[k]),
    {
        let mut out: StrMap<Qifi> = StrMap::new();
        let n: usize = self.accounts.len();
        let mut i: usize = 0;
        proof {
            self.accounts.lemma_wf();
        }
        let ghost keys = self.accounts.key_seq();
        while i < n
            invariant
                self.wf(),
                out.wf(),
                keys == self.accounts.key_seq(),
                n == keys.len(),
                i <= n,
                forall|k: Seq<char>| #[trigger] out.map().contains_key(k) <==> exists|j: int| 0 <= j < i && #[trigger] keys[j] == k,
                forall|k: Seq<char>| #[trigger] out.map().contains_key(k) ==> qifi_snapshot_of(out.map()[k], self@.accounts[k]),
            decreases n - i,
        {
            proof {
                self.accounts.lemma_wf();
            }
            let k = self.accounts.key_at(i).clone();
            let a = self.accounts.value_at(i);
            assert(self@.accounts[keys[i as int]] == a@);
            let q = a.to_qifi();
            out.insert(k, q);
            i = i + 1;
        }
        proof {
            self.accounts.lemma_wf();
            assert forall|k: Seq<char>| #[trigger] out.map().dom().contains(k) <==> self@.accounts.dom().contains(k) by {
                if self@.accounts.dom().contains(k) {
                    let j = choose|j: int| 0 <= j < keys.len() && #[trigger] keys[j] == k;
                }
            }
            assert(out.map().dom() =~= self@.accounts.dom());
        }
        out
    }

    /// End of day for every account.
    pub fn daily_settle_all(&mut self)
        requires
            old(self).wf(),
        ensures
            final(self).wf(),
            final(self)@ == (MarketView {
                accounts: old(self)@.accounts.map_values(|a: AccountView| a.settled()),
                ..old(self)@
            }),
            final(self)@.accounts.dom() == old(self)@.accounts.dom(),
    {
        let n: usize = self.accounts.len();
        let mut i: usize = 0;
        proof {
            self.accounts.lemma_wf();
        }
        let ghost keys = self.accounts.key_seq();
        let ghost m0 = self@;
        while i < n
            invariant
                self.wf(),
                n == keys.len(),
                i <= n,
                keys == self.accounts.key_seq(),
                m0 == old(self)@,
                self@ == (MarketView { accounts: self@.accounts, ..m0 }),
                self@.accounts.dom() == m0.accounts.dom(),
                forall|j: int| 0 <= j < i ==> #[trigger] self@.accounts[keys[j]] == m0.accounts[keys[j]].settled(),
                forall|j: int| i <= j < n ==> #[trigger] self@.accounts[keys[j]] == m0.accounts[keys[j]],
            decreases n - i,
        {
            proof {
                self.accounts.lemma_wf();
                self.accounts.lemma_index_of(i as int);
            }
            let ghost prev = self@;
            let placeholder = Account::new(String::new(), 0, AccountType::Stock);
            let mut acc = self.accounts.swap_value(i, placeholder);
            assert(acc@ == prev.accounts[keys[i as int]]);
            acc.daily_settle();
            let ghost av = acc@;
            self.accounts.swap_value(i, acc);
            proof {
                assert(self@.accounts =~= prev.accounts.insert(keys[i as int], av));
                assert forall|j: int| 0 <= j < n && j != i implies self@.accounts[#[trigger] keys[j]] == prev.accounts[keys[j]] by {
                    assert(keys[j] != keys[i as int]);
                }
                assert forall|k: Seq<char>| #[trigger] self.accounts.map().contains_key(k) implies {
                    &&& self.accounts.map()[k].wf()
                    &&& self.accounts.map()[k]@.account_cookie == k
                } by {
                    if k != keys[i as int] {
                        assert(prev.accounts.contains_key(k));
                    }
                }
            }
            i = i + 1;
        }
        proof {
            self.accounts.lemma_wf();
            assert forall|k: Seq<char>| #[trigger] m0.accounts.contains_key(k) implies self@.accounts[k] == m0.accounts[k].settled() by {
                let j = choose|j: int| 0 <= j < keys.len() && #[trigger] keys[j] == k;
            }
            assert(self@.accounts =~= m0.accounts.map_values(|a: AccountView| a.settled()));
            assert(self@.accounts.dom() =~= m0.accounts.dom());
        }
    }
}

} // verus!
