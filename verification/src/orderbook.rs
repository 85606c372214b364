//! Limit order book with price-time priority.
//!
//! Each side is a sequence of resting orders kept in priority order: asks
//! by ascending price, bids by descending price, and first-come first
//! within one price. A taker consumes the opposite side from its front
//! while prices cross; what is left of a limit order rests on its own
//! side. A price of zero or less marks a market order, which never rests.

use vstd::prelude::*;
use crate::enums::Direction;
use crate::types::{Price, Volume};
use crate::text::{dec, push_dec, push_str_chars, string_from_chars};

verus! {

/// An order resting in (or entering) the book.
#[derive(Debug)]
pub struct BookOrder {
    pub order_id: String,
    pub direction: Direction,
    pub price: Price,
    pub volume: Volume,
    pub timestamp: u64,
}

/// The mathematical value of a `BookOrder`.
pub struct BookOrderView {
    pub order_id: Seq<char>,
    pub direction: Direction,
    pub price: i64,
    pub volume: i64,
    pub timestamp: u64,
}

impl View for BookOrder {
    type V = BookOrderView;

    open spec fn view(&self) -> BookOrderView {
        BookOrderView {
            order_id: self.order_id@,
            direction: self.direction,
            price: self.price,
            volume: self.volume,
            timestamp: self.timestamp,
        }
    }
}

impl Clone for BookOrder {
    fn clone(&self) -> (r: Self)
        ensures
            r@ == self@,
    {
        BookOrder {
            order_id: self.order_id.clone(),
            direction: self.direction,
            price: self.price,
            volume: self.volume,
            timestamp: self.timestamp,
        }
    }
}

/// A trade produced by matching.
#[derive(Debug)]
pub struct TradeResult {
    pub trade_id: String,
    pub bid_order_id: String,
    pub ask_order_id: String,
    pub price: Price,
    pub volume: Volume,
}

pub struct TradeView {
    pub trade_id: Seq<char>,
    pub bid_order_id: Seq<char>,
    pub ask_order_id: Seq<char>,
    pub price: i64,
    pub volume: i64,
}

impl View for TradeResult {
    type V = TradeView;

    open spec fn view(&self) -> TradeView {
        TradeView {
            trade_id: self.trade_id@,
            bid_order_id: self.bid_order_id@,
            ask_order_id: self.ask_order_id@,
            price: self.price,
            volume: self.volume,
        }
    }
}

impl Clone for TradeResult {
    fn clone(&self) -> (r: Self)
        ensures
            r@ == self@,
    {
        TradeResult {
            trade_id: self.trade_id.clone(),
            bid_order_id: self.bid_order_id.clone(),
            ask_order_id: self.ask_order_id.clone(),
            price: self.price,
            volume: self.volume,
        }
    }
}

/// One execution against a resting order: the maker as it was before
/// the execution and the executed quantity.
pub struct FillView {
    pub maker: BookOrderView,
    pub qty: i64,
}

/// Views of a sequence of book orders.
pub open spec fn views(s: Seq<BookOrder>) -> Seq<BookOrderView> {
    s.map_values(|o: BookOrder| o@)
}

pub open spec fn trade_views(s: Seq<TradeResult>) -> Seq<TradeView> {
    s.map_values(|t: TradeResult| t@)
}

/// A resting order `maker` can trade with `taker`: always for a market
/// taker, otherwise when the maker's price is within the taker's limit.
pub open spec fn crosses(maker: BookOrderView, taker: BookOrderView) -> bool {
    ||| taker.price <= 0
    ||| (taker.direction is Buy && maker.price <= taker.price)
    ||| (taker.direction is Sell && maker.price >= taker.price)
}

/// Matching `qty` of `taker` against the queue `q` from its front: the
/// fills, the queue that remains, and the quantity left unfilled.
pub open spec fn match_queue(q: Seq<BookOrderView>, taker: BookOrderView, qty: int) -> (
    Seq<FillView>,
    Seq<BookOrderView>,
    int,
)
    decreases q.len(),
{
    if qty <= 0 || q.len() == 0 || !crosses(q[0], taker) {
        (Seq::empty(), q, qty)
    } else if q[0].volume <= qty {
        let r = match_queue(q.drop_first(), taker, qty - q[0].volume);
        (seq![FillView { maker: q[0], qty: q[0].volume }] + r.0, r.1, r.2)
    } else {
        (
            seq![FillView { maker: q[0], qty: qty as i64 }],
            q.update(0, BookOrderView { volume: (q[0].volume - qty) as i64, ..q[0] }),
            0,
        )
    }
}

/// Total executed quantity of a list of fills.
pub open spec fn fills_total(f: Seq<FillView>) -> int
    decreases f.len(),
{
    if f.len() == 0 {
        0
    } else {
        fills_total(f.drop_last()) + f.last().qty
    }
}

/// The index after removing the makers that a list of fills used up.
pub open spec fn remove_consumed(
    m: Map<Seq<char>, (Direction, i64)>,
    f: Seq<FillView>,
) -> Map<Seq<char>, (Direction, i64)>
    decreases f.len(),
{
    if f.len() == 0 {
        m
    } else {
        let m1 = remove_consumed(m, f.drop_last());
        if f.last().qty == f.last().maker.volume {
            m1.remove(f.last().maker.order_id)
        } else {
            m1
        }
    }
}

/// A counter advanced `n` times with wrap-around.
pub open spec fn counter_add(c: u64, n: int) -> u64 {
    ((c as int + n) % 0x1_0000_0000_0000_0000) as u64
}

/// The identifier of the `n`-th trade on an instrument.
pub open spec fn trade_id_text(instrument: Seq<char>, n: u64) -> Seq<char> {
    "TRD_"@ + instrument + "_"@ + dec(n as nat)
}

/// The trade that one fill makes.
pub open spec fn trade_of(
    instrument: Seq<char>,
    n: u64,
    taker: BookOrderView,
    f: FillView,
) -> TradeView {
    TradeView {
        trade_id: trade_id_text(instrument, n),
        bid_order_id: if taker.direction is Buy { taker.order_id } else { f.maker.order_id },
        ask_order_id: if taker.direction is Buy { f.maker.order_id } else { taker.order_id },
        price: f.maker.price,
        volume: f.qty,
    }
}

/// The trades of a list of fills, numbered after `trade_seq`.
pub open spec fn trades_of(
    instrument: Seq<char>,
    trade_seq: u64,
    taker: BookOrderView,
    f: Seq<FillView>,
) -> Seq<TradeView> {
    Seq::new(f.len(), |k: int| trade_of(instrument, counter_add(trade_seq, k + 1), taker, f[k]))
}

/// `a` ranks at least as well as price `p` on a side (bids: higher is
/// better, asks: lower is better).
pub open spec fn ranks_no_worse(a: BookOrderView, p: i64, is_bid: bool) -> bool {
    if is_bid { a.price >= p } else { a.price <= p }
}

/// Where a new order at price `p` joins a side: after every order that
/// ranks at least as well.
pub open spec fn insert_index(s: Seq<BookOrderView>, p: i64, is_bid: bool) -> int
    decreases s.len(),
{
    if s.len() == 0 || !ranks_no_worse(s[0], p, is_bid) {
        0
    } else {
        1 + insert_index(s.drop_first(), p, is_bid)
    }
}

/// A side is in priority order and holds live orders of its direction.
pub open spec fn side_ok(s: Seq<BookOrderView>, is_bid: bool) -> bool {
    &&& forall|i: int, j: int|
        0 <= i < j < s.len() ==> (if is_bid { s[i].price >= s[j].price } else {
            s[i].price <= s[j].price
        })
    &&& forall|i: int|
        0 <= i < s.len() ==> {
            &&& (#[trigger] s[i]).volume > 0
            &&& s[i].price > 0
            &&& (if is_bid { s[i].direction is Buy } else { s[i].direction is Sell })
        }
}

/// The orders of a side that a cancellation of `id` at price `p` keeps.
pub open spec fn without_order(s: Seq<BookOrderView>, id: Seq<char>, p: i64) -> Seq<BookOrderView>
    decreases s.len(),
{
    if s.len() == 0 {
        s
    } else {
        let r = without_order(s.drop_last(), id, p);
        if s.last().order_id == id && s.last().price == p {
            r
        } else {
            r.push(s.last())
        }
    }
}

/// The price levels of a side, best first: each price with the summed
/// volume of its orders.
pub open spec fn levels(s: Seq<BookOrderView>) -> Seq<(i64, int)>
    decreases s.len(),
{
    if s.len() == 0 {
        Seq::empty()
    } else {
        let d = levels(s.drop_last());
        if d.len() > 0 && d.last().0 == s.last().price {
            d.update(d.len() - 1, (d.last().0, d.last().1 + s.last().volume))
        } else {
            d.push((s.last().price, s.last().volume as int))
        }
    }
}

/// The mathematical state of an order book.
pub struct BookState {
    pub instrument_id: Seq<char>,
    pub bids: Seq<BookOrderView>,
    pub asks: Seq<BookOrderView>,
    pub index: Map<Seq<char>, (Direction, i64)>,
    pub seq: u64,
    pub trade_seq: u64,
}

impl BookState {
    /// Sides in priority order and not crossed.
    pub open spec fn wf(self) -> bool {
        &&& side_ok(self.bids, true)
        &&& side_ok(self.asks, false)
        &&& (self.bids.len() > 0 && self.asks.len() > 0 ==> self.bids[0].price
            < self.asks[0].price)
    }
}

struct IndexEntry {
    order_id: String,
    direction: Direction,
    price: Price,
}

/// Where each resting order id was last placed: its side and price.
struct OrderIndex {
    entries: Vec<IndexEntry>,
    map: Ghost<Map<Seq<char>, (Direction, i64)>>,
}

impl View for OrderIndex {
    type V = Map<Seq<char>, (Direction, i64)>;

    closed spec fn view(&self) -> Map<Seq<char>, (Direction, i64)> {
        self.map@
    }
}

impl OrderIndex {
    closed spec fn wf(&self) -> bool {
        &&& forall|i: int, j: int|
            0 <= i < j < self.entries@.len() ==> self.entries@[i].order_id@
                != self.entries@[j].order_id@
        &&& forall|i: int|
            0 <= i < self.entries@.len() ==> {
                &&& self.map@.contains_key((#[trigger] self.entries@[i]).order_id@)
                &&& self.map@[self.entries@[i].order_id@] == (
                    self.entries@[i].direction,
                    self.entries@[i].price,
                )
            }
        &&& forall|k: Seq<char>|
            #[trigger] self.map@.contains_key(k) ==> exists|i: int|
                0 <= i < self.entries@.len() && (#[trigger] self.entries@[i]).order_id@ == k
    }

    fn new() -> (r: OrderIndex)
        ensures
            r.wf(),
            r@ == Map::<Seq<char>, (Direction, i64)>::empty(),
    {
        OrderIndex { entries: Vec::new(), map: Ghost(Map::empty()) }
    }

    fn find(&self, id: &String) -> (r: Option<usize>)
        requires
            self.wf(),
        ensures
            match r {
                Some(i) => i < self.entries@.len() && self.entries@[i as int].order_id@ == id@,
                None => !self@.contains_key(id@),
            },
    {
        let mut i: usize = 0;
        while i < self.entries.len()
            invariant
                self.wf(),
                i <= self.entries@.len(),
                forall|j: int| 0 <= j < i ==> (#[trigger] self.entries@[j]).order_id@ != id@,
            decreases self.entries@.len() - i,
        {
            if self.entries[i].order_id == *id {
                return Some(i);
            }
            i = i + 1;
        }
        None
    }

    fn insert(&mut self, id: String, direction: Direction, price: Price)
        requires
            old(self).wf(),
        ensures
            final(self).wf(),
            final(self)@ == old(self)@.insert(id@, (direction, price)),
    {
        let ghost k = id@;
        let ghost pos: int;
        match self.find(&id) {
            Some(i) => {
                self.entries.set(i, IndexEntry { order_id: id, direction, price });
                proof { pos = i as int; }
            },
            None => {
                self.entries.push(IndexEntry { order_id: id, direction, price });
                proof { pos = self.entries@.len() - 1; }
            },
        }
        self.map = Ghost(self.map@.insert(k, (direction, price)));
        proof {
            assert forall|k2: Seq<char>| #[trigger] self.map@.contains_key(k2) implies exists|i: int|
                0 <= i < self.entries@.len() && (#[trigger] self.entries@[i]).order_id@ == k2 by {
                if k2 != k {
                    assert(old(self).map@.contains_key(k2));
                    let i = choose|i: int|
                        0 <= i < old(self).entries@.len() && (#[trigger] old(
                            self,
                        ).entries@[i]).order_id@ == k2;
                    assert(self.entries@[i] == old(self).entries@[i]);
                } else {
                    assert(self.entries@[pos].order_id@ == k);
                }
            }
        }
    }

    /// Removes `id`, returning the side and price it had.
    fn take(&mut self, id: &String) -> (r: Option<(Direction, Price)>)
        requires
            old(self).wf(),
        ensures
            final(self).wf(),
            final(self)@ == old(self)@.remove(id@),
            old(self)@.contains_key(id@) ==> r == Some(old(self)@[id@]),
            !old(self)@.contains_key(id@) ==> r is None,
    {
        match self.find(id) {
            Some(i) => {
                let e = self.entries.remove(i);
                let ghost old_map = self.map@;
                self.map = Ghost(self.map@.remove(id@));
                proof {
                    let oe = old(self).entries@;
                    assert forall|j: int| 0 <= j < self.entries@.len() implies {
                        &&& self.map@.contains_key((#[trigger] self.entries@[j]).order_id@)
                        &&& self.map@[self.entries@[j].order_id@] == (
                            self.entries@[j].direction,
                            self.entries@[j].price,
                        )
                    } by {
                        if j < i {
                            assert(self.entries@[j] == oe[j]);
                        } else {
                            assert(self.entries@[j] == oe[j + 1]);
                        }
                    }
                    assert forall|k2: Seq<char>| #[trigger] self.map@.contains_key(k2) implies exists|j: int|
                        0 <= j < self.entries@.len() && (#[trigger] self.entries@[j]).order_id@
                            == k2 by {
                        let jj = choose|jj: int|
                            0 <= jj < oe.len() && (#[trigger] oe[jj]).order_id@ == k2;
                        if jj < i {
                            assert(self.entries@[jj] == oe[jj]);
                        } else {
                            assert(jj != i);
                            assert(self.entries@[jj - 1] == oe[jj]);
                        }
                    }
                    assert forall|a: int, b: int|
                        0 <= a < b < self.entries@.len() implies self.entries@[a].order_id@
                        != self.entries@[b].order_id@ by {
                        let aa = if a < i { a } else { a + 1 };
                        let bb = if b < i { b } else { b + 1 };
                        assert(self.entries@[a] == oe[aa]);
                        assert(self.entries@[b] == oe[bb]);
                    }
                }
                Some((e.direction, e.price))
            },
            None => {
                proof {
                    assert(self.map@.remove(id@) =~= self.map@);
                }
                None
            },
        }
    }

    fn remove(&mut self, id: &String)
        requires
            old(self).wf(),
        ensures
            final(self).wf(),
            final(self)@ == old(self)@.remove(id@),
    {
        let _ = self.take(id);
    }
}

/// Order book of one instrument.
pub struct Orderbook {
    pub instrument_id: String,
    bids: Vec<BookOrder>,
    asks: Vec<BookOrder>,
    index: OrderIndex,
    seq: u64,
    trade_seq: u64,
}

impl View for Orderbook {
    type V = BookState;

    closed spec fn view(&self) -> BookState {
        BookState {
            instrument_id: self.instrument_id@,
            bids: views(self.bids@),
            asks: views(self.asks@),
            index: self.index@,
            seq: self.seq,
            trade_seq: self.trade_seq,
        }
    }
}

} // verus!

verus! {

/// Fills are executions against the front of the queue, in order, each
/// within the taker's limit; all but the last use the maker up.
pub proof fn lemma_match_fills(q: Seq<BookOrderView>, t: BookOrderView, qty: int)
    requires
        forall|i: int| 0 <= i < q.len() ==> (#[trigger] q[i]).volume > 0,
    ensures
        ({
            let m = match_queue(q, t, qty);
            &&& m.0.len() <= q.len()
            &&& forall|k: int| 0 <= k < m.0.len() ==> (#[trigger] m.0[k]).maker == q[k]
            &&& forall|k: int| 0 <= k < m.0.len() ==> crosses(#[trigger] m.0[k].maker, t)
            &&& forall|k: int|
                0 <= k < m.0.len() ==> 0 < (#[trigger] m.0[k]).qty <= m.0[k].maker.volume
            &&& forall|k: int|
                0 <= k < m.0.len() - 1 ==> (#[trigger] m.0[k]).qty == m.0[k].maker.volume
            &&& fills_total(m.0) + m.2 == qty
        }),
    decreases q.len(),
{
    let m = match_queue(q, t, qty);
    if qty <= 0 || q.len() == 0 || !crosses(q[0], t) {
    } else if q[0].volume <= qty {
        let r = match_queue(q.drop_first(), t, qty - q[0].volume);
        assert forall|i: int| 0 <= i < q.drop_first().len() implies (#[trigger] q.drop_first()[i]).volume > 0 by {
            assert(q.drop_first()[i] == q[i + 1]);
        }
        lemma_match_fills(q.drop_first(), t, qty - q[0].volume);
        let f = FillView { maker: q[0], qty: q[0].volume };
        assert forall|k: int| 0 <= k < m.0.len() implies (#[trigger] m.0[k]).maker == q[k] by {
            if k > 0 {
                assert(m.0[k] == r.0[k - 1]);
            }
        }
        assert forall|k: int| 0 <= k < m.0.len() implies crosses(#[trigger] m.0[k].maker, t) by {
            if k > 0 {
                assert(m.0[k] == r.0[k - 1]);
            }
        }
        assert forall|k: int| 0 <= k < m.0.len() implies 0 < (#[trigger] m.0[k]).qty
            <= m.0[k].maker.volume by {
            if k > 0 {
                assert(m.0[k] == r.0[k - 1]);
            }
        }
        assert forall|k: int| 0 <= k < m.0.len() - 1 implies (#[trigger] m.0[k]).qty
            == m.0[k].maker.volume by {
            if k > 0 {
                assert(m.0[k] == r.0[k - 1]);
            }
        }
        lemma_fills_total_prepend(f, r.0);
        assert(m.0 == seq![f] + r.0);
    } else {
        let f = FillView { maker: q[0], qty: qty as i64 };
        assert(m.0 =~= seq![f]);
        assert(seq![f].drop_last() =~= Seq::<FillView>::empty());
        assert(f.qty == qty);
        assert(fills_total(m.0) == fills_total(Seq::<FillView>::empty()) + f.qty);
    }
}

pub proof fn lemma_fills_total_prepend(f: FillView, r: Seq<FillView>)
    ensures
        fills_total(seq![f] + r) == f.qty + fills_total(r),
    decreases r.len(),
{
    if r.len() == 0 {
        assert(seq![f] + r =~= seq![f]);
        assert(seq![f].drop_last() =~= Seq::<FillView>::empty());
        assert(fills_total(seq![f]) == fills_total(Seq::<FillView>::empty()) + f.qty);
    } else {
        lemma_fills_total_prepend(f, r.drop_last());
        let a = seq![f] + r;
        assert(a.drop_last() =~= seq![f] + r.drop_last());
        assert(a.last() == r.last());
        assert(fills_total(a) == fills_total(a.drop_last()) + a.last().qty);
    }
}

/// What is left of a side after matching is still in priority order, its
/// front is no better than before, and a leftover quantity means the
/// front no longer crosses.
pub proof fn lemma_match_rest(q: Seq<BookOrderView>, t: BookOrderView, qty: int, is_bid: bool)
    requires
        side_ok(q, is_bid),
    ensures
        ({
            let m = match_queue(q, t, qty);
            &&& side_ok(m.1, is_bid)
            &&& m.1.len() <= q.len()
            &&& (m.1.len() > 0 ==> (if is_bid { m.1[0].price <= q[0].price } else {
                m.1[0].price >= q[0].price
            }))
            &&& (qty > 0 && m.2 > 0 ==> m.1.len() == 0 || !crosses(m.1[0], t))
            &&& (qty >= 0 ==> m.2 >= 0)
            &&& m.2 <= qty
        }),
    decreases q.len(),
{
    let m = match_queue(q, t, qty);
    if qty <= 0 || q.len() == 0 || !crosses(q[0], t) {
    } else if q[0].volume <= qty {
        let d = q.drop_first();
        assert(side_ok(d, is_bid)) by {
            assert forall|i: int| 0 <= i < d.len() implies {
                &&& (#[trigger] d[i]).volume > 0
                &&& d[i].price > 0
                &&& (if is_bid { d[i].direction is Buy } else { d[i].direction is Sell })
            } by {
                assert(d[i] == q[i + 1]);
            }
            assert forall|i: int, j: int| 0 <= i < j < d.len() implies (if is_bid {
                d[i].price >= d[j].price
            } else {
                d[i].price <= d[j].price
            }) by {
                assert(d[i] == q[i + 1]);
                assert(d[j] == q[j + 1]);
            }
        }
        lemma_match_rest(d, t, qty - q[0].volume, is_bid);
        if m.1.len() > 0 {
            assert(d[0] == q[1]);
        }
    } else {
        let n = BookOrderView { volume: (q[0].volume - qty) as i64, ..q[0] };
        let u = q.update(0, n);
        assert forall|i: int| 0 <= i < u.len() implies {
            &&& (#[trigger] u[i]).volume > 0
            &&& u[i].price > 0
            &&& (if is_bid { u[i].direction is Buy } else { u[i].direction is Sell })
        } by {
            if i > 0 {
                assert(u[i] == q[i]);
            }
        }
        assert forall|i: int, j: int| 0 <= i < j < u.len() implies (if is_bid {
            u[i].price >= u[j].price
        } else {
            u[i].price <= u[j].price
        }) by {
            assert(u[i].price == q[i].price);
            assert(u[j].price == q[j].price);
        }
    }
}

/// Properties of the place where an order joins a side.
pub proof fn lemma_insert_index(s: Seq<BookOrderView>, p: i64, is_bid: bool)
    ensures
        0 <= insert_index(s, p, is_bid) <= s.len(),
        forall|j: int| 0 <= j < insert_index(s, p, is_bid) ==> ranks_no_worse(#[trigger] s[j], p, is_bid),
        insert_index(s, p, is_bid) < s.len() ==> !ranks_no_worse(s[insert_index(s, p, is_bid)], p, is_bid),
    decreases s.len(),
{
    if s.len() == 0 || !ranks_no_worse(s[0], p, is_bid) {
    } else {
        lemma_insert_index(s.drop_first(), p, is_bid);
        let k = insert_index(s, p, is_bid);
        assert forall|j: int| 0 <= j < k implies ranks_no_worse(#[trigger] s[j], p, is_bid) by {
            if j > 0 {
                assert(s[j] == s.drop_first()[j - 1]);
            }
        }
        if k < s.len() {
            assert(s[k] == s.drop_first()[k - 1]);
        }
    }
}

/// A position that splits a side into "ranks no worse" and the rest is
/// the insertion index.
pub proof fn lemma_insert_index_at(s: Seq<BookOrderView>, p: i64, is_bid: bool, k: int)
    requires
        0 <= k <= s.len(),
        forall|j: int| 0 <= j < k ==> ranks_no_worse(#[trigger] s[j], p, is_bid),
        k < s.len() ==> !ranks_no_worse(s[k], p, is_bid),
    ensures
        insert_index(s, p, is_bid) == k,
    decreases s.len(),
{
    if s.len() == 0 {
    } else if k == 0 {
    } else {
        assert(ranks_no_worse(s[0], p, is_bid));
        let d = s.drop_first();
        assert forall|j: int| 0 <= j < k - 1 implies ranks_no_worse(#[trigger] d[j], p, is_bid) by {
            assert(d[j] == s[j + 1]);
        }
        if k - 1 < d.len() {
            assert(d[k - 1] == s[k]);
        }
        lemma_insert_index_at(d, p, is_bid, k - 1);
    }
}

/// Inserting a live order at its insertion index keeps a side in order.
pub proof fn lemma_insert_side_ok(s: Seq<BookOrderView>, o: BookOrderView, is_bid: bool)
    requires
        side_ok(s, is_bid),
        o.volume > 0,
        o.price > 0,
        if is_bid { o.direction is Buy } else { o.direction is Sell },
    ensures
        side_ok(s.insert(insert_index(s, o.price, is_bid), o), is_bid),
{
    let k = insert_index(s, o.price, is_bid);
    lemma_insert_index(s, o.price, is_bid);
    let u = s.insert(k, o);
    assert forall|j: int| k <= j < s.len() implies !ranks_no_worse(#[trigger] s[j], o.price, is_bid) by {
        if j > k {
            assert(if is_bid { s[k].price >= s[j].price } else { s[k].price <= s[j].price });
        }
    }
    assert forall|i: int, j: int| 0 <= i < j < u.len() implies (if is_bid {
        u[i].price >= u[j].price
    } else {
        u[i].price <= u[j].price
    }) by {
        if i < k && j < k {
            assert(u[i] == s[i] && u[j] == s[j]);
        } else if i < k && j == k {
            assert(u[i] == s[i]);
        } else if i < k {
            assert(u[i] == s[i] && u[j] == s[j - 1]);
        } else if i == k {
            assert(u[j] == s[j - 1]);
        } else {
            assert(u[i] == s[i - 1] && u[j] == s[j - 1]);
        }
    }
    assert forall|i: int| 0 <= i < u.len() implies {
        &&& (#[trigger] u[i]).volume > 0
        &&& u[i].price > 0
        &&& (if is_bid { u[i].direction is Buy } else { u[i].direction is Sell })
    } by {
        if i < k {
            assert(u[i] == s[i]);
        } else if i > k {
            assert(u[i] == s[i - 1]);
        }
    }
}

/// `x` is an order of side `s` ranking no better than its front.
pub open spec fn kept_from(x: BookOrderView, s: Seq<BookOrderView>, is_bid: bool) -> bool {
    exists|j: int|
        0 <= j < s.len() && x == #[trigger] s[j] && (j > 0 ==> (if is_bid {
            s[0].price >= s[j].price
        } else {
            s[0].price <= s[j].price
        }))
}

/// Cancelling keeps a side in order and only keeps orders it had.
pub proof fn lemma_without_order(s: Seq<BookOrderView>, id: Seq<char>, p: i64, is_bid: bool)
    requires
        side_ok(s, is_bid),
    ensures
        side_ok(without_order(s, id, p), is_bid),
        without_order(s, id, p).len() <= s.len(),
        forall|i: int|
            0 <= i < without_order(s, id, p).len() ==> kept_from(
                #[trigger] without_order(s, id, p)[i],
                s,
                is_bid,
            ),
    decreases s.len(),
{
    if s.len() == 0 {
    } else {
        let d = s.drop_last();
        assert(side_ok(d, is_bid)) by {
            assert forall|i: int| 0 <= i < d.len() implies {
                &&& (#[trigger] d[i]).volume > 0
                &&& d[i].price > 0
                &&& (if is_bid { d[i].direction is Buy } else { d[i].direction is Sell })
            } by {
                assert(d[i] == s[i]);
            }
        }
        lemma_without_order(d, id, p, is_bid);
        let r = without_order(d, id, p);
        let w = without_order(s, id, p);
        assert forall|i: int| 0 <= i < r.len() implies kept_from(#[trigger] r[i], s, is_bid) by {
            assert(kept_from(r[i], d, is_bid));
            let j = choose|j: int|
                0 <= j < d.len() && r[i] == #[trigger] d[j] && (j > 0 ==> (if is_bid {
                    d[0].price >= d[j].price
                } else {
                    d[0].price <= d[j].price
                }));
            assert(r[i] == s[j]);
        }
        if s.last().order_id == id && s.last().price == p {
        } else {
            assert forall|i: int| 0 <= i < w.len() implies kept_from(#[trigger] w[i], s, is_bid) by {
                if i < r.len() {
                    assert(w[i] == r[i]);
                } else {
                    assert(w[i] == s[s.len() - 1]);
                    if s.len() - 1 > 0 {
                        assert(if is_bid { s[0].price >= s[s.len() - 1].price } else {
                            s[0].price <= s[s.len() - 1].price
                        });
                    }
                }
            }
            assert forall|i: int| 0 <= i < w.len() implies {
                &&& (#[trigger] w[i]).volume > 0
                &&& w[i].price > 0
                &&& (if is_bid { w[i].direction is Buy } else { w[i].direction is Sell })
            } by {
                if i < r.len() {
                    assert(w[i] == r[i]);
                    assert(kept_from(r[i], d, is_bid));
                }
            }
            assert forall|i: int, j: int| 0 <= i < j < w.len() implies (if is_bid {
                w[i].price >= w[j].price
            } else {
                w[i].price <= w[j].price
            }) by {
                if j < r.len() {
                    assert(w[i] == r[i] && w[j] == r[j]);
                } else {
                    assert(w[i] == r[i]);
                    assert(kept_from(r[i], d, is_bid));
                    let jj = choose|jj: int|
                        0 <= jj < d.len() && r[i] == #[trigger] d[jj] && (jj > 0 ==> (if is_bid {
                            d[0].price >= d[jj].price
                        } else {
                            d[0].price <= d[jj].price
                        }));
                    assert(w[j] == s[s.len() - 1]);
                    assert(r[i] == s[jj]);
                }
            }
        }
    }
}

} // verus!

verus! {

/// One execution against a resting order, as matching records it.
struct FillRec {
    maker: BookOrder,
    qty: Volume,
}

impl View for FillRec {
    type V = FillView;

    closed spec fn view(&self) -> FillView {
        FillView { maker: self.maker@, qty: self.qty }
    }
}

spec fn fill_views(s: Seq<FillRec>) -> Seq<FillView> {
    s.map_values(|f: FillRec| f@)
}

fn crosses_exec(maker: &BookOrder, taker: &BookOrder) -> (r: bool)
    ensures
        r == crosses(maker@, taker@),
{
    if taker.price <= 0 {
        true
    } else {
        match taker.direction {
            Direction::Buy => maker.price <= taker.price,
            Direction::Sell => maker.price >= taker.price,
        }
    }
}

/// Matches `taker` against `queue` from its front (see `match_queue`),
/// dropping used-up makers from the index.
fn match_against(queue: &mut Vec<BookOrder>, index: &mut OrderIndex, taker: &BookOrder) -> (r: (
    Vec<FillRec>,
    Volume,
))
    requires
        old(index).wf(),
        forall|i: int| 0 <= i < old(queue)@.len() ==> (#[trigger] old(queue)@[i]).volume > 0,
    ensures
        final(index).wf(),
        ({
            let m = match_queue(views(old(queue)@), taker@, taker.volume as int);
            &&& fill_views(r.0@) == m.0
            &&& views(final(queue)@) == m.1
            &&& r.1 == m.2
            &&& final(index)@ == remove_consumed(old(index)@, m.0)
        }),
{
    let ghost q0 = views(queue@);
    let ghost m0 = match_queue(q0, taker@, taker.volume as int);
    let ghost idx0 = index@;
    let mut remaining: Volume = taker.volume;
    let mut fills: Vec<FillRec> = Vec::new();
    assert(fill_views(fills@) + m0.0 =~= m0.0);
    while remaining > 0 && queue.len() > 0 && crosses_exec(&queue[0], taker)
        invariant
            index.wf(),
            m0 == match_queue(q0, taker@, taker.volume as int),
            ({
                let m = match_queue(views(queue@), taker@, remaining as int);
                &&& fill_views(fills@) + m.0 == m0.0
                &&& m.1 == m0.1
                &&& m.2 == m0.2
            }),
            index@ == remove_consumed(idx0, fill_views(fills@)),
            forall|i: int| 0 <= i < queue@.len() ==> (#[trigger] queue@[i]).volume > 0,
        decreases queue@.len(), remaining,
    {
        let ghost qv = views(queue@);
        let ghost fv = fill_views(fills@);
        let head_vol = queue[0].volume;
        if head_vol <= remaining {
            let head = queue.remove(0);
            assert(views(queue@) =~= qv.drop_first());
            let ghost f = FillView { maker: qv[0], qty: qv[0].volume };
            index.remove(&head.order_id);
            fills.push(FillRec { maker: head, qty: head_vol });
            remaining = remaining - head_vol;
            proof {
                assert(fill_views(fills@) =~= fv.push(f));
                assert(fv.push(f).drop_last() =~= fv);
                let m = match_queue(views(queue@), taker@, remaining as int);
                assert(fv.push(f) + m.0 =~= fv + (seq![f] + m.0));
            }
        } else {
            let maker = queue[0].clone();
            let reduced = BookOrder {
                order_id: maker.order_id.clone(),
                direction: maker.direction,
                price: maker.price,
                volume: head_vol - remaining,
                timestamp: maker.timestamp,
            };
            queue.set(0, reduced);
            let ghost f = FillView { maker: qv[0], qty: remaining as i64 };
            proof {
                assert(views(queue@) =~= qv.update(
                    0,
                    BookOrderView { volume: (qv[0].volume - remaining) as i64, ..qv[0] },
                ));
            }
            fills.push(FillRec { maker, qty: remaining });
            remaining = 0;
            proof {
                assert(fill_views(fills@) =~= fv.push(f));
                assert(fv.push(f).drop_last() =~= fv);
                let m = match_queue(views(queue@), taker@, remaining as int);
                assert(m.0 =~= Seq::<FillView>::empty());
                assert(fv.push(f) + m.0 =~= fv + seq![f]);
            }
        }
    }
    proof {
        let m = match_queue(views(queue@), taker@, remaining as int);
        assert(fill_views(fills@) + m.0 =~= fill_views(fills@));
    }
    (fills, remaining)
}

fn ranks_no_worse_exec(a: &BookOrder, p: Price, is_bid: bool) -> (r: bool)
    ensures
        r == ranks_no_worse(a@, p, is_bid),
{
    if is_bid {
        a.price >= p
    } else {
        a.price <= p
    }
}

/// Places `o` on a side after every order ranking at least as well.
fn insert_sorted(side: &mut Vec<BookOrder>, o: BookOrder, is_bid: bool)
    ensures
        views(final(side)@) == views(old(side)@).insert(
            insert_index(views(old(side)@), o.price, is_bid),
            o@,
        ),
{
    let ghost s = views(side@);
    let mut i: usize = 0;
    while i < side.len() && ranks_no_worse_exec(&side[i], o.price, is_bid)
        invariant
            s == views(side@),
            i <= side@.len(),
            forall|j: int| 0 <= j < i ==> ranks_no_worse(#[trigger] s[j], o.price, is_bid),
        decreases side@.len() - i,
    {
        i = i + 1;
    }
    proof {
        lemma_insert_index_at(s, o.price, is_bid, i as int);
    }
    let ghost ov = o@;
    side.insert(i, o);
    assert(views(side@) =~= s.insert(i as int, ov));
}

/// The identifier text of a trade.
fn trade_id(instrument: &String, n: u64) -> (r: String)
    ensures
        r@ == trade_id_text(instrument@, n),
{
    let mut v: Vec<char> = Vec::new();
    push_str_chars(&mut v, "TRD_");
    push_str_chars(&mut v, instrument.as_str());
    push_str_chars(&mut v, "_");
    push_dec(&mut v, n);
    string_from_chars(v)
}

/// Turns fills into numbered trades; returns them with the new counter.
fn make_trades(instrument: &String, trade_seq: u64, taker: &BookOrder, fills: &Vec<FillRec>) -> (r: (
    Vec<TradeResult>,
    u64,
))
    ensures
        trade_views(r.0@) == trades_of(instrument@, trade_seq, taker@, fill_views(fills@)),
        r.1 == counter_add(trade_seq, fills@.len() as int),
{
    let mut out: Vec<TradeResult> = Vec::new();
    let mut n: u64 = trade_seq;
    let ghost expected = trades_of(instrument@, trade_seq, taker@, fill_views(fills@));
    let mut k: usize = 0;
    while k < fills.len()
        invariant
            k <= fills@.len(),
            n == counter_add(trade_seq, k as int),
            expected == trades_of(instrument@, trade_seq, taker@, fill_views(fills@)),
            trade_views(out@) == expected.subrange(0, k as int),
        decreases fills@.len() - k,
    {
        n = n.wrapping_add(1);
        assert(n == counter_add(trade_seq, k + 1));
        let f = &fills[k];
        let (bid, ask) = if taker.direction.is_buy() {
            (taker.order_id.clone(), f.maker.order_id.clone())
        } else {
            (f.maker.order_id.clone(), taker.order_id.clone())
        };
        let t = TradeResult {
            trade_id: trade_id(instrument, n),
            bid_order_id: bid,
            ask_order_id: ask,
            price: f.maker.price,
            volume: f.qty,
        };
        let ghost tv = t@;
        let ghost old_out = out@;
        out.push(t);
        proof {
            assert(expected.len() == fills@.len());
            assert(expected.subrange(0, k as int).len() == k);
            assert(trade_views(old_out).len() == k);
            assert(old_out.len() == k);
            assert(out@.len() == k + 1);
            assert(trade_views(out@).len() == k + 1);
            assert forall|i: int| 0 <= i < k + 1 implies trade_views(out@)[i] == expected.subrange(0, k + 1)[i] by {
                if i < k {
                    assert(out@[i] == old_out[i]);
                    assert(trade_views(old_out)[i] == expected.subrange(0, k as int)[i]);
                } else {
                    assert(out@[i]@ == tv);
                }
            }
            assert(fill_views(fills@)[k as int] == fills@[k as int]@);
            assert(tv == expected[k as int]);
            assert(trade_views(out@) =~= expected.subrange(0, k + 1));
        }
        k = k + 1;
    }
    assert(expected.subrange(0, fills@.len() as int) =~= expected);
    (out, n)
}

} // verus!

verus! {

/// The book and the trades after `o` enters book `b`.
pub open spec fn add_order_post(b: BookState, o: BookOrderView) -> (BookState, Seq<TradeView>) {
    let is_buy = o.direction is Buy;
    let opp = if is_buy { b.asks } else { b.bids };
    let own = if is_buy { b.bids } else { b.asks };
    let m = match_queue(opp, o, o.volume as int);
    let rests = o.price > 0 && m.2 > 0;
    let seq2 = if rests { counter_add(b.seq, 2) } else { counter_add(b.seq, 1) };
    let resting = BookOrderView { volume: m.2 as i64, timestamp: seq2, ..o };
    let own2 = if rests { own.insert(insert_index(own, o.price, is_buy), resting) } else { own };
    let idx1 = remove_consumed(b.index, m.0);
    let idx2 = if rests { idx1.insert(o.order_id, (o.direction, o.price)) } else { idx1 };
    (
        BookState {
            instrument_id: b.instrument_id,
            bids: if is_buy { own2 } else { m.1 },
            asks: if is_buy { m.1 } else { own2 },
            index: idx2,
            seq: seq2,
            trade_seq: counter_add(b.trade_seq, m.0.len() as int),
        },
        trades_of(b.instrument_id, b.trade_seq, o, m.0),
    )
}

/// Side `s` holds an order with `id` at price `p`.
pub open spec fn has_order(s: Seq<BookOrderView>, id: Seq<char>, p: i64) -> bool {
    exists|i: int| 0 <= i < s.len() && (#[trigger] s[i]).order_id == id && s[i].price == p
}

/// The book after cancelling `id` in book `b`, and whether an order went.
pub open spec fn cancel_post(b: BookState, id: Seq<char>) -> (BookState, bool) {
    if !b.index.contains_key(id) {
        (b, false)
    } else {
        let (d, p) = b.index[id];
        let side = if d is Buy { b.bids } else { b.asks };
        let kept = without_order(side, id, p);
        (
            BookState {
                bids: if d is Buy { kept } else { b.bids },
                asks: if d is Buy { b.asks } else { kept },
                index: b.index.remove(id),
                ..b
            },
            has_order(side, id, p),
        )
    }
}

impl Orderbook {
    /// The book is in priority order, not crossed, and its index is sound.
    pub closed spec fn wf(&self) -> bool {
        &&& self@.wf()
        &&& self.index.wf()
    }

    /// A well-formed book has a sound view, so the laws on book states
    /// apply to it.
    pub proof fn lemma_wf(&self)
        requires
            self.wf(),
        ensures
            self@.wf(),
    {
    }

    pub fn new(instrument_id: String) -> (r: Orderbook)
        ensures
            r.wf(),
            r@.instrument_id == instrument_id@,
            r@.bids.len() == 0,
            r@.asks.len() == 0,
            r@.index == Map::<Seq<char>, (Direction, i64)>::empty(),
            r@.seq == 0,
            r@.trade_seq == 0,
    {
        let r = Orderbook {
            instrument_id,
            bids: Vec::new(),
            asks: Vec::new(),
            index: OrderIndex::new(),
            seq: 0,
            trade_seq: 0,
        };
        assert(r@.bids =~= Seq::<BookOrderView>::empty());
        assert(r@.asks =~= Seq::<BookOrderView>::empty());
        r
    }

    /// Enters an order: a price of zero or less makes it a market order.
    /// Returns the trades, best prices first.
    pub fn add_order(&mut self, order: BookOrder) -> (trades: Vec<TradeResult>)
        requires
            old(self).wf(),
        ensures
            final(self).wf(),
            (final(self)@, trade_views(trades@)) == add_order_post(old(self)@, order@),
    {
        let ghost b = self@;
        let ghost o = order@;
        proof {
            lemma_side_positive(self.bids@, true);
            lemma_side_positive(self.asks@, false);
        }
        self.seq = self.seq.wrapping_add(1);
        let is_buy = order.direction.is_buy();
        let (fills, left) = if is_buy {
            match_against(&mut self.asks, &mut self.index, &order)
        } else {
            match_against(&mut self.bids, &mut self.index, &order)
        };
        let ghost opp = if is_buy { b.asks } else { b.bids };
        let ghost m = match_queue(opp, o, o.volume as int);
        proof {
            lemma_match_rest(opp, o, o.volume as int, !is_buy);
        }
        if order.price > 0 && left > 0 {
            self.seq = self.seq.wrapping_add(1);
            let resting = BookOrder {
                order_id: order.order_id.clone(),
                direction: order.direction,
                price: order.price,
                volume: left,
                timestamp: self.seq,
            };
            let ghost rv = resting@;
            self.index.insert(order.order_id.clone(), order.direction, order.price);
            if is_buy {
                insert_sorted(&mut self.bids, resting, true);
            } else {
                insert_sorted(&mut self.asks, resting, false);
            }
            proof {
                let own = if is_buy { b.bids } else { b.asks };
                lemma_insert_side_ok(own, rv, is_buy);
                lemma_insert_index(own, o.price, is_buy);
                let k = insert_index(own, o.price, is_buy);
                let own2 = own.insert(k, rv);
                if own2.len() > 0 && m.1.len() > 0 {
                    if k == 0 {
                        assert(own2[0] == rv);
                    } else {
                        assert(own2[0] == own[0]);
                    }
                }
            }
        }
        let (trades, n) = make_trades(&self.instrument_id, self.trade_seq, &order, &fills);
        self.trade_seq = n;
        trades
    }

    /// Cancels a resting order by id; true when an order was removed.
    pub fn cancel(&mut self, order_id: &str) -> (r: bool)
        requires
            old(self).wf(),
        ensures
            final(self).wf(),
            (final(self)@, r) == cancel_post(old(self)@, order_id@),
    {
        let ghost b = self@;
        let id = String::from_str(order_id);
        match self.index.take(&id) {
            None => {
                assert(self@.index =~= b.index);
                assert(self@ == b);
                false
            },
            Some((direction, price)) => {
                if direction.is_buy() {
                    let found = remove_from_side(&mut self.bids, &id, price);
                    proof {
                        assert(b.index[id@] == (direction, price));
                        assert(b.bids == views(old(self).bids@));
                        assert(found == cancel_post(b, id@).1);
                        lemma_without_order(b.bids, id@, price, true);
                        let w = without_order(b.bids, id@, price);
                        if w.len() > 0 && b.asks.len() > 0 {
                            assert(kept_from(w[0], b.bids, true));
                        }
                    }
                    found
                } else {
                    let found = remove_from_side(&mut self.asks, &id, price);
                    proof {
                        assert(b.index[id@] == (direction, price));
                        assert(found == cancel_post(b, id@).1);
                        lemma_without_order(b.asks, id@, price, false);
                        let w = without_order(b.asks, id@, price);
                        if w.len() > 0 && b.bids.len() > 0 {
                            assert(kept_from(w[0], b.asks, false));
                        }
                    }
                    found
                }
            },
        }
    }

    pub fn best_bid(&self) -> (r: Option<Price>)
        ensures
            r == (if self@.bids.len() > 0 { Some(self@.bids[0].price) } else { None::<i64> }),
    {
        if self.bids.len() > 0 {
            Some(self.bids[0].price)
        } else {
            None
        }
    }

    pub fn best_ask(&self) -> (r: Option<Price>)
        ensures
            r == (if self@.asks.len() > 0 { Some(self@.asks[0].price) } else { None::<i64> }),
    {
        if self.asks.len() > 0 {
            Some(self.asks[0].price)
        } else {
            None
        }
    }

    /// Best ask minus best bid, when both sides have orders.
    pub fn spread(&self) -> (r: Option<Price>)
        requires
            self.wf(),
        ensures
            r == (if self@.bids.len() > 0 && self@.asks.len() > 0 {
                Some((self@.asks[0].price - self@.bids[0].price) as i64)
            } else {
                None::<i64>
            }),
    {
        match (self.best_bid(), self.best_ask()) {
            (Some(b), Some(a)) => Some(a - b),
            _ => None,
        }
    }

    /// Mid price, rounded down to a micro-unit, when both sides have orders.
    pub fn mid_price(&self) -> (r: Option<Price>)
        requires
            self.wf(),
        ensures
            r == (if self@.bids.len() > 0 && self@.asks.len() > 0 {
                Some(((self@.asks[0].price + self@.bids[0].price) / 2) as i64)
            } else {
                None::<i64>
            }),
    {
        match (self.best_bid(), self.best_ask()) {
            (Some(b), Some(a)) => {
                let s: i128 = a as i128 + b as i128;
                Some((s / 2) as i64)
            },
            _ => None,
        }
    }

    /// The best `n` bid levels: price and summed volume.
    pub fn depth_bids(&self, n: usize) -> (r: Vec<(Price, i128)>)
        requires
            self.wf(),
        ensures
            level_views(r@) == levels(self@.bids).take(min_len(n, levels(self@.bids).len())),
    {
        proof {
            lemma_side_positive(self.bids@, true);
        }
        depth(&self.bids, n)
    }

    /// The best `n` ask levels: price and summed volume.
    pub fn depth_asks(&self, n: usize) -> (r: Vec<(Price, i128)>)
        requires
            self.wf(),
        ensures
            level_views(r@) == levels(self@.asks).take(min_len(n, levels(self@.asks).len())),
    {
        proof {
            lemma_side_positive(self.asks@, false);
        }
        depth(&self.asks, n)
    }
}

pub open spec fn min_len(n: usize, len: nat) -> int {
    if n < len { n as int } else { len as int }
}

pub open spec fn level_views(s: Seq<(Price, i128)>) -> Seq<(i64, int)> {
    s.map_values(|l: (Price, i128)| (l.0, l.1 as int))
}

/// Orders on a well-formed side have positive volume.
proof fn lemma_side_positive(s: Seq<BookOrder>, is_bid: bool)
    requires
        side_ok(views(s), is_bid),
    ensures
        forall|i: int| 0 <= i < s.len() ==> (#[trigger] s[i]).volume > 0,
{
    assert forall|i: int| 0 <= i < s.len() implies (#[trigger] s[i]).volume > 0 by {
        assert(views(s)[i] == s[i]@);
    }
}

/// Removes the orders with `id` at `price`; true when one was there.
fn remove_from_side(side: &mut Vec<BookOrder>, id: &String, price: Price) -> (found: bool)
    ensures
        views(final(side)@) == without_order(views(old(side)@), id@, price),
        found == has_order(views(old(side)@), id@, price),
{
    let ghost s = views(side@);
    let mut kept: Vec<BookOrder> = Vec::new();
    let mut found = false;
    let mut i: usize = 0;
    while i < side.len()
        invariant
            s == views(side@),
            i <= side@.len(),
            views(kept@) == without_order(s.take(i as int), id@, price),
            found == exists|j: int| 0 <= j < i && (#[trigger] s[j]).order_id == id@ && s[j].price == price,
        decreases side@.len() - i,
    {
        let o = &side[i];
        assert(s.take(i + 1).drop_last() =~= s.take(i as int));
        if o.order_id == *id && o.price == price {
            found = true;
        } else {
            let c = o.clone();
            kept.push(c);
            assert(views(kept@) =~= without_order(s.take(i as int), id@, price).push(s[i as int]));
        }
        i = i + 1;
    }
    assert(s.take(side@.len() as int) =~= s);
    *side = kept;
    found
}

/// Price levels of a side, truncated to `n`.
fn depth(side: &Vec<BookOrder>, n: usize) -> (r: Vec<(Price, i128)>)
    requires
        forall|i: int| 0 <= i < side@.len() ==> (#[trigger] side@[i]).volume > 0,
    ensures
        level_views(r@) == levels(views(side@)).take(min_len(n, levels(views(side@)).len())),
{
    let ghost s = views(side@);
    let mut out: Vec<(Price, i128)> = Vec::new();
    let mut i: usize = 0;
    while i < side.len()
        invariant
            s == views(side@),
            i <= side@.len(),
            forall|j: int| 0 <= j < side@.len() ==> (#[trigger] side@[j]).volume > 0,
            level_views(out@) == levels(s.take(i as int)),
            forall|j: int| 0 <= j < out@.len() ==> 0 < (#[trigger] out@[j]).1 <= i * 0x7fff_ffff_ffff_ffff,
        decreases side@.len() - i,
    {
        let p = side[i].price;
        let v = side[i].volume;
        let ghost t = s.take(i as int);
        assert(s.take(i + 1).drop_last() =~= t);
        assert(s.take(i + 1).last() == s[i as int]);
        let len = out.len();
        if len > 0 && out[len - 1].0 == p {
            let last = out[len - 1].1;
            assert(last + v <= (i + 1) * 0x7fff_ffff_ffff_ffff) by (nonlinear_arith)
                requires last <= i * 0x7fff_ffff_ffff_ffff, v <= 0x7fff_ffff_ffff_ffff;
            assert((i + 1) * 0x7fff_ffff_ffff_ffff <= 0x1_0000_0000_0000_0000 * 0x7fff_ffff_ffff_ffff) by (nonlinear_arith)
                requires i + 1 <= 0x1_0000_0000_0000_0000;
            out.set(len - 1, (p, last + v as i128));
            assert(level_views(out@) =~= levels(t).update(levels(t).len() - 1, (p, levels(t).last().1 + v)));
        } else {
            out.push((p, v as i128));
            assert(level_views(out@) =~= levels(t).push((p, v as int)));
        }
        assert forall|j: int| 0 <= j < out@.len() implies 0 < (#[trigger] out@[j]).1 <= (i + 1) * 0x7fff_ffff_ffff_ffff by {
            assert(i * 0x7fff_ffff_ffff_ffff <= (i + 1) * 0x7fff_ffff_ffff_ffff) by (nonlinear_arith);
        }
        i = i + 1;
    }
    assert(s.take(side@.len() as int) =~= s);
    let ghost full = level_views(out@);
    out.truncate(n);
    assert(level_views(out@) =~= full.take(min_len(n, full.len())));
    out
}

} // verus!

verus! {

/// Total volume of a list of trades.
pub open spec fn trades_total(ts: Seq<TradeView>) -> int
    decreases ts.len(),
{
    if ts.len() == 0 {
        0
    } else {
        trades_total(ts.drop_last()) + ts.last().volume
    }
}

proof fn lemma_trades_total(instrument: Seq<char>, n: u64, t: BookOrderView, f: Seq<FillView>)
    ensures
        trades_total(trades_of(instrument, n, t, f)) == fills_total(f),
    decreases f.len(),
{
    if f.len() > 0 {
        lemma_trades_total(instrument, n, t, f.drop_last());
        assert(trades_of(instrument, n, t, f).drop_last() =~= trades_of(
            instrument,
            n,
            t,
            f.drop_last(),
        ));
    }
}

/// Law: entering an order into a sound book leaves a sound book — both
/// sides in priority order, only live orders, and never crossed.
pub proof fn law_add_order_keeps_book_sound(b: BookState, o: BookOrderView)
    requires
        b.wf(),
    ensures
        add_order_post(b, o).0.wf(),
{
    let is_buy = o.direction is Buy;
    let opp = if is_buy { b.asks } else { b.bids };
    let own = if is_buy { b.bids } else { b.asks };
    let m = match_queue(opp, o, o.volume as int);
    lemma_match_rest(opp, o, o.volume as int, !is_buy);
    let rests = o.price > 0 && m.2 > 0;
    if rests {
        let seq2 = counter_add(b.seq, 2);
        let rv = BookOrderView { volume: m.2 as i64, timestamp: seq2, ..o };
        lemma_insert_side_ok(own, rv, is_buy);
        lemma_insert_index(own, o.price, is_buy);
        let k = insert_index(own, o.price, is_buy);
        let own2 = own.insert(k, rv);
        if own2.len() > 0 && m.1.len() > 0 {
            if k == 0 {
                assert(own2[0] == rv);
            } else {
                assert(own2[0] == own[0]);
            }
        }
    }
}

/// Law: an order's volume is split exactly between what trades and what
/// is left; the left part of a limit order rests in the book under its
/// id and price, and the trades never exceed the order's volume.
pub proof fn law_volume_conservation(b: BookState, o: BookOrderView)
    requires
        b.wf(),
        o.volume >= 0,
    ensures
        ({
            let (b2, ts) = add_order_post(b, o);
            let left = o.volume - trades_total(ts);
            &&& 0 <= left <= o.volume
            &&& (o.price > 0 && left > 0 ==> has_order(side_of(b2, o.direction), o.order_id, o.price))
            &&& (o.price > 0 && left > 0 ==> exists|k: int|
                0 <= k < side_of(b2, o.direction).len() && (#[trigger] side_of(b2, o.direction)[k]).order_id == o.order_id
                    && side_of(b2, o.direction)[k].volume == left && side_of(b2, o.direction)[k].price == o.price)
            &&& (o.price > 0 && left > 0 ==> b2.index.contains_key(o.order_id))
        }),
{
    let is_buy = o.direction is Buy;
    let opp = if is_buy { b.asks } else { b.bids };
    let own = if is_buy { b.bids } else { b.asks };
    let m = match_queue(opp, o, o.volume as int);
    lemma_side_ok_positive(opp, !is_buy);
    lemma_match_fills(opp, o, o.volume as int);
    lemma_match_rest(opp, o, o.volume as int, !is_buy);
    lemma_trades_total(b.instrument_id, b.trade_seq, o, m.0);
    let (b2, ts) = add_order_post(b, o);
    if o.price > 0 && m.2 > 0 {
        let seq2 = counter_add(b.seq, 2);
        let rv = BookOrderView { volume: m.2 as i64, timestamp: seq2, ..o };
        lemma_insert_index(own, o.price, is_buy);
        let k = insert_index(own, o.price, is_buy);
        let own2 = own.insert(k, rv);
        assert(own2[k] == rv);
        assert(side_of(b2, o.direction) == own2);
        assert(side_of(b2, o.direction)[k].order_id == o.order_id);
    }
}

/// The side that orders of direction `d` rest on.
pub open spec fn side_of(b: BookState, d: Direction) -> Seq<BookOrderView> {
    if d is Buy { b.bids } else { b.asks }
}

proof fn lemma_side_ok_positive(s: Seq<BookOrderView>, is_bid: bool)
    requires
        side_ok(s, is_bid),
    ensures
        forall|i: int| 0 <= i < s.len() ==> (#[trigger] s[i]).volume > 0,
{
}

/// Law: trades happen at the resting orders' prices, never beyond the
/// taker's limit, and best prices first.
pub proof fn law_price_priority(b: BookState, o: BookOrderView)
    requires
        b.wf(),
    ensures
        ({
            let ts = add_order_post(b, o).1;
            &&& forall|k: int|
                0 <= k < ts.len() && o.price > 0 ==> (if o.direction is Buy {
                    (#[trigger] ts[k]).price <= o.price
                } else {
                    ts[k].price >= o.price
                })
            &&& forall|k: int, l: int|
                0 <= k < l < ts.len() ==> (if o.direction is Buy {
                    ts[k].price <= ts[l].price
                } else {
                    ts[k].price >= ts[l].price
                })
        }),
{
    let is_buy = o.direction is Buy;
    let opp = if is_buy { b.asks } else { b.bids };
    let m = match_queue(opp, o, o.volume as int);
    lemma_side_ok_positive(opp, !is_buy);
    lemma_match_fills(opp, o, o.volume as int);
    let ts = add_order_post(b, o).1;
    assert forall|k: int| 0 <= k < ts.len() && o.price > 0 implies (if o.direction is Buy {
        (#[trigger] ts[k]).price <= o.price
    } else {
        ts[k].price >= o.price
    }) by {
        assert(ts[k].price == m.0[k].maker.price);
        assert(crosses(m.0[k].maker, o));
    }
    assert forall|k: int, l: int| 0 <= k < l < ts.len() implies (if o.direction is Buy {
        ts[k].price <= ts[l].price
    } else {
        ts[k].price >= ts[l].price
    }) by {
        assert(ts[k].price == m.0[k].maker.price);
        assert(ts[l].price == m.0[l].maker.price);
        assert(m.0[k].maker == opp[k]);
        assert(m.0[l].maker == opp[l]);
    }
}

/// Law: time priority. Resting orders trade in their queue order, the
/// `k`-th trade against the `k`-th order of the opposite side; and the
/// unfilled part of a limit order joins its side behind every order at
/// the same or a better price, ahead of every worse one.
pub proof fn law_time_priority(b: BookState, o: BookOrderView)
    requires
        b.wf(),
    ensures
        ({
            let (b2, ts) = add_order_post(b, o);
            let opp = side_of(b, o.direction.spec_opposite());
            let own = side_of(b, o.direction);
            &&& ts.len() <= opp.len()
            &&& forall|k: int|
                0 <= k < ts.len() ==> (if o.direction is Buy {
                    (#[trigger] ts[k]).ask_order_id == opp[k].order_id
                } else {
                    ts[k].bid_order_id == opp[k].order_id
                })
            &&& (o.price > 0 && trades_total(ts) < o.volume ==> {
                let k = insert_index(own, o.price, o.direction is Buy);
                &&& 0 <= k <= own.len()
                &&& side_of(b2, o.direction) == own.insert(
                    k,
                    BookOrderView { volume: (o.volume - trades_total(ts)) as i64, timestamp: b2.seq, ..o },
                )
                &&& forall|i: int| 0 <= i < k ==> ranks_no_worse(#[trigger] own[i], o.price, o.direction is Buy)
                &&& forall|i: int| k <= i < own.len() ==> !ranks_no_worse(#[trigger] own[i], o.price, o.direction is Buy)
            })
        }),
{
    let is_buy = o.direction is Buy;
    let opp = if is_buy { b.asks } else { b.bids };
    let own = if is_buy { b.bids } else { b.asks };
    assert(opp == side_of(b, o.direction.spec_opposite()));
    let m = match_queue(opp, o, o.volume as int);
    lemma_side_ok_positive(opp, !is_buy);
    lemma_match_fills(opp, o, o.volume as int);
    lemma_match_rest(opp, o, o.volume as int, !is_buy);
    lemma_trades_total(b.instrument_id, b.trade_seq, o, m.0);
    let (b2, ts) = add_order_post(b, o);
    assert forall|k: int| 0 <= k < ts.len() implies (if o.direction is Buy {
        (#[trigger] ts[k]).ask_order_id == opp[k].order_id
    } else {
        ts[k].bid_order_id == opp[k].order_id
    }) by {
        assert(m.0[k].maker == opp[k]);
    }
    if o.price > 0 && trades_total(ts) < o.volume {
        lemma_insert_index(own, o.price, is_buy);
        let k = insert_index(own, o.price, is_buy);
        lemma_sorted_tail_worse(own, o.price, is_buy, k);
        assert(side_of(b2, o.direction) == own.insert(
            k,
            BookOrderView { volume: (o.volume - trades_total(ts)) as i64, timestamp: b2.seq, ..o },
        ));
    }
}

/// On a side in priority order, everything from the first order that
/// ranks worse than `p` on ranks worse too.
proof fn lemma_sorted_tail_worse(s: Seq<BookOrderView>, p: i64, is_bid: bool, k: int)
    requires
        side_ok(s, is_bid),
        0 <= k <= s.len(),
        k < s.len() ==> !ranks_no_worse(s[k], p, is_bid),
    ensures
        forall|i: int| k <= i < s.len() ==> !ranks_no_worse(#[trigger] s[i], p, is_bid),
{
    assert forall|i: int| k <= i < s.len() implies !ranks_no_worse(#[trigger] s[i], p, is_bid) by {
        if i > k {
            assert(if is_bid { s[k].price >= s[i].price } else { s[k].price <= s[i].price });
        }
    }
}

/// Law: a cancelled order is gone from its side, and cancelling the same
/// id again removes nothing.
pub proof fn law_cancel_is_final(b: BookState, id: Seq<char>)
    requires
        b.wf(),
    ensures
        ({
            let (b2, removed) = cancel_post(b, id);
            &&& b2.wf()
            &&& !cancel_post(b2, id).1
            &&& cancel_post(b2, id).0 == b2
            &&& (b.index.contains_key(id) ==> {
                let (d, p) = b.index[id];
                !has_order(side_of(b2, d), id, p)
            })
        }),
{
    if b.index.contains_key(id) {
        let (d, p) = b.index[id];
        let side = if d is Buy { b.bids } else { b.asks };
        lemma_without_order(side, id, p, d is Buy);
        lemma_without_order_removes(side, id, p);
        let w = without_order(side, id, p);
        if d is Buy {
            if w.len() > 0 && b.asks.len() > 0 {
                assert(kept_from(w[0], b.bids, true));
            }
        } else {
            if w.len() > 0 && b.bids.len() > 0 {
                assert(kept_from(w[0], b.asks, false));
            }
        }
    }
}

proof fn lemma_without_order_removes(s: Seq<BookOrderView>, id: Seq<char>, p: i64)
    ensures
        !has_order(without_order(s, id, p), id, p),
    decreases s.len(),
{
    if s.len() > 0 {
        lemma_without_order_removes(s.drop_last(), id, p);
        let r = without_order(s.drop_last(), id, p);
        if !(s.last().order_id == id && s.last().price == p) {
            let w = r.push(s.last());
            if has_order(w, id, p) {
                let i = choose|i: int| 0 <= i < w.len() && (#[trigger] w[i]).order_id == id && w[i].price == p;
                if i < r.len() {
                    assert(w[i] == r[i]);
                }
            }
        }
    }
}

} // verus!

verus! {

/// Total volume resting on a side of the book.
pub open spec fn side_volume(s: Seq<BookOrderView>) -> int
    decreases s.len(),
{
    if s.len() == 0 {
        0
    } else {
        s[0].volume + side_volume(s.drop_first())
    }
}

proof fn lemma_fills_total_cons(x: FillView, r: Seq<FillView>)
    ensures
        fills_total(seq![x] + r) == x.qty + fills_total(r),
    decreases r.len(),
{
    let s = seq![x] + r;
    if r.len() == 0 {
        assert(s.drop_last() =~= Seq::<FillView>::empty());
        assert(fills_total(s) == fills_total(s.drop_last()) + s.last().qty);
    } else {
        lemma_fills_total_cons(x, r.drop_last());
        assert(s.drop_last() =~= seq![x] + r.drop_last());
        assert(s.last() == r.last());
        assert(fills_total(s) == fills_total(s.drop_last()) + s.last().qty);
    }
}

/// Matching takes from the resting side exactly the volume it fills.
proof fn lemma_match_side_volume(q: Seq<BookOrderView>, t: BookOrderView, qty: int)
    ensures
        ({
            let m = match_queue(q, t, qty);
            side_volume(m.1) == side_volume(q) - fills_total(m.0)
        }),
    decreases q.len(),
{
    if qty <= 0 || q.len() == 0 || !crosses(q[0], t) {
    } else if q[0].volume <= qty {
        let r = match_queue(q.drop_first(), t, qty - q[0].volume);
        lemma_match_side_volume(q.drop_first(), t, qty - q[0].volume);
        lemma_fills_total_cons(FillView { maker: q[0], qty: q[0].volume }, r.0);
    } else {
        let f = FillView { maker: q[0], qty: qty as i64 };
        let q2 = q.update(0, BookOrderView { volume: (q[0].volume - qty) as i64, ..q[0] });
        assert(q2.drop_first() =~= q.drop_first());
        lemma_fills_total_cons(f, Seq::empty());
        assert(seq![f] + Seq::<FillView>::empty() =~= seq![f]);
    }
}

/// Inserting an order adds its volume to the side.
proof fn lemma_insert_side_volume(s: Seq<BookOrderView>, k: int, v: BookOrderView)
    requires
        0 <= k <= s.len(),
    ensures
        side_volume(s.insert(k, v)) == side_volume(s) + v.volume,
    decreases s.len(),
{
    if k == 0 {
        assert(s.insert(0, v).drop_first() =~= s);
    } else {
        lemma_insert_side_volume(s.drop_first(), k - 1, v);
        assert(s.insert(k, v).drop_first() =~= s.drop_first().insert(k - 1, v));
    }
}

/// Law: entering an order moves volume, never makes or loses it: the side
/// it trades against loses exactly the traded volume, and its own side
/// gains exactly what of a limit order is left untraded (a market order
/// leaves nothing behind).
pub proof fn law_side_volumes(b: BookState, o: BookOrderView)
    requires
        b.wf(),
        o.volume >= 0,
    ensures
        ({
            let (b2, ts) = add_order_post(b, o);
            let other = if o.direction is Buy { Direction::Sell } else { Direction::Buy };
            let left = o.volume - trades_total(ts);
            &&& side_volume(side_of(b2, other)) == side_volume(side_of(b, other)) - trades_total(ts)
            &&& side_volume(side_of(b2, o.direction)) == side_volume(side_of(b, o.direction)) + (if o.price > 0 {
                left
            } else {
                0
            })
        }),
{
    let is_buy = o.direction is Buy;
    let opp = if is_buy { b.asks } else { b.bids };
    let own = if is_buy { b.bids } else { b.asks };
    let m = match_queue(opp, o, o.volume as int);
    lemma_side_ok_positive(opp, !is_buy);
    lemma_match_fills(opp, o, o.volume as int);
    lemma_match_rest(opp, o, o.volume as int, !is_buy);
    lemma_trades_total(b.instrument_id, b.trade_seq, o, m.0);
    lemma_match_side_volume(opp, o, o.volume as int);
    if o.price > 0 && m.2 > 0 {
        let seq2 = counter_add(b.seq, 2);
        let rv = BookOrderView { volume: m.2 as i64, timestamp: seq2, ..o };
        lemma_insert_index(own, o.price, is_buy);
        lemma_insert_side_volume(own, insert_index(own, o.price, is_buy), rv);
    }
}

} // verus!

verus! {

/// A resting order of direction `d` on side `s` carries `id`.
pub open spec fn rests_with_id(s: Seq<BookOrderView>, id: Seq<char>, d: Direction) -> bool {
    exists|i: int| 0 <= i < s.len() && (#[trigger] s[i]).order_id == id && s[i].direction == d
}

/// Law: every trade names the incoming order on its own side and a resting
/// order of the other direction on the other: an incoming buy is the bid of
/// each of its trades, each ask being a sell that rested in the book; an
/// incoming sell is the ask of each of its trades, each bid being a buy that
/// rested in the book.
pub proof fn law_trade_parties(b: BookState, o: BookOrderView)
    requires
        b.wf(),
    ensures
        ({
            let ts = add_order_post(b, o).1;
            forall|k: int|
                0 <= k < ts.len() ==> if o.direction is Buy {
                    &&& (#[trigger] ts[k]).bid_order_id == o.order_id
                    &&& rests_with_id(b.asks, ts[k].ask_order_id, Direction::Sell)
                } else {
                    &&& ts[k].ask_order_id == o.order_id
                    &&& rests_with_id(b.bids, ts[k].bid_order_id, Direction::Buy)
                }
        }),
{
    let is_buy = o.direction is Buy;
    let opp = if is_buy { b.asks } else { b.bids };
    let m = match_queue(opp, o, o.volume as int);
    lemma_side_ok_positive(opp, !is_buy);
    lemma_match_fills(opp, o, o.volume as int);
    let ts = add_order_post(b, o).1;
    assert forall|k: int| 0 <= k < ts.len() implies if o.direction is Buy {
        &&& (#[trigger] ts[k]).bid_order_id == o.order_id
        &&& rests_with_id(b.asks, ts[k].ask_order_id, Direction::Sell)
    } else {
        &&& ts[k].ask_order_id == o.order_id
        &&& rests_with_id(b.bids, ts[k].bid_order_id, Direction::Buy)
    } by {
        assert(m.0[k].maker == opp[k]);
        assert(ts[k] == trade_of(b.instrument_id, counter_add(b.trade_seq, k + 1), o, m.0[k]));
        assert(opp[k].direction == (if is_buy { Direction::Sell } else { Direction::Buy }));
    }
}

} // verus!
