//! The matching engine: one order book per symbol, order and trade ids, and
//! price-time priority matching of incoming orders against resting ones.

use crate::order::{Order, OrderStatus, OrderType, Side, TimeInForce};
use crate::orderbook::levels::{
    fits, lemma_prices_remove, lemma_prices_update, level_prices, levels_ok, prices_sorted, side_fits,
};
use crate::orderbook::price_level::{all_fill_ok, PriceLevel};
use crate::orderbook::{added, OrderBook};
use std::collections::HashMap;
use vstd::prelude::*;

verus! {

broadcast use vstd::std_specs::hash::group_hash_axioms;

#[derive(Debug, Clone)]
pub struct Trade {
    pub id: u64,
    pub buy_order_id: u64,
    pub sell_order_id: u64,
    pub price: u64,
    pub quantity: u32,
    pub timestamp: i64,
}

#[derive(Debug, PartialEq, Eq)]
pub enum MatchingError {
    SymbolNotFound,
    NoLiquidity,
    FOKCannotBeFilled,
    InternalError(String),
}

impl MatchingError {
    /// An internal error carrying the given message.
    pub fn from_message(error: &str) -> (r: MatchingError)
        ensures
            r matches MatchingError::InternalError(m) && m@ == error@,
    {
        MatchingError::InternalError(error.to_owned())
    }
}

pub struct TradeExecutionResult {
    pub trades: Vec<Trade>,
    pub remaining_order: Option<Order>,
    pub filled_orders: Vec<Order>,
    pub rejected: bool,
}

impl TradeExecutionResult {
    pub fn new() -> (r: Self)
        ensures
            r.trades@ == Seq::<Trade>::empty(),
            r.remaining_order.is_none(),
            r.filled_orders@ == Seq::<Order>::empty(),
            !r.rejected,
    {
        TradeExecutionResult {
            trades: Vec::new(),
            remaining_order: None,
            filled_orders: Vec::new(),
            rejected: false,
        }
    }
}

/// Some book of `books` holds `id` among its orders expired at `t`.
pub open spec fn expired_in_some_book(books: Seq<OrderBook>, t: i64, id: u64) -> bool {
    exists|i: int| 0 <= i < books.len() && (#[trigger] books[i]).expired_ids(t).contains(id)
}

/// Every order of `v` is marked expired and was expired at `t` in some book
/// of `books`.
pub open spec fn all_expired(books: Seq<OrderBook>, t: i64, v: Seq<Order>) -> bool {
    forall|k: int|
        0 <= k < v.len() ==> (#[trigger] v[k]).status == OrderStatus::Expired
            && expired_in_some_book(books, t, v[k].id)
}

/// `v` and `after` are what expiring the books `before` at time `t` gives:
/// every order of `v` is marked expired and was expired at `t` in some
/// book; every order expired at `t` that rests in a book is gone from that
/// book's map and is in `v`; every other order of a book's map stays there
/// as it was.
pub open spec fn expired_at_time(before: Seq<OrderBook>, after: Seq<OrderBook>, t: i64, v: Seq<Order>) -> bool {
    &&& after.len() == before.len()
    &&& all_expired(before, t, v)
    &&& forall|b: int, id: u64|
        0 <= b < before.len() && #[trigger] before[b].expired_ids(t).contains(id)
            && before[b].resting(id) ==> !after[b].order_map@.contains_key(id) && exists|k: int|
            0 <= k < v.len() && (#[trigger] v[k]).id == id
    &&& forall|b: int, id: u64|
        0 <= b < before.len() && #[trigger] before[b].order_map@.contains_key(id)
            && !before[b].expired_ids(t).contains(id) ==> after[b].order_map@.contains_key(id)
            && after[b].order_map@[id] == before[b].order_map@[id]
}

/// Every order of the result has no more filled than ordered.
pub open spec fn result_orders_ok(r: TradeExecutionResult) -> bool {
    &&& r.remaining_order matches Some(o) ==> o.fill_ok()
    &&& forall|i: int| 0 <= i < r.filled_orders@.len() ==> (#[trigger] r.filled_orders@[i]).fill_ok()
}

/// The sum of the quantities of a run of trades.
pub open spec fn traded_quantity(trades: Seq<Trade>) -> int
    decreases trades.len(),
{
    if trades.len() == 0 {
        0
    } else {
        traded_quantity(trades.drop_last()) + trades.last().quantity
    }
}

/// The trades of a run each move a positive quantity, carry consecutive ids
/// from `first_id`, name `incoming` on its own side, and take place at a
/// price that a limit order's price allows.
pub open spec fn trades_fit(trades: Seq<Trade>, first_id: int, incoming: Order) -> bool {
    forall|k: int|
        0 <= k < trades.len() ==> {
            let t = #[trigger] trades[k];
            &&& t.quantity > 0
            &&& t.id == first_id + k
            &&& if incoming.side == Side::Buy {
                t.buy_order_id == incoming.id
            } else {
                t.sell_order_id == incoming.id
            }
            &&& incoming.order_type == OrderType::Limit ==> if incoming.side == Side::Buy {
                t.price <= incoming.price
            } else {
                t.price >= incoming.price
            }
        }
}

/// The prices at which orders rest on the side opposite to `side`.
pub open spec fn opposite_prices(book: OrderBook, side: Side) -> Set<u64> {
    level_prices(book.side_levels(side.spec_opposite()))
}

/// Every trade of the run takes place at one of the prices `prices`.
pub open spec fn priced_within(trades: Seq<Trade>, prices: Set<u64>) -> bool {
    forall|k: int| 0 <= k < trades.len() ==> prices.contains(#[trigger] trades[k].price)
}

/// The trades of a run come best price first: ascending prices for a buy,
/// descending for a sell.
pub open spec fn best_first(trades: Seq<Trade>, side: Side) -> bool {
    forall|a: int, b: int|
        0 <= a < b < trades.len() ==> if side == Side::Buy {
            (#[trigger] trades[a]).price <= (#[trigger] trades[b]).price
        } else {
            trades[a].price >= trades[b].price
        }
}

/// No trade of the run is at a worse price for the other side than the
/// levels still resting there: no buy above an ask left, no sell below a
/// bid left.
pub open spec fn ahead_of(trades: Seq<Trade>, levels: Seq<PriceLevel>, side: Side) -> bool {
    forall|k: int, m: int|
        0 <= k < trades.len() && 0 <= m < levels.len() ==> if side == Side::Buy {
            (#[trigger] trades[k]).price <= (#[trigger] levels[m]).price
        } else {
            trades[k].price >= levels[m].price
        }
}

/// The resting order a trade names, for an incoming order on `side`.
pub open spec fn counterpart(t: Trade, side: Side) -> u64 {
    if side == Side::Buy {
        t.sell_order_id
    } else {
        t.buy_order_id
    }
}

/// The incoming order meets the book's best opposite level at once: it is
/// open, the other side has a best price its limit (if any) allows, and the
/// first order there shows something.
pub open spec fn meets_best_at_once(book: OrderBook, incoming: Order) -> bool {
    &&& !incoming.filled()
    &&& book.best_opposite(incoming.side) is Some
    &&& (incoming.order_type == OrderType::Limit ==> price_allows(
        incoming,
        book.best_opposite(incoming.side).unwrap(),
    ))
    &&& book.best_opposite_level(incoming.side).orders@[0].visible() > 0
}

/// `pos` places each trade of the run at the position, in `orders`, of the
/// resting order it names, positions rising from trade to trade.
pub open spec fn queue_positions(pos: Seq<int>, trades: Seq<Trade>, orders: Seq<Order>, side: Side) -> bool {
    &&& pos.len() == trades.len()
    &&& forall|a: int, b: int| 0 <= a < b < pos.len() ==> #[trigger] pos[a] < #[trigger] pos[b]
    &&& forall|k: int|
        0 <= k < pos.len() ==> 0 <= #[trigger] pos[k] < orders.len() && counterpart(trades[k], side)
            == orders[pos[k]].id
}

/// The trades of the run meet resting orders of `orders` in queue order:
/// each a different order, every later trade one further back.
pub open spec fn in_queue_order(trades: Seq<Trade>, orders: Seq<Order>, side: Side) -> bool {
    exists|pos: Seq<int>| #[trigger] queue_positions(pos, trades, orders, side)
}

/// Some opening run of the trades, of at least one trade, meets orders of
/// `orders` in queue order.
pub open spec fn opens_in_queue_order(trades: Seq<Trade>, orders: Seq<Order>, side: Side) -> bool {
    exists|n: int| 0 < n <= trades.len() && #[trigger] in_queue_order(trades.take(n), orders, side)
}

/// The smaller of two numbers.
pub open spec fn smaller(a: int, b: int) -> int {
    if a <= b {
        a
    } else {
        b
    }
}

/// Some entry of `pos` is `p`.
pub open spec fn traded_at(pos: Seq<int>, p: int) -> bool {
    exists|k: int| 0 <= k < pos.len() && pos[k] == p
}

/// Some entry of `orig` is `p`.
pub open spec fn kept_at(orig: Seq<int>, p: int) -> bool {
    exists|j: int| 0 <= j < orig.len() && orig[j] == p
}

/// How far a pass has gone: the old position of the order at `i`, or the
/// end of the level.
pub open spec fn pass_bound(orig: Seq<int>, i: int, n: int) -> int {
    if 0 <= i < orig.len() {
        orig[i]
    } else {
        n
    }
}

/// The shape of a pass of an incoming order, with `open` quantity open at
/// its start, over the orders `old` of a level, up to the old position
/// `bound`: the trades meet orders in queue order (`pos` gives the position
/// of each), each moving the smaller of what the incoming order still has
/// open and what the resting order shows; every order before `bound` that
/// shows something trades. The orders left (`orig` gives the old position
/// of each) are the old ones in their order, each that traded having that
/// fill and not being filled; an order that is no longer there traded and
/// was filled by it.
#[verifier::opaque]
pub open spec fn pass_shape(
    old: Seq<Order>,
    new: Seq<Order>,
    trades: Seq<Trade>,
    side: Side,
    open: int,
    pos: Seq<int>,
    orig: Seq<int>,
    bound: int,
) -> bool {
    &&& queue_positions(pos, trades, old, side)
    &&& 0 <= bound <= old.len()
    &&& forall|k: int| 0 <= k < pos.len() ==> #[trigger] pos[k] < bound
    &&& forall|k: int|
        0 <= k < trades.len() ==> (#[trigger] trades[k]).quantity == smaller(
            open - traded_quantity(trades.take(k)),
            old[pos[k]].visible(),
        )
    &&& forall|p: int| 0 <= p < bound && #[trigger] old[p].visible() > 0 ==> traded_at(pos, p)
    &&& orig.len() == new.len()
    &&& forall|a: int, b: int| 0 <= a < b < orig.len() ==> #[trigger] orig[a] < #[trigger] orig[b]
    &&& forall|j: int| 0 <= j < orig.len() ==> 0 <= #[trigger] orig[j] < old.len()
    &&& forall|j: int|
        0 <= j < orig.len() && !traded_at(pos, #[trigger] orig[j]) ==> new[j] == old[orig[j]]
    &&& forall|j: int, k: int|
        0 <= j < orig.len() && 0 <= k < pos.len() && #[trigger] orig[j] == #[trigger] pos[k] ==> new[j]
            == after_fill(old[pos[k]], trades[k].quantity) && !new[j].filled()
    &&& forall|p: int|
        0 <= p < old.len() && !#[trigger] kept_at(orig, p) ==> exists|k: int|
            0 <= k < pos.len() && pos[k] == p && after_fill(old[p], trades[k].quantity).filled()
}

/// A pass over the orders `old` of a level, by an incoming order on `side`
/// with `open` quantity open, that made the trades `trades` and left the
/// orders `new`; `done` says the incoming order was not filled, so that the
/// pass went over the whole level.
#[verifier::opaque]
pub open spec fn level_pass(
    old: Seq<Order>,
    new: Seq<Order>,
    trades: Seq<Trade>,
    side: Side,
    open: int,
    done: bool,
) -> bool {
    exists|pos: Seq<int>, orig: Seq<int>, bound: int|
        #[trigger] pass_shape(old, new, trades, side, open, pos, orig, bound) && (done ==> bound
            == old.len())
}

/// At the start of a pass nothing has traded and every order is there.
proof fn lemma_pass_start(old: Seq<Order>, side: Side, open: int)
    ensures
        pass_shape(
            old,
            old,
            Seq::empty(),
            side,
            open,
            Seq::empty(),
            Seq::new(old.len(), |j: int| j),
            pass_bound(Seq::new(old.len(), |j: int| j), 0, old.len() as int),
        ),
{
    reveal(pass_shape);
    let orig = Seq::new(old.len(), |j: int| j);
    assert forall|p: int| 0 <= p < old.len() implies #[trigger] kept_at(orig, p) by {
        assert(orig[p] == p);
    }
}

/// The order at `i` of a pass that has come to it has not traded yet.
proof fn lemma_pass_front(
    old: Seq<Order>,
    new: Seq<Order>,
    trades: Seq<Trade>,
    side: Side,
    open: int,
    pos: Seq<int>,
    orig: Seq<int>,
    i: int,
)
    requires
        pass_shape(old, new, trades, side, open, pos, orig, pass_bound(orig, i, old.len() as int)),
        0 <= i < orig.len(),
    ensures
        new[i] == old[orig[i]],
        !traded_at(pos, orig[i]),
        0 <= orig[i] < old.len(),
{
    reveal(pass_shape);
    if traded_at(pos, orig[i]) {
        let k = choose|k: int| 0 <= k < pos.len() && pos[k] == orig[i];
        assert(pos[k] < orig[i]);
    }
}

/// After a pass the positions in between two kept orders, or after the
/// last, are ones that traded.
proof fn lemma_gap_traded(
    old: Seq<Order>,
    new: Seq<Order>,
    trades: Seq<Trade>,
    side: Side,
    open: int,
    pos: Seq<int>,
    orig: Seq<int>,
    bound: int,
    i: int,
    p: int,
)
    requires
        pass_shape(old, new, trades, side, open, pos, orig, bound),
        0 <= i < orig.len(),
        orig[i] < p < pass_bound(orig, i + 1, old.len() as int),
    ensures
        traded_at(pos, p),
{
    reveal(pass_shape);
    if kept_at(orig, p) {
        let j = choose|j: int| 0 <= j < orig.len() && orig[j] == p;
        if j <= i {
            if j < i {
                assert(orig[j] < orig[i]);
            }
        } else if j > i + 1 {
            assert(orig[i + 1] < orig[j]);
        }
    }
}

/// The pass's trades with one more: the prefixes before it keep their
/// sums.
proof fn lemma_trades_push_take(pt: Seq<Trade>, t: Trade, k: int)
    requires
        0 <= k <= pt.len(),
    ensures
        pt.push(t).take(k) == pt.take(k),
        pt.push(t).take(pt.len() as int) == pt,
{
    assert(pt.push(t).take(k) =~= pt.take(k));
    assert(pt.push(t).take(pt.len() as int) =~= pt);
}

/// A pass that moves past an order showing nothing keeps its shape.
proof fn lemma_pass_skip(
    old: Seq<Order>,
    new: Seq<Order>,
    trades: Seq<Trade>,
    side: Side,
    open: int,
    pos: Seq<int>,
    orig: Seq<int>,
    i: int,
)
    requires
        pass_shape(old, new, trades, side, open, pos, orig, pass_bound(orig, i, old.len() as int)),
        0 <= i < orig.len(),
        old[orig[i]].visible() == 0,
    ensures
        pass_shape(old, new, trades, side, open, pos, orig, pass_bound(orig, i + 1, old.len() as int)),
{
    reveal(pass_shape);
    let n = old.len() as int;
    let b1 = pass_bound(orig, i + 1, n);
    if i + 1 < orig.len() {
        assert(orig[i] < orig[i + 1]);
    }
    assert forall|p: int| 0 <= p < b1 && #[trigger] old[p].visible() > 0 implies traded_at(pos, p) by {
        if p > orig[i] {
            lemma_gap_traded(old, new, trades, side, open, pos, orig, pass_bound(orig, i, n), i, p);
        }
    }
}

/// A trade with the order at `i` that leaves it open keeps the shape of
/// the pass, the order replaced by its filled self.
#[verifier::rlimit(50)]
proof fn lemma_pass_partial(
    old: Seq<Order>,
    new: Seq<Order>,
    pt: Seq<Trade>,
    t: Trade,
    side: Side,
    open: int,
    pos: Seq<int>,
    orig: Seq<int>,
    i: int,
)
    requires
        pass_shape(old, new, pt, side, open, pos, orig, pass_bound(orig, i, old.len() as int)),
        0 <= i < orig.len(),
        t.quantity == smaller(open - traded_quantity(pt), old[orig[i]].visible()),
        counterpart(t, side) == old[orig[i]].id,
        !after_fill(old[orig[i]], t.quantity).filled(),
    ensures
        pass_shape(
            old,
            new.update(i, after_fill(old[orig[i]], t.quantity)),
            pt.push(t),
            side,
            open,
            pos.push(orig[i]),
            orig,
            pass_bound(orig, i + 1, old.len() as int),
        ),
{
    reveal(pass_shape);
    let n = old.len() as int;
    let c = orig[i];
    let nt = pt.push(t);
    let np = pos.push(c);
    let nn = new.update(i, after_fill(old[c], t.quantity));
    let b0 = pass_bound(orig, i, n);
    let b1 = pass_bound(orig, i + 1, n);
    lemma_pass_front(old, new, pt, side, open, pos, orig, i);
    if i + 1 < orig.len() {
        assert(orig[i] < orig[i + 1]);
    }
    assert forall|p: int| traded_at(pos, p) implies traded_at(np, p) by {
        let k = choose|k: int| 0 <= k < pos.len() && pos[k] == p;
        assert(np[k] == p);
    }
    assert(traded_at(np, c)) by {
        assert(np[pos.len() as int] == c);
    }
    assert forall|p: int| traded_at(np, p) && p != c implies traded_at(pos, p) by {
        let k = choose|k: int| 0 <= k < np.len() && np[k] == p;
        assert(k < pos.len());
        assert(pos[k] == p);
    }
    // the trades in queue order
    assert forall|a: int, b: int| 0 <= a < b < np.len() implies #[trigger] np[a] < #[trigger] np[b] by {
        if b < pos.len() {
            assert(pos[a] < pos[b]);
        } else {
            assert(pos[a] < b0);
        }
    }
    assert forall|k: int| 0 <= k < np.len() implies 0 <= #[trigger] np[k] < old.len() && counterpart(
        nt[k],
        side,
    ) == old[np[k]].id by {
        if k < pos.len() {
            assert(nt[k] == pt[k]);
        }
    }
    assert(queue_positions(np, nt, old, side));
    assert forall|k: int| 0 <= k < np.len() implies #[trigger] np[k] < b1 by {
        if k < pos.len() {
            assert(pos[k] < b0);
        }
    }
    assert forall|k: int| 0 <= k < nt.len() implies (#[trigger] nt[k]).quantity == smaller(
        open - traded_quantity(nt.take(k)),
        old[np[k]].visible(),
    ) by {
        lemma_trades_push_take(pt, t, if k < pt.len() { k } else { pt.len() as int });
        if k < pt.len() {
            assert(nt[k] == pt[k]);
            assert(np[k] == pos[k]);
        }
    }
    assert forall|p: int| 0 <= p < b1 && #[trigger] old[p].visible() > 0 implies traded_at(np, p) by {
        if p > c {
            lemma_gap_traded(old, new, pt, side, open, pos, orig, b0, i, p);
        }
    }
    assert forall|j: int| 0 <= j < orig.len() && !traded_at(np, #[trigger] orig[j]) implies nn[j]
        == old[orig[j]] by {
        assert(j != i);
    }
    assert forall|j: int, k: int|
        0 <= j < orig.len() && 0 <= k < np.len() && #[trigger] orig[j] == #[trigger] np[k] implies nn[j]
        == after_fill(old[np[k]], nt[k].quantity) && !nn[j].filled() by {
        if k < pos.len() {
            assert(np[k] == pos[k]);
            assert(nt[k] == pt[k]);
            assert(pos[k] < b0);
            if j == i {
                assert(false);
            }
        } else {
            if j != i {
                if j < i {
                    assert(orig[j] < orig[i]);
                } else {
                    assert(orig[i] < orig[j]);
                }
            }
        }
    }
    assert forall|p: int| 0 <= p < old.len() && !#[trigger] kept_at(orig, p) implies exists|k: int|
        0 <= k < np.len() && np[k] == p && after_fill(old[p], nt[k].quantity).filled() by {
        let k = choose|k: int|
            0 <= k < pos.len() && pos[k] == p && after_fill(old[p], pt[k].quantity).filled();
        assert(np[k] == p && nt[k] == pt[k]);
    }
}

/// A trade that fills the order at `i` keeps the shape of the pass, the
/// order taken out.
#[verifier::rlimit(50)]
proof fn lemma_pass_filled(
    old: Seq<Order>,
    new: Seq<Order>,
    pt: Seq<Trade>,
    t: Trade,
    side: Side,
    open: int,
    pos: Seq<int>,
    orig: Seq<int>,
    i: int,
)
    requires
        pass_shape(old, new, pt, side, open, pos, orig, pass_bound(orig, i, old.len() as int)),
        0 <= i < orig.len(),
        t.quantity == smaller(open - traded_quantity(pt), old[orig[i]].visible()),
        counterpart(t, side) == old[orig[i]].id,
        after_fill(old[orig[i]], t.quantity).filled(),
    ensures
        pass_shape(
            old,
            new.remove(i),
            pt.push(t),
            side,
            open,
            pos.push(orig[i]),
            orig.remove(i),
            pass_bound(orig.remove(i), i, old.len() as int),
        ),
        pass_bound(orig.remove(i), i, old.len() as int) == pass_bound(orig, i + 1, old.len() as int),
{
    reveal(pass_shape);
    let n = old.len() as int;
    let c = orig[i];
    let nt = pt.push(t);
    let np = pos.push(c);
    let nn = new.remove(i);
    let no = orig.remove(i);
    let b0 = pass_bound(orig, i, n);
    let b1 = pass_bound(orig, i + 1, n);
    lemma_pass_front(old, new, pt, side, open, pos, orig, i);
    if i + 1 < orig.len() {
        assert(orig[i] < orig[i + 1]);
        assert(no[i] == orig[i + 1]);
    }
    assert(pass_bound(no, i, n) == b1);
    assert forall|p: int| traded_at(pos, p) implies traded_at(np, p) by {
        let k = choose|k: int| 0 <= k < pos.len() && pos[k] == p;
        assert(np[k] == p);
    }
    assert(traded_at(np, c)) by {
        assert(np[pos.len() as int] == c);
    }
    assert forall|p: int| traded_at(np, p) && p != c implies traded_at(pos, p) by {
        let k = choose|k: int| 0 <= k < np.len() && np[k] == p;
        assert(k < pos.len());
        assert(pos[k] == p);
    }
    assert forall|a: int, b: int| 0 <= a < b < np.len() implies #[trigger] np[a] < #[trigger] np[b] by {
        if b < pos.len() {
            assert(pos[a] < pos[b]);
        } else {
            assert(pos[a] < b0);
        }
    }
    assert forall|k: int| 0 <= k < np.len() implies 0 <= #[trigger] np[k] < old.len() && counterpart(
        nt[k],
        side,
    ) == old[np[k]].id by {
        if k < pos.len() {
            assert(nt[k] == pt[k]);
        }
    }
    assert(queue_positions(np, nt, old, side));
    assert forall|k: int| 0 <= k < np.len() implies #[trigger] np[k] < b1 by {
        if k < pos.len() {
            assert(pos[k] < b0);
        }
    }
    assert forall|k: int| 0 <= k < nt.len() implies (#[trigger] nt[k]).quantity == smaller(
        open - traded_quantity(nt.take(k)),
        old[np[k]].visible(),
    ) by {
        lemma_trades_push_take(pt, t, if k < pt.len() { k } else { pt.len() as int });
        if k < pt.len() {
            assert(nt[k] == pt[k]);
            assert(np[k] == pos[k]);
        }
    }
    assert forall|p: int| 0 <= p < b1 && #[trigger] old[p].visible() > 0 implies traded_at(np, p) by {
        if p > c {
            lemma_gap_traded(old, new, pt, side, open, pos, orig, b0, i, p);
        }
    }
    assert forall|a: int, b: int| 0 <= a < b < no.len() implies #[trigger] no[a] < #[trigger] no[b] by {
        let aa = if a < i { a } else { a + 1 };
        let bb = if b < i { b } else { b + 1 };
        assert(no[a] == orig[aa] && no[b] == orig[bb]);
        assert(orig[aa] < orig[bb]);
    }
    assert forall|j: int| 0 <= j < no.len() implies 0 <= #[trigger] no[j] < old.len() && no[j] != c by {
        let jj = if j < i { j } else { j + 1 };
        assert(no[j] == orig[jj]);
        if jj < i {
            assert(orig[jj] < orig[i]);
        } else {
            assert(orig[i] < orig[jj]);
        }
    }
    assert forall|j: int| 0 <= j < no.len() && !traded_at(np, #[trigger] no[j]) implies nn[j]
        == old[no[j]] by {
        let jj = if j < i { j } else { j + 1 };
        assert(no[j] == orig[jj] && nn[j] == new[jj]);
    }
    assert forall|j: int, k: int|
        0 <= j < no.len() && 0 <= k < np.len() && #[trigger] no[j] == #[trigger] np[k] implies nn[j]
        == after_fill(old[np[k]], nt[k].quantity) && !nn[j].filled() by {
        let jj = if j < i { j } else { j + 1 };
        assert(no[j] == orig[jj] && nn[j] == new[jj]);
        assert(k < pos.len());
        assert(np[k] == pos[k] && nt[k] == pt[k]);
        assert(orig[jj] == pos[k]);
    }
    assert forall|p: int| 0 <= p < old.len() && !#[trigger] kept_at(no, p) implies exists|k: int|
        0 <= k < np.len() && np[k] == p && after_fill(old[p], nt[k].quantity).filled() by {
        if p == c {
            assert(np[pos.len() as int] == c && nt[pos.len() as int] == t);
        } else {
            if kept_at(orig, p) {
                let j = choose|j: int| 0 <= j < orig.len() && orig[j] == p;
                assert(j != i);
                let jn = if j < i { j } else { j - 1 };
                assert(no[jn] == p);
            }
            let k = choose|k: int|
                0 <= k < pos.len() && pos[k] == p && after_fill(old[p], pt[k].quantity).filled();
            assert(np[k] == p && nt[k] == pt[k]);
        }
    }
}

/// The order map `m` with the state after its fill recorded for each order
/// that a trade of the pass met: the `k`-th trade met the order at position
/// `pos[k]` of `orders`.
pub open spec fn with_fills(
    m: Map<u64, Order>,
    orders: Seq<Order>,
    pos: Seq<int>,
    trades: Seq<Trade>,
) -> Map<u64, Order>
    decreases trades.len(),
{
    if trades.len() == 0 {
        m
    } else {
        let k = trades.len() - 1;
        with_fills(m, orders, pos.take(k), trades.take(k)).insert(
            orders[pos[k]].id,
            after_fill(orders[pos[k]], trades[k].quantity),
        )
    }
}

/// Some opening run of the trades, of at least one trade, is a pass (see
/// `level_pass`) of an incoming order with `open` quantity open over the
/// orders `orders`.
pub open spec fn opens_with_pass(trades: Seq<Trade>, orders: Seq<Order>, side: Side, open: int) -> bool {
    exists|n: int, after: Seq<Order>, done: bool|
        0 < n <= trades.len() && #[trigger] level_pass(orders, after, trades.take(n), side, open, done)
}

/// The incoming order still has something open after the trades `run`,
/// having had `open` open before them.
pub open spec fn still_open(run: Seq<Trade>, open: int) -> bool {
    traded_quantity(run) < open
}

/// Two sides hold levels at the same prices with the same orders.
pub open spec fn same_orders(a: Seq<PriceLevel>, b: Seq<PriceLevel>) -> bool {
    &&& a.len() == b.len()
    &&& forall|j: int|
        0 <= j < a.len() ==> (#[trigger] a[j]).price == b[j].price && a[j].orders@ == b[j].orders@
}

/// Two sides of the same length whose levels hold the same total volumes,
/// and the same shown volumes but at position `i`.
pub open spec fn volumes_kept(a: Seq<PriceLevel>, b: Seq<PriceLevel>, i: int) -> bool {
    &&& a.len() == b.len()
    &&& forall|j: int|
        0 <= j < a.len() ==> (#[trigger] a[j]).total_volume == b[j].total_volume && (j != i
            ==> a[j].visible_volume == b[j].visible_volume)
}

/// The position of the best level on the side opposite to `side`: the
/// lowest ask for a buyer, the highest bid for a seller.
pub open spec fn best_index(book: OrderBook, side: Side) -> int {
    match side {
        Side::Buy => 0,
        Side::Sell => book.buy_levels@.len() - 1,
    }
}

/// `after` is `before` after one pass of the order `incoming`, with `open`
/// quantity open, over the best opposite level (one its limit, if it is a
/// limit order, allows), making the trades `run`: the level keeps the orders that the pass leaves (see
/// `level_pass`), or goes when it leaves none; the other levels keep their
/// prices, orders and volumes, the level passed over keeps its total volume
/// (only its shown volume may be replenished), each order met is recorded
/// in the order map as it is after its fill, and the levels on the order's
/// own side and the stop book stay as they were.
#[verifier::opaque]
pub open spec fn pass_step(before: OrderBook, after: OrderBook, run: Seq<Trade>, incoming: Order, open: int) -> bool {
    let side = incoming.side;
    let lv = before.side_levels(side.spec_opposite());
    let nv = after.side_levels(side.spec_opposite());
    let i = best_index(before, side);
    &&& 0 <= i < lv.len()
    &&& incoming.order_type == OrderType::Limit ==> price_allows(incoming, lv[i].price)
    &&& after.side_levels(side) == before.side_levels(side)
    &&& after.stop_order_book == before.stop_order_book
    &&& nv.len() < lv.len() ==> volumes_kept(nv, lv.remove(i), -1)
    &&& nv.len() >= lv.len() ==> volumes_kept(nv, lv, i)
    &&& exists|pos: Seq<int>|
        queue_positions(pos, run, lv[i].orders@, side) && after.order_map@ == #[trigger] with_fills(
            before.order_map@,
            lv[i].orders@,
            pos,
            run,
        )
    &&& exists|left: Seq<Order>|
        #[trigger] level_pass(lv[i].orders@, left, run, side, open, still_open(run, open))
            && if left.len() == 0 {
            same_orders(nv, lv.remove(i))
        } else {
            &&& nv.len() == lv.len()
            &&& nv[i].price == lv[i].price
            &&& nv[i].orders@ == left
            &&& forall|j: int|
                0 <= j < lv.len() && j != i ==> (#[trigger] nv[j]).price == lv[j].price
                    && nv[j].orders@ == lv[j].orders@
        }
}

/// `books` runs from `before`, each book what a pass (see `pass_step`) with
/// the next run of `runs` leaves of the one before, the incoming order
/// having open what the runs before left it of `open`; the runs together
/// are `trades`.
#[verifier::opaque]
pub open spec fn passes_through(
    books: Seq<OrderBook>,
    runs: Seq<Seq<Trade>>,
    before: OrderBook,
    trades: Seq<Trade>,
    incoming: Order,
) -> bool {
    &&& books.len() == runs.len() + 1
    &&& books[0] == before
    &&& runs.flatten_alt() == trades
    &&& forall|k: int|
        0 <= k < runs.len() ==> #[trigger] pass_step(
            books[k],
            books[k + 1],
            runs[k],
            incoming,
            incoming.remaining() - traded_quantity(runs.take(k).flatten_alt()),
        )
}

/// Why matching stopped at `book`, the incoming order having traded
/// `traded`: it is filled, the other side is empty, its limit does not
/// reach the best opposite price, or no order at that price shows anything.
pub open spec fn matching_stopped(book: OrderBook, incoming: Order, traded: int) -> bool {
    ||| traded >= incoming.remaining()
    ||| book.best_opposite(incoming.side).is_none()
    ||| (incoming.order_type == OrderType::Limit && !price_allows(
        incoming,
        book.best_opposite(incoming.side).unwrap(),
    ))
    ||| forall|k: int|
        0 <= k < book.best_opposite_level(incoming.side).orders@.len() ==> (
        #[trigger] book.best_opposite_level(incoming.side).orders@[k]).visible() == 0
}

/// The order as it is matched when placed against `book`: a stop order that
/// is not immediate fires as a limit or market order; a market order takes
/// the best opposite price.
pub open spec fn matched_as(o: Order, book: OrderBook) -> Order {
    if o.stop_order() && o.time_in_force != TimeInForce::IOC && o.time_in_force
        != TimeInForce::FOK {
        as_matched(o, o.id)
    } else {
        priced(o, book)
    }
}

/// `after` is what matching the order `incoming` against `before` leaves,
/// the trades being `trades`: a run of passes over the best opposite level
/// (see `passes_through`) until the order is filled, the other side is
/// empty, its limit stops it or nothing there shows (see
/// `matching_stopped`), and then, when the result holds any trade
/// (`all_trades`, ending with these), the price of the last one recorded as
/// the last trade price.
#[verifier::opaque]
pub open spec fn matched(
    before: OrderBook,
    after: OrderBook,
    trades: Seq<Trade>,
    all_trades: Seq<Trade>,
    incoming: Order,
) -> bool {
    exists|books: Seq<OrderBook>, runs: Seq<Seq<Trade>>|
        #[trigger] passes_through(books, runs, before, trades, incoming)
            && matching_stopped(books.last(), incoming, traded_quantity(trades))
            && if all_trades.len() > 0 {
            crate::orderbook::last_trade_recorded(books.last(), after, all_trades.last().price)
        } else {
            after == books.last()
        }
}

/// Matching starts with no pass made.
proof fn lemma_passes_start(b: OrderBook, incoming: Order)
    ensures
        passes_through(seq![b], Seq::empty(), b, Seq::empty(), incoming),
{
    reveal(passes_through);
    assert(Seq::<Seq<Trade>>::empty().flatten_alt() =~= Seq::<Trade>::empty());
}

/// One more pass extends the run of passes.
proof fn lemma_passes_push(
    books: Seq<OrderBook>,
    runs: Seq<Seq<Trade>>,
    before: OrderBook,
    trades: Seq<Trade>,
    incoming: Order,
    next: OrderBook,
    run: Seq<Trade>,
)
    requires
        passes_through(books, runs, before, trades, incoming),
        pass_step(books.last(), next, run, incoming, incoming.remaining() - traded_quantity(trades)),
    ensures
        passes_through(books.push(next), runs.push(run), before, trades + run, incoming),
{
    reveal(passes_through);
    let nr = runs.push(run);
    let nb = books.push(next);
    assert(nr.drop_last() =~= runs);
    assert(nr.flatten_alt() =~= trades + run);
    assert forall|k: int| 0 <= k < nr.len() implies #[trigger] pass_step(
        nb[k],
        nb[k + 1],
        nr[k],
        incoming,
        incoming.remaining() - traded_quantity(nr.take(k).flatten_alt()),
    ) by {
        if k < runs.len() {
            assert(nr.take(k) =~= runs.take(k));
            assert(nb[k] == books[k] && nb[k + 1] == books[k + 1] && nr[k] == runs[k]);
        } else {
            assert(nr.take(k) =~= runs);
            assert(nb[k] == books.last());
        }
    }
}

/// A pass over the best opposite level, with the level put back (or
/// dropped) and shown volumes changed afterwards, is a step of matching.
proof fn lemma_pass_step(
    before: OrderBook,
    mid: OrderBook,
    after: OrderBook,
    run: Seq<Trade>,
    incoming: Order,
    side: Side,
    open: int,
    left: Seq<Order>,
)
    requires
        side == incoming.side,
        incoming.order_type == OrderType::Limit ==> price_allows(
            incoming,
            before.side_levels(side.spec_opposite())[best_index(before, side)].price,
        ),
        0 <= best_index(before, side) < before.side_levels(side.spec_opposite()).len(),
        level_pass(
            before.side_levels(side.spec_opposite())[best_index(before, side)].orders@,
            left,
            run,
            side,
            open,
            still_open(run, open),
        ),
        mid.side_levels(side) == before.side_levels(side),
        left.len() == 0 ==> mid.side_levels(side.spec_opposite()) == before.side_levels(
            side.spec_opposite(),
        ).remove(best_index(before, side)),
        left.len() > 0 ==> {
            let lv = before.side_levels(side.spec_opposite());
            let mv = mid.side_levels(side.spec_opposite());
            let i = best_index(before, side);
            &&& mv.len() == lv.len()
            &&& mv[i].price == lv[i].price
            &&& mv[i].orders@ == left
            &&& mv[i].total_volume == lv[i].total_volume
            &&& forall|j: int| 0 <= j < lv.len() && j != i ==> mv[j] == lv[j]
        },
        same_orders(after.side_levels(side.spec_opposite()), mid.side_levels(side.spec_opposite())),
        left.len() == 0 ==> volumes_kept(
            after.side_levels(side.spec_opposite()),
            mid.side_levels(side.spec_opposite()),
            -1,
        ),
        left.len() > 0 ==> volumes_kept(
            after.side_levels(side.spec_opposite()),
            mid.side_levels(side.spec_opposite()),
            best_index(before, side),
        ),
        after.side_levels(side) == mid.side_levels(side),
        after.stop_order_book == before.stop_order_book,
        exists|pos: Seq<int>|
            queue_positions(
                pos,
                run,
                before.side_levels(side.spec_opposite())[best_index(before, side)].orders@,
                side,
            ) && after.order_map@ == #[trigger] with_fills(
                before.order_map@,
                before.side_levels(side.spec_opposite())[best_index(before, side)].orders@,
                pos,
                run,
            ),
    ensures
        pass_step(before, after, run, incoming, open),
{
    reveal(pass_step);
    let lv = before.side_levels(side.spec_opposite());
    let mv = mid.side_levels(side.spec_opposite());
    let nv = after.side_levels(side.spec_opposite());
    let i = best_index(before, side);
    if left.len() == 0 {
        assert(same_orders(nv, lv.remove(i)));
    } else {
        assert forall|j: int| 0 <= j < lv.len() && j != i implies (#[trigger] nv[j]).price
            == lv[j].price && nv[j].orders@ == lv[j].orders@ by {
            assert(mv[j] == lv[j]);
        }
    }
}

/// A strictly rising run of positions below `n` that takes every position
/// below `n` is `0, 1, ..., n - 1`.
proof fn lemma_cover_prefix(pos: Seq<int>, n: int, k: int)
    requires
        forall|a: int, b: int| 0 <= a < b < pos.len() ==> #[trigger] pos[a] < #[trigger] pos[b],
        forall|j: int| 0 <= j < pos.len() ==> 0 <= #[trigger] pos[j] < n,
        forall|p: int| 0 <= p < n ==> traded_at(pos, p),
        0 <= k < n,
    ensures
        k < pos.len(),
        pos[k] == k,
    decreases k,
{
    if k > 0 {
        lemma_cover_prefix(pos, n, k - 1);
    }
    assert(traded_at(pos, k));
    let k2 = choose|k2: int| 0 <= k2 < pos.len() && pos[k2] == k;
    if k2 < k {
        lemma_cover_prefix(pos, n, k2);
    }
    if k2 > k {
        assert(pos[k] < pos[k2]);
        if k > 0 {
            assert(pos[k - 1] < pos[k]);
        }
    }
}

/// The quantities of a run of trades add up to no less than nothing.
proof fn lemma_traded_nonneg(trades: Seq<Trade>)
    ensures
        traded_quantity(trades) >= 0,
    decreases trades.len(),
{
    if trades.len() > 0 {
        lemma_traded_nonneg(trades.drop_last());
    }
}

/// A run of trades each moving no more than the incoming order still had
/// open moves no more than it had open at the start.
proof fn lemma_pass_within_open(trades: Seq<Trade>, open: int, k: int)
    requires
        0 <= open,
        0 <= k <= trades.len(),
        forall|j: int|
            0 <= j < trades.len() ==> (#[trigger] trades[j]).quantity <= open - traded_quantity(
                trades.take(j),
            ),
    ensures
        traded_quantity(trades.take(k)) <= open,
    decreases k,
{
    if k > 0 {
        lemma_pass_within_open(trades, open, k - 1);
        assert(trades.take(k).drop_last() =~= trades.take(k - 1));
    } else {
        assert(trades.take(0) =~= Seq::<Trade>::empty());
    }
}

/// When every trade of a pass took the whole of a resting order, one after
/// the other, the pass traded the open quantity of those orders.
proof fn lemma_pass_sum(trades: Seq<Trade>, old: Seq<Order>, k: int)
    requires
        0 <= k <= trades.len(),
        trades.len() <= old.len(),
        forall|j: int| 0 <= j < trades.len() ==> (#[trigger] trades[j]).quantity == old[j].remaining(),
    ensures
        traded_quantity(trades.take(k)) == open_quantity(old.take(k)),
    decreases k,
{
    if k > 0 {
        lemma_pass_sum(trades, old, k - 1);
        assert(trades.take(k).drop_last() =~= trades.take(k - 1));
        assert(old.take(k).drop_last() =~= old.take(k - 1));
    } else {
        assert(trades.take(0) =~= Seq::<Trade>::empty());
        assert(old.take(0) =~= Seq::<Order>::empty());
    }
}

/// What a pass's shape gives: no trade moves more than the incoming order
/// still has open; and when the pass went over a whole level of orders that
/// all show something, it met them one by one from the front, and an order
/// it leaves has traded less than it had open.
#[verifier::spinoff_prover]
proof fn lemma_shape_facts(
    old: Seq<Order>,
    new: Seq<Order>,
    trades: Seq<Trade>,
    side: Side,
    open: int,
    pos: Seq<int>,
    orig: Seq<int>,
    bound: int,
)
    requires
        pass_shape(old, new, trades, side, open, pos, orig, bound),
    ensures
        forall|j: int|
            0 <= j < trades.len() ==> (#[trigger] trades[j]).quantity <= open - traded_quantity(
                trades.take(j),
            ),
        bound == old.len() && (forall|p: int| 0 <= p < old.len() ==> (#[trigger] old[p]).visible()
            > 0) ==> {
            &&& trades.len() == old.len()
            &&& forall|k: int|
                0 <= k < trades.len() ==> (#[trigger] trades[k]).quantity == smaller(
                    open - traded_quantity(trades.take(k)),
                    old[k].visible(),
                ) && counterpart(trades[k], side) == old[k].id
            &&& new.len() > 0 ==> exists|k: int|
                0 <= k < trades.len() && (#[trigger] trades[k]).quantity < old[k].remaining()
        },
{
    reveal(pass_shape);
    assert forall|j: int| 0 <= j < trades.len() implies (#[trigger] trades[j]).quantity <= open
        - traded_quantity(trades.take(j)) by {
        assert(trades[j].quantity == smaller(
            open - traded_quantity(trades.take(j)),
            old[pos[j]].visible(),
        ));
    }
    let n = old.len() as int;
    if bound == n && (forall|p: int| 0 <= p < old.len() ==> (#[trigger] old[p]).visible() > 0) {
        assert forall|p: int| 0 <= p < n implies traded_at(pos, p) by {
            assert(old[p].visible() > 0);
        }
        if n > 0 {
            lemma_cover_prefix(pos, n, n - 1);
            if pos.len() > n {
                assert(pos[n - 1] < pos[n]);
            }
        } else if pos.len() > 0 {
            assert(pos[0] < bound);
        }
        assert(pos.len() == n);
        assert forall|k: int| 0 <= k < trades.len() implies (#[trigger] trades[k]).quantity
            == smaller(open - traded_quantity(trades.take(k)), old[k].visible()) && counterpart(
            trades[k],
            side,
        ) == old[k].id by {
            lemma_cover_prefix(pos, n, k);
        }
        if new.len() > 0 {
            let p0 = orig[0];
            assert(traded_at(pos, p0)) by {
                assert(old[p0].visible() > 0);
            }
            let k0 = choose|k: int| 0 <= k < pos.len() && pos[k] == p0;
            lemma_cover_prefix(pos, n, k0);
            assert(new[0] == after_fill(old[pos[k0]], trades[k0].quantity) && !new[0].filled());
            assert(trades[k0].quantity < old[k0].remaining());
        }
    }
}

/// What one pass over a level conserves, the level's orders each showing
/// all they have open and having something open: when the incoming order
/// is still open after the pass, the pass met every order of the level in
/// queue order, took each of them whole, traded exactly the level's open
/// quantity and left the level empty; when it is not, the pass traded
/// exactly what the incoming order had open.
#[verifier::spinoff_prover]
pub proof fn lemma_pass_conserves(
    old: Seq<Order>,
    new: Seq<Order>,
    trades: Seq<Trade>,
    side: Side,
    open: int,
)
    requires
        0 <= open,
        level_pass(old, new, trades, side, open, still_open(trades, open)),
        forall|p: int|
            0 <= p < old.len() ==> (#[trigger] old[p]).visible() == old[p].remaining()
                && old[p].remaining() > 0,
    ensures
        still_open(trades, open) ==> {
            &&& trades.len() == old.len()
            &&& forall|k: int|
                0 <= k < trades.len() ==> counterpart(#[trigger] trades[k], side) == old[k].id
                    && trades[k].quantity == old[k].remaining()
            &&& traded_quantity(trades) == open_quantity(old)
            &&& new.len() == 0
        },
        !still_open(trades, open) ==> traded_quantity(trades) == open,
{
    reveal(level_pass);
    let (pos, orig, bound) = choose|pos: Seq<int>, orig: Seq<int>, bound: int|
        #[trigger] pass_shape(old, new, trades, side, open, pos, orig, bound) && (still_open(
            trades,
            open,
        ) ==> bound == old.len());
    lemma_shape_facts(old, new, trades, side, open, pos, orig, bound);
    lemma_pass_within_open(trades, open, trades.len() as int);
    assert(trades.take(trades.len() as int) =~= trades);
    if still_open(trades, open) {
        let n = old.len() as int;
        assert forall|p: int| 0 <= p < old.len() implies (#[trigger] old[p]).visible() > 0 by {}
        assert forall|k: int| 0 <= k < trades.len() implies (#[trigger] trades[k]).quantity
            == old[k].remaining() by {
            if open - traded_quantity(trades.take(k)) < old[k].visible() {
                assert(trades.take(k + 1).drop_last() =~= trades.take(k));
                assert(traded_quantity(trades.take(k + 1)) == open);
                let rest = trades.skip(k + 1);
                assert(trades =~= trades.take(k + 1) + rest);
                lemma_traded_concat(trades.take(k + 1), rest);
                lemma_traded_nonneg(rest);
            }
        }
        lemma_pass_sum(trades, old, n);
        assert(old.take(n) =~= old);
    }
}

/// A pass never moves more than the incoming order had open, nor less than
/// nothing.
pub proof fn lemma_pass_within(
    old: Seq<Order>,
    new: Seq<Order>,
    trades: Seq<Trade>,
    side: Side,
    open: int,
    done: bool,
)
    requires
        0 <= open,
        level_pass(old, new, trades, side, open, done),
    ensures
        0 <= traded_quantity(trades) <= open,
{
    reveal(level_pass);
    let (pos, orig, bound) = choose|pos: Seq<int>, orig: Seq<int>, bound: int|
        #[trigger] pass_shape(old, new, trades, side, open, pos, orig, bound) && (done ==> bound
            == old.len());
    lemma_shape_facts(old, new, trades, side, open, pos, orig, bound);
    lemma_pass_within_open(trades, open, trades.len() as int);
    assert(trades.take(trades.len() as int) =~= trades);
    lemma_traded_nonneg(trades);
}

/// The open quantity of orders each with nothing or more open is no less
/// than nothing, and no less than that of any first few of them.
proof fn lemma_open_prefix(orders: Seq<Order>, j: int)
    requires
        0 <= j <= orders.len(),
        forall|p: int| 0 <= p < orders.len() ==> (#[trigger] orders[p]).remaining() >= 0,
    ensures
        0 <= open_quantity(orders.take(j)) <= open_quantity(orders),
    decreases orders.len(),
{
    if orders.len() > 0 {
        if j == orders.len() {
            assert(orders.take(j) =~= orders);
            lemma_open_prefix(orders.drop_last(), j - 1);
            assert(orders.drop_last().take(j - 1) =~= orders.drop_last());
        } else {
            lemma_open_prefix(orders.drop_last(), j);
            assert(orders.drop_last().take(j) =~= orders.take(j));
            lemma_open_prefix(orders.drop_last(), orders.len() - 1);
            assert(orders.drop_last().take(orders.len() - 1) =~= orders.drop_last());
        }
    } else {
        assert(orders.take(j) =~= orders);
    }
}

/// A pass over orders that each show all they have open, and have
/// something open, moves no more than their open quantity.
pub proof fn lemma_pass_within_level(
    old: Seq<Order>,
    new: Seq<Order>,
    trades: Seq<Trade>,
    side: Side,
    open: int,
    done: bool,
)
    requires
        level_pass(old, new, trades, side, open, done),
        forall|p: int|
            0 <= p < old.len() ==> (#[trigger] old[p]).visible() == old[p].remaining()
                && old[p].remaining() > 0,
    ensures
        traded_quantity(trades) <= open_quantity(old),
{
    reveal(level_pass);
    let (pos, orig, bound) = choose|pos: Seq<int>, orig: Seq<int>, bound: int|
        #[trigger] pass_shape(old, new, trades, side, open, pos, orig, bound) && (done ==> bound
            == old.len());
    lemma_shape_prefix(old, new, trades, side, open, pos, orig, bound);
    lemma_trades_le(trades, old, trades.len() as int);
    assert(trades.take(trades.len() as int) =~= trades);
    lemma_open_prefix(old, trades.len() as int);
}

/// Trades each moving no more than the order at their own position has
/// open move, together, no more than those orders have open.
proof fn lemma_trades_le(trades: Seq<Trade>, old: Seq<Order>, k: int)
    requires
        0 <= k <= trades.len(),
        trades.len() <= old.len(),
        forall|j: int| 0 <= j < trades.len() ==> (#[trigger] trades[j]).quantity <= old[j].remaining(),
    ensures
        traded_quantity(trades.take(k)) <= open_quantity(old.take(k)),
    decreases k,
{
    if k > 0 {
        lemma_trades_le(trades, old, k - 1);
        assert(trades.take(k).drop_last() =~= trades.take(k - 1));
        assert(old.take(k).drop_last() =~= old.take(k - 1));
    } else {
        assert(trades.take(0) =~= Seq::<Trade>::empty());
        assert(old.take(0) =~= Seq::<Order>::empty());
    }
}

/// In a pass over orders that all show something, the trades meet the
/// orders from the front one by one, each moving no more than it shows.
#[verifier::spinoff_prover]
proof fn lemma_shape_prefix(
    old: Seq<Order>,
    new: Seq<Order>,
    trades: Seq<Trade>,
    side: Side,
    open: int,
    pos: Seq<int>,
    orig: Seq<int>,
    bound: int,
)
    requires
        pass_shape(old, new, trades, side, open, pos, orig, bound),
        forall|p: int|
            0 <= p < old.len() ==> (#[trigger] old[p]).visible() == old[p].remaining()
                && old[p].remaining() > 0,
    ensures
        trades.len() <= old.len(),
        forall|j: int| 0 <= j < trades.len() ==> (#[trigger] trades[j]).quantity <= old[j].remaining(),
        forall|j: int|
            0 <= j < trades.len() ==> (#[trigger] trades[j]).quantity == smaller(
                open - traded_quantity(trades.take(j)),
                old[j].visible(),
            ) && counterpart(trades[j], side) == old[j].id,
{
    reveal(pass_shape);
    assert forall|p: int| 0 <= p < bound implies traded_at(pos, p) by {
        assert(old[p].visible() > 0);
    }
    if bound > 0 {
        lemma_cover_prefix(pos, bound, bound - 1);
        if pos.len() > bound {
            assert(pos[bound - 1] < pos[bound]);
        }
    } else if pos.len() > 0 {
        assert(pos[0] < bound);
    }
    assert(pos.len() == bound);
    assert forall|j: int| 0 <= j < trades.len() implies (#[trigger] trades[j]).quantity
        <= old[j].remaining() && trades[j].quantity == smaller(
        open - traded_quantity(trades.take(j)),
        old[j].visible(),
    ) && counterpart(trades[j], side) == old[j].id by {
        lemma_cover_prefix(pos, bound, j);
        assert(trades[j].quantity == smaller(
            open - traded_quantity(trades.take(j)),
            old[pos[j]].visible(),
        ));
    }
}

/// Time priority within a pass: over orders that each show all they have
/// open and have something open, the trades (each moving something) meet
/// the orders from the front, one each, and every trade but the last takes
/// its order whole, so that an order trades only once all before it are
/// filled.
pub proof fn lemma_pass_time_priority(
    old: Seq<Order>,
    new: Seq<Order>,
    trades: Seq<Trade>,
    side: Side,
    open: int,
    done: bool,
)
    requires
        level_pass(old, new, trades, side, open, done),
        forall|p: int|
            0 <= p < old.len() ==> (#[trigger] old[p]).visible() == old[p].remaining()
                && old[p].remaining() > 0,
        forall|k: int| 0 <= k < trades.len() ==> (#[trigger] trades[k]).quantity > 0,
    ensures
        trades.len() <= old.len(),
        forall|k: int|
            0 <= k < trades.len() ==> counterpart(#[trigger] trades[k], side) == old[k].id,
        forall|k: int|
            0 <= k < trades.len() - 1 ==> (#[trigger] trades[k]).quantity == old[k].remaining(),
{
    reveal(level_pass);
    let (pos, orig, bound) = choose|pos: Seq<int>, orig: Seq<int>, bound: int|
        #[trigger] pass_shape(old, new, trades, side, open, pos, orig, bound) && (done ==> bound
            == old.len());
    lemma_shape_prefix(old, new, trades, side, open, pos, orig, bound);
    assert forall|k: int| 0 <= k < trades.len() - 1 implies (#[trigger] trades[k]).quantity
        == old[k].remaining() by {
        if open - traded_quantity(trades.take(k)) < old[k].visible() {
            assert(trades.take(k + 1).drop_last() =~= trades.take(k));
            assert(traded_quantity(trades.take(k + 1)) == open);
            assert(trades[k + 1].quantity == smaller(
                open - traded_quantity(trades.take(k + 1)),
                old[k + 1].visible(),
            ));
        }
    }
}

/// Every order of the levels shows all it has open and has something open.
pub open spec fn plain_levels(levels: Seq<PriceLevel>) -> bool {
    forall|i: int, p: int|
        0 <= i < levels.len() && 0 <= p < levels[i].orders@.len() ==> (
        #[trigger] levels[i].orders@[p]).visible() == levels[i].orders@[p].remaining()
            && levels[i].orders@[p].remaining() > 0
}

/// Every level holds some order.
pub open spec fn filled_levels(levels: Seq<PriceLevel>) -> bool {
    forall|i: int| 0 <= i < levels.len() ==> (#[trigger] levels[i]).orders@.len() > 0
}

/// The open quantity that an incoming order can reach in levels met in
/// order: the open quantities of the levels from the front, as long as it
/// may take from them.
pub open spec fn reachable(levels: Seq<PriceLevel>, incoming: Order) -> int
    decreases levels.len(),
{
    if levels.len() == 0 {
        0
    } else if !eligible(incoming, levels[0]) {
        0
    } else {
        open_quantity(levels[0].orders@) + reachable(levels.drop_first(), incoming)
    }
}

/// Levels at the same prices with the same orders reach the same quantity,
/// and are plain and filled alike.
proof fn lemma_reachable_same(a: Seq<PriceLevel>, b: Seq<PriceLevel>, incoming: Order)
    requires
        same_orders(a, b),
    ensures
        reachable(a, incoming) == reachable(b, incoming),
        plain_levels(a) == plain_levels(b),
        filled_levels(a) == filled_levels(b),
    decreases a.len(),
{
    if a.len() > 0 {
        assert(a[0].price == b[0].price && a[0].orders@ == b[0].orders@);
        assert(same_orders(a.drop_first(), b.drop_first())) by {
            assert forall|j: int| 0 <= j < a.drop_first().len() implies (
            #[trigger] a.drop_first()[j]).price == b.drop_first()[j].price
                && a.drop_first()[j].orders@ == b.drop_first()[j].orders@ by {
                assert(a[j + 1].price == b[j + 1].price);
            }
        }
        lemma_reachable_same(a.drop_first(), b.drop_first(), incoming);
    }
    if plain_levels(a) {
        assert forall|i: int, p: int|
            0 <= i < b.len() && 0 <= p < b[i].orders@.len() implies (
            #[trigger] b[i].orders@[p]).visible() == b[i].orders@[p].remaining()
                && b[i].orders@[p].remaining() > 0 by {
            assert(a[i].orders@ == b[i].orders@);
            assert(a[i].orders@[p] == b[i].orders@[p]);
        }
    }
    if plain_levels(b) {
        assert forall|i: int, p: int|
            0 <= i < a.len() && 0 <= p < a[i].orders@.len() implies (
            #[trigger] a[i].orders@[p]).visible() == a[i].orders@[p].remaining()
                && a[i].orders@[p].remaining() > 0 by {
            assert(a[i].orders@ == b[i].orders@);
            assert(a[i].orders@[p] == b[i].orders@[p]);
        }
    }
    if filled_levels(a) {
        assert forall|i: int| 0 <= i < b.len() implies (#[trigger] b[i]).orders@.len() > 0 by {
            assert(a[i].orders@ == b[i].orders@);
        }
    }
    if filled_levels(b) {
        assert forall|i: int| 0 <= i < a.len() implies (#[trigger] a[i]).orders@.len() > 0 by {
            assert(a[i].orders@ == b[i].orders@);
        }
    }
}

/// What plain levels reach is no less than nothing.
proof fn lemma_reachable_nonneg(levels: Seq<PriceLevel>, incoming: Order)
    requires
        plain_levels(levels),
    ensures
        reachable(levels, incoming) >= 0,
    decreases levels.len(),
{
    if levels.len() > 0 {
        let d = levels.drop_first();
        assert forall|i: int, p: int|
            0 <= i < d.len() && 0 <= p < d[i].orders@.len() implies (
            #[trigger] d[i].orders@[p]).visible() == d[i].orders@[p].remaining()
                && d[i].orders@[p].remaining() > 0 by {
            assert(d[i] == levels[i + 1]);
            assert(levels[i + 1].orders@[p] == d[i].orders@[p]);
        }
        lemma_reachable_nonneg(d, incoming);
        let os = levels[0].orders@;
        assert forall|p: int| 0 <= p < os.len() implies (#[trigger] os[p]).remaining() >= 0 by {
            assert(levels[0].orders@[p] == os[p]);
        }
        lemma_open_prefix(os, 0);
    }
}

/// How the levels an incoming order meets change in a pass (see
/// `pass_step`): the front level is the one passed over; it goes when the
/// pass leaves nothing of it, and otherwise keeps its price and holds what
/// the pass leaves; the levels behind it keep their prices and orders.
pub open spec fn priority_step(
    p: Seq<PriceLevel>,
    q: Seq<PriceLevel>,
    run: Seq<Trade>,
    incoming: Order,
    open: int,
) -> bool {
    &&& p.len() > 0
    &&& incoming.order_type == OrderType::Limit ==> price_allows(incoming, p[0].price)
    &&& exists|left: Seq<Order>|
        #[trigger] level_pass(p[0].orders@, left, run, incoming.side, open, still_open(run, open))
            && if left.len() == 0 {
            same_orders(q, p.drop_first())
        } else {
            &&& q.len() == p.len()
            &&& q[0].price == p[0].price
            &&& q[0].orders@ == left
            &&& forall|j: int|
                0 < j < p.len() ==> (#[trigger] q[j]).price == p[j].price && q[j].orders@
                    == p[j].orders@
        }
}

/// A pass over the book is a step of the levels in the order met.
proof fn lemma_priority_step(before: OrderBook, after: OrderBook, run: Seq<Trade>, incoming: Order, open: int)
    requires
        pass_step(before, after, run, incoming, open),
    ensures
        priority_step(
            in_priority(before, incoming.side),
            in_priority(after, incoming.side),
            run,
            incoming,
            open,
        ),
{
    reveal(pass_step);
    let side = incoming.side;
    let lv = before.side_levels(side.spec_opposite());
    let nv = after.side_levels(side.spec_opposite());
    let i = best_index(before, side);
    let left = choose|left: Seq<Order>|
        #[trigger] level_pass(lv[i].orders@, left, run, side, open, still_open(run, open))
            && if left.len() == 0 {
            same_orders(nv, lv.remove(i))
        } else {
            &&& nv.len() == lv.len()
            &&& nv[i].price == lv[i].price
            &&& nv[i].orders@ == left
            &&& forall|j: int|
                0 <= j < lv.len() && j != i ==> (#[trigger] nv[j]).price == lv[j].price
                    && nv[j].orders@ == lv[j].orders@
        };
    let p = in_priority(before, side);
    let q = in_priority(after, side);
    if side == Side::Buy {
        assert(p == lv && q == nv);
        if left.len() == 0 {
            assert(lv.remove(0) =~= lv.drop_first());
        }
    } else {
        let n = lv.len();
        assert(p == lv.reverse() && q == nv.reverse());
        assert(p[0] == lv[n - 1]);
        if left.len() == 0 {
            assert forall|j: int| 0 <= j < q.len() implies (#[trigger] q[j]).price
                == p.drop_first()[j].price && q[j].orders@ == p.drop_first()[j].orders@ by {
                assert(q[j] == nv[nv.len() - 1 - j]);
                assert(lv.remove(n - 1)[nv.len() - 1 - j] == lv[nv.len() - 1 - j]);
                assert(p.drop_first()[j] == lv[n - 2 - j]);
            }
        } else {
            assert(q[0] == nv[n - 1]);
            assert forall|j: int| 0 < j < p.len() implies (#[trigger] q[j]).price == p[j].price
                && q[j].orders@ == p[j].orders@ by {
                assert(q[j] == nv[n - 1 - j]);
                assert(p[j] == lv[n - 1 - j]);
            }
        }
    }
}

/// The trades of the first `k` passes.
pub open spec fn runs_before(runs: Seq<Seq<Trade>>, k: int) -> Seq<Trade> {
    runs.take(k).flatten_alt()
}

/// The trades of the first `k + 1` passes are those of the first `k` and
/// then the next pass's.
proof fn lemma_runs_before_next(runs: Seq<Seq<Trade>>, k: int)
    requires
        0 <= k < runs.len(),
    ensures
        runs_before(runs, k + 1) == runs_before(runs, k) + runs[k],
        traded_quantity(runs_before(runs, k + 1)) == traded_quantity(runs_before(runs, k))
            + traded_quantity(runs[k]),
{
    assert(runs.take(k + 1).drop_last() =~= runs.take(k));
    assert(runs.take(k + 1).last() == runs[k]);
    lemma_traded_concat(runs_before(runs, k), runs[k]);
}

/// Once the incoming order has nothing open, the passes left trade nothing.
proof fn lemma_tail_zero(
    books: Seq<OrderBook>,
    runs: Seq<Seq<Trade>>,
    before: OrderBook,
    trades: Seq<Trade>,
    incoming: Order,
    k: int,
)
    requires
        passes_through(books, runs, before, trades, incoming),
        0 <= k <= runs.len(),
        incoming.remaining() - traded_quantity(runs_before(runs, k)) == 0,
    ensures
        traded_quantity(trades) == traded_quantity(runs_before(runs, k)),
    decreases runs.len() - k,
{
    reveal(passes_through);
    if k == runs.len() {
        assert(runs.take(k) =~= runs);
    } else {
        assert(pass_step(
            books[k],
            books[k + 1],
            runs[k],
            incoming,
            incoming.remaining() - traded_quantity(runs.take(k).flatten_alt()),
        ));
        lemma_priority_step(books[k], books[k + 1], runs[k], incoming, 0);
        let pk = in_priority(books[k], incoming.side);
        let left = choose|left: Seq<Order>|
            #[trigger] level_pass(
                pk[0].orders@,
                left,
                runs[k],
                incoming.side,
                0,
                still_open(runs[k], 0),
            );
        lemma_pass_within(pk[0].orders@, left, runs[k], incoming.side, 0, still_open(runs[k], 0));
        lemma_runs_before_next(runs, k);
        lemma_tail_zero(books, runs, before, trades, incoming, k + 1);
    }
}

/// The sweep from the `k`-th pass on: what the passes from there trade is
/// the smaller of what the incoming order still has open and what it can
/// reach in the levels it then meets.
#[verifier::spinoff_prover]
#[verifier::rlimit(50)]
proof fn lemma_sweep_from(
    books: Seq<OrderBook>,
    runs: Seq<Seq<Trade>>,
    before: OrderBook,
    trades: Seq<Trade>,
    incoming: Order,
    k: int,
)
    requires
        passes_through(books, runs, before, trades, incoming),
        0 <= k <= runs.len(),
        0 <= incoming.remaining() - traded_quantity(runs_before(runs, k)),
        plain_levels(in_priority(books[k], incoming.side)),
        filled_levels(in_priority(books[k], incoming.side)),
        matching_stopped(books.last(), incoming, traded_quantity(trades)),
    ensures
        traded_quantity(trades) - traded_quantity(runs_before(runs, k)) == smaller(
            incoming.remaining() - traded_quantity(runs_before(runs, k)),
            reachable(in_priority(books[k], incoming.side), incoming),
        ),
        traded_quantity(trades) < incoming.remaining() ==> in_priority(
            books.last(),
            incoming.side,
        ).len() == 0 || !eligible(incoming, in_priority(books.last(), incoming.side)[0]),
    decreases runs.len() - k,
{
    reveal(passes_through);
    let side = incoming.side;
    let pk = in_priority(books[k], side);
    let open = incoming.remaining() - traded_quantity(runs_before(runs, k));
    lemma_reachable_nonneg(pk, incoming);
    if k == runs.len() {
        assert(runs.take(k) =~= runs);
        let b = books[k];
        assert(books.last() == b);
        if pk.len() > 0 {
            if side == Side::Buy {
                assert(pk == b.sell_levels@);
                assert(b.best_opposite(side) == Some(pk[0].price));
                assert(b.best_opposite_level(side) == pk[0]);
            } else {
                assert(pk == b.buy_levels@.reverse());
                assert(pk[0] == b.buy_levels@[b.buy_levels@.len() - 1]);
                assert(b.best_opposite(side) == Some(pk[0].price));
                assert(b.best_opposite_level(side) == pk[0]);
            }
            assert(pk[0].orders@.len() > 0);
            assert(pk[0].orders@[0].visible() > 0);
        } else {
            if side == Side::Buy {
                assert(b.sell_levels@.len() == 0);
            } else {
                assert(b.buy_levels@.len() == 0);
            }
        }
    } else {
        assert(pass_step(
            books[k],
            books[k + 1],
            runs[k],
            incoming,
            incoming.remaining() - traded_quantity(runs.take(k).flatten_alt()),
        ));
        lemma_priority_step(books[k], books[k + 1], runs[k], incoming, open);
        let pn = in_priority(books[k + 1], side);
        let run = runs[k];
        let left = choose|left: Seq<Order>|
            #[trigger] level_pass(pk[0].orders@, left, run, side, open, still_open(run, open))
                && if left.len() == 0 {
                same_orders(pn, pk.drop_first())
            } else {
                &&& pn.len() == pk.len()
                &&& pn[0].price == pk[0].price
                &&& pn[0].orders@ == left
                &&& forall|j: int|
                    0 < j < pk.len() ==> (#[trigger] pn[j]).price == pk[j].price && pn[j].orders@
                        == pk[j].orders@
            };
        let os = pk[0].orders@;
        assert forall|p: int| 0 <= p < os.len() implies (#[trigger] os[p]).visible()
            == os[p].remaining() && os[p].remaining() > 0 by {
            assert(pk[0].orders@[p] == os[p]);
        }
        lemma_pass_within(os, left, run, side, open, still_open(run, open));
        lemma_pass_within_level(os, left, run, side, open, still_open(run, open));
        lemma_runs_before_next(runs, k);
        let d = pk.drop_first();
        assert forall|i: int, p: int|
            0 <= i < d.len() && 0 <= p < d[i].orders@.len() implies (
            #[trigger] d[i].orders@[p]).visible() == d[i].orders@[p].remaining()
                && d[i].orders@[p].remaining() > 0 by {
            assert(d[i] == pk[i + 1]);
            assert(pk[i + 1].orders@[p] == d[i].orders@[p]);
        }
        assert forall|i: int| 0 <= i < d.len() implies (#[trigger] d[i]).orders@.len() > 0 by {
            assert(d[i] == pk[i + 1]);
        }
        lemma_reachable_nonneg(d, incoming);
        assert(eligible(incoming, pk[0]));
        assert(reachable(pk, incoming) == open_quantity(os) + reachable(d, incoming));
        if still_open(run, open) {
            lemma_pass_conserves(os, left, run, side, open);
            lemma_reachable_same(pn, d, incoming);
            lemma_sweep_from(books, runs, before, trades, incoming, k + 1);
        } else {
            lemma_tail_zero(books, runs, before, trades, incoming, k + 1);
        }
    }
}

/// The sweep law of matching: against levels whose orders each show all
/// they have open and have something open, an order trades, over all the
/// levels it meets, the smaller of what it has open and what it can reach
/// (the open quantity of the levels its limit allows, from the best on).
pub proof fn lemma_sweep(
    before: OrderBook,
    after: OrderBook,
    trades: Seq<Trade>,
    all_trades: Seq<Trade>,
    incoming: Order,
)
    requires
        matched(before, after, trades, all_trades, incoming),
        incoming.fill_ok(),
        plain_levels(in_priority(before, incoming.side)),
        filled_levels(in_priority(before, incoming.side)),
    ensures
        traded_quantity(trades) == smaller(
            incoming.remaining(),
            reachable(in_priority(before, incoming.side), incoming),
        ),
{
    reveal(matched);
    let (books, runs) = choose|books: Seq<OrderBook>, runs: Seq<Seq<Trade>>|
        #[trigger] passes_through(books, runs, before, trades, incoming) && matching_stopped(
            books.last(),
            incoming,
            traded_quantity(trades),
        ) && if all_trades.len() > 0 {
            crate::orderbook::last_trade_recorded(books.last(), after, all_trades.last().price)
        } else {
            after == books.last()
        };
    reveal(passes_through);
    assert(runs.take(0) =~= Seq::<Seq<Trade>>::empty());
    assert(runs_before(runs, 0) =~= Seq::<Trade>::empty());
    lemma_sweep_from(books, runs, before, trades, incoming, 0);
}

/// Whether an incoming order may trade at a level price: a buy up to its
/// price, a sell down to it.
pub open spec fn price_allows(incoming: Order, level_price: u64) -> bool {
    if incoming.side == Side::Buy {
        level_price <= incoming.price
    } else {
        level_price >= incoming.price
    }
}

pub struct MatchingEngine {
    pub order_books: Vec<OrderBook>,
    pub next_order_id: u64,
    pub next_trade_id: u64,
}

impl MatchingEngine {
    /// Every book is well formed and no two books share a symbol.
    pub open spec fn wf(&self) -> bool {
        &&& forall|i: int| 0 <= i < self.order_books@.len() ==> (#[trigger] self.order_books@[i]).wf()
        &&& forall|i: int, j: int|
            0 <= i < j < self.order_books@.len() ==> (#[trigger] self.order_books@[i]).symbol@
                != (#[trigger] self.order_books@[j]).symbol@
    }

    /// The position of the book of the symbol, if there is one.
    pub open spec fn book_index(&self, symbol: Seq<char>) -> Option<int> {
        if exists|i: int| 0 <= i < self.order_books@.len() && self.order_books@[i].symbol@ == symbol {
            Some(
                choose|i: int|
                    0 <= i < self.order_books@.len() && self.order_books@[i].symbol@ == symbol,
            )
        } else {
            None
        }
    }

    pub fn new() -> (r: Self)
        ensures
            r.wf(),
            r.order_books@ == Seq::<OrderBook>::empty(),
            r.next_order_id == 1,
            r.next_trade_id == 1,
    {
        MatchingEngine { order_books: Vec::new(), next_order_id: 1, next_trade_id: 1 }
    }

    /// Finds the book of a symbol.
    fn find_book(&self, symbol: &String) -> (r: Option<usize>)
        requires
            self.wf(),
        ensures
            match r {
                Some(i) => i < self.order_books@.len() && self.order_books@[i as int].symbol@
                    == symbol@ && self.book_index(symbol@) == Some(i as int),
                None => self.book_index(symbol@).is_none(),
            },
    {
        let mut i: usize = 0;
        while i < self.order_books.len()
            invariant
                self.wf(),
                i <= self.order_books@.len(),
                forall|j: int| 0 <= j < i ==> self.order_books@[j].symbol@ != symbol@,
            decreases self.order_books.len() - i,
        {
            if self.order_books[i].symbol == *symbol {
                proof {
                    let c = choose|c: int|
                        0 <= c < self.order_books@.len() && self.order_books@[c].symbol@
                            == symbol@;
                    if c != i {
                        if c < i {
                            assert(self.order_books@[c].symbol@ != self.order_books@[i as int].symbol@);
                        } else {
                            assert(self.order_books@[i as int].symbol@ != self.order_books@[c].symbol@);
                        }
                    }
                }
                return Some(i);
            }
            i += 1;
        }
        None
    }

    /// Whether the engine has a book for the symbol.
    pub fn has_symbol(&self, symbol: &str) -> (r: bool)
        requires
            self.wf(),
        ensures
            r == self.book_index(symbol@).is_some(),
    {
        let key = symbol.to_owned();
        self.find_book(&key).is_some()
    }

    /// The book of the symbol, if the engine has one.
    pub fn order_book(&self, symbol: &str) -> (r: Option<&OrderBook>)
        requires
            self.wf(),
        ensures
            match self.book_index(symbol@) {
                Some(i) => r == Some(&self.order_books@[i]),
                None => r.is_none(),
            },
    {
        let key = symbol.to_owned();
        match self.find_book(&key) {
            Some(i) => Some(&self.order_books[i]),
            None => None,
        }
    }

    /// Opens an empty book for the symbol unless there is one already.
    pub fn add_symbol(&mut self, symbol: &str)
        requires
            old(self).wf(),
        ensures
            final(self).wf(),
            final(self).next_order_id == old(self).next_order_id,
            final(self).next_trade_id == old(self).next_trade_id,
            old(self).book_index(symbol@).is_some() ==> final(self).order_books@ == old(
                self,
            ).order_books@,
            old(self).book_index(symbol@).is_none() ==> {
                &&& final(self).order_books@.len() == old(self).order_books@.len() + 1
                &&& final(self).order_books@.drop_last() == old(self).order_books@
                &&& final(self).order_books@.last().symbol@ == symbol@
                &&& final(self).order_books@.last().buy_levels@.len() == 0
                &&& final(self).order_books@.last().sell_levels@.len() == 0
                &&& final(self).order_books@.last().order_map@.is_empty()
                &&& final(self).order_books@.last().last_trade_price.is_none()
                &&& final(self).order_books@.last().stop_order_book.buy_stop_orders@.len() == 0
                &&& final(self).order_books@.last().stop_order_book.sell_stop_orders@.len() == 0
                &&& final(self).order_books@.last().stop_order_book.order_map@.is_empty()
            },
            final(self).book_index(symbol@).is_some(),
    {
        let key = symbol.to_owned();
        if self.find_book(&key).is_none() {
            let book = OrderBook::new(symbol);
            self.order_books.push(book);
            proof {
                let n = self.order_books@.len() - 1;
                assert(self.order_books@.drop_last() =~= old(self).order_books@);
                assert(self.order_books@[n].symbol@ == symbol@);
                assert forall|i: int, j: int|
                    0 <= i < j < self.order_books@.len() implies (
                    #[trigger] self.order_books@[i]).symbol@ != (
                    #[trigger] self.order_books@[j]).symbol@ by {
                    if j == n {
                        assert(self.order_books@[i] == old(self).order_books@[i]);
                    } else {
                        assert(self.order_books@[i] == old(self).order_books@[i]);
                        assert(self.order_books@[j] == old(self).order_books@[j]);
                    }
                }
                assert forall|i: int| 0 <= i < self.order_books@.len() implies (
                #[trigger] self.order_books@[i]).wf() by {
                    if i < n {
                        assert(self.order_books@[i] == old(self).order_books@[i]);
                    }
                }
            }
        }
    }
}

/// The order after a fill of `quantity`: that much more filled, and marked
/// filled or partially filled accordingly.
pub open spec fn after_fill(o: Order, quantity: u32) -> Order {
    let filled = (o.filled_quantity + quantity) as u32;
    Order {
        filled_quantity: filled,
        status: if filled >= o.quantity {
            OrderStatus::Filled
        } else {
            OrderStatus::PartiallyFilled
        },
        ..o
    }
}

/// `a` is `b` with at most its fill and status changed.
pub open spec fn fill_of(a: Order, b: Order) -> bool {
    a == Order { filled_quantity: a.filled_quantity, status: a.status, ..b }
}

/// The status that trading leaves an order in: filled, or partly filled.
pub open spec fn traded_status(o: Order) -> OrderStatus {
    if o.filled() {
        OrderStatus::Filled
    } else {
        OrderStatus::PartiallyFilled
    }
}

/// The incoming order as far as the trades made for it are concerned: the
/// fields that matching never changes.
pub open spec fn same_terms(a: Order, b: Order) -> bool {
    &&& a.id == b.id
    &&& a.side == b.side
    &&& a.order_type == b.order_type
    &&& a.price == b.price
    &&& a.quantity == b.quantity
    &&& a.symbol == b.symbol
    &&& a.time_in_force == b.time_in_force
    &&& a.stop_price == b.stop_price
    &&& a.display_quantity == b.display_quantity
}

impl MatchingEngine {
    /// Records a trade of `quantity` at `price` between the incoming order
    /// and a resting one: a trade with the next trade id, naming the buy and
    /// the sell order, stamped with the current time; both orders get the
    /// fill.
    fn execute_trade(
        next_trade_id: &mut u64,
        incoming: &mut Order,
        resting: &mut Order,
        quantity: u32,
        price: u64,
        result: &mut TradeExecutionResult,
    )
        requires
            *old(next_trade_id) < u64::MAX,
            old(incoming).filled_quantity + quantity <= old(incoming).quantity,
            old(resting).filled_quantity + quantity <= old(resting).quantity,
        ensures
            *final(next_trade_id) == *old(next_trade_id) + 1,
            *final(incoming) == after_fill(*old(incoming), quantity),
            *final(resting) == after_fill(*old(resting), quantity),
            final(result).remaining_order == old(result).remaining_order,
            final(result).filled_orders@ == old(result).filled_orders@,
            final(result).rejected == old(result).rejected,
            final(result).trades@.len() == old(result).trades@.len() + 1,
            final(result).trades@.drop_last() == old(result).trades@,
            ({
                let t = final(result).trades@.last();
                &&& t.id == *old(next_trade_id)
                &&& t.buy_order_id == if old(incoming).side == Side::Buy {
                    old(incoming).id
                } else {
                    old(resting).id
                }
                &&& t.sell_order_id == if old(incoming).side == Side::Buy {
                    old(resting).id
                } else {
                    old(incoming).id
                }
                &&& t.price == price
                &&& t.quantity == quantity
            }),
    {
        let incoming_is_buy = incoming.side == Side::Buy;
        let trade = Trade {
            id: *next_trade_id,
            buy_order_id: if incoming_is_buy {
                incoming.id
            } else {
                resting.id
            },
            sell_order_id: if incoming_is_buy {
                resting.id
            } else {
                incoming.id
            },
            price,
            quantity,
            timestamp: Order::get_nano_timestamp(),
        };
        *next_trade_id = *next_trade_id + 1;
        incoming.filled_quantity = incoming.filled_quantity + quantity;
        incoming.status = if incoming.is_filled() {
            OrderStatus::Filled
        } else {
            OrderStatus::PartiallyFilled
        };
        resting.filled_quantity = resting.filled_quantity + quantity;
        resting.status = if resting.is_filled() {
            OrderStatus::Filled
        } else {
            OrderStatus::PartiallyFilled
        };
        result.trades.push(trade);
        proof {
            assert(result.trades@.drop_last() =~= old(result).trades@);
        }
    }

    /// One pass of an incoming order over the orders of the best opposite
    /// level, oldest first, while it has quantity open: each order with
    /// something to show trades the smaller of what the incoming order has
    /// open and what it shows, at the level's price; orders filled leave the
    /// level (and join the filled orders of the result), icebergs that stay
    /// are noted for replenishing. Each order that trades is also recorded
    /// in the order map. Returns whether any trade took place.
    fn match_level(
        next_trade_id: &mut u64,
        incoming: &mut Order,
        level: &mut PriceLevel,
        order_map: &mut HashMap<u64, Order>,
        result: &mut TradeExecutionResult,
        to_replenish: &mut Vec<Order>,
    ) -> (traded: bool)
        requires
            old(incoming).fill_ok(),
            all_fill_ok(old(level).orders@),
            forall|k: int|
                0 <= k < old(level).orders@.len() ==> fits(
                    #[trigger] old(level).orders@[k],
                    old(level).price,
                    old(incoming).side.spec_opposite(),
                    false,
                ),
            old(incoming).order_type == OrderType::Limit ==> price_allows(
                *old(incoming),
                old(level).price,
            ),
            *old(next_trade_id) + old(incoming).remaining() <= u64::MAX,
            old(to_replenish)@.len() == 0,
        ensures
            final(incoming).fill_ok(),
            same_terms(*final(incoming), *old(incoming)),
            fill_of(*final(incoming), *old(incoming)),
            final(result).trades@.len() == old(result).trades@.len() ==> *final(incoming) == *old(
                incoming,
            ),
            final(result).trades@.len() > old(result).trades@.len() ==> final(incoming).status
                == traded_status(*final(incoming)),
            final(incoming).filled_quantity >= old(incoming).filled_quantity,
            *final(next_trade_id) + final(incoming).remaining() <= u64::MAX,
            final(level).price == old(level).price,
            final(level).total_volume == old(level).total_volume,
            final(level).visible_volume == old(level).visible_volume,
            exists|pos: Seq<int>|
                queue_positions(
                    pos,
                    final(result).trades@.skip(old(result).trades@.len() as int),
                    old(level).orders@,
                    old(incoming).side,
                ) && final(order_map)@ == #[trigger] with_fills(
                    old(order_map)@,
                    old(level).orders@,
                    pos,
                    final(result).trades@.skip(old(result).trades@.len() as int),
                ),
            all_fill_ok(final(level).orders@),
            forall|k: int|
                0 <= k < final(level).orders@.len() ==> fits(
                    #[trigger] final(level).orders@[k],
                    final(level).price,
                    old(incoming).side.spec_opposite(),
                    false,
                ),
            final(level).orders@.len() <= old(level).orders@.len(),
            final(result).remaining_order == old(result).remaining_order,
            final(result).rejected == old(result).rejected,
            final(result).trades@.len() >= old(result).trades@.len(),
            final(result).trades@.take(old(result).trades@.len() as int) == old(result).trades@,
            ({
                let new_trades = final(result).trades@.skip(old(result).trades@.len() as int);
                &&& trades_fit(new_trades, *old(next_trade_id) as int, *old(incoming))
                &&& *final(next_trade_id) == *old(next_trade_id) + new_trades.len()
                &&& final(incoming).filled_quantity - old(incoming).filled_quantity
                    == traded_quantity(new_trades)
                &&& forall|k: int| 0 <= k < new_trades.len() ==> (#[trigger] new_trades[k]).price
                    == old(level).price
                &&& traded == (new_trades.len() > 0)
                &&& in_queue_order(new_trades, old(level).orders@, old(incoming).side)
                &&& level_pass(
                    old(level).orders@,
                    final(level).orders@,
                    new_trades,
                    old(incoming).side,
                    old(incoming).remaining(),
                    !final(incoming).filled(),
                )
            }),
            final(result).filled_orders@.len() >= old(result).filled_orders@.len(),
            final(result).filled_orders@.take(old(result).filled_orders@.len() as int) == old(
                result,
            ).filled_orders@,
            forall|k: int|
                old(result).filled_orders@.len() <= k < final(result).filled_orders@.len() ==> (
                #[trigger] final(result).filled_orders@[k]).fully_filled(),
            all_fill_ok(final(to_replenish)@),
            forall|k: int|
                0 <= k < final(to_replenish)@.len() ==> fits(
                    #[trigger] final(to_replenish)@[k],
                    old(level).price,
                    old(incoming).side.spec_opposite(),
                    false,
                ),
            final(to_replenish)@.len() > 0 ==> final(level).orders@.len() > 0,
            !traded ==> final(level).orders@ == old(level).orders@,
            !traded ==> final(to_replenish)@.len() == 0,
            old(level).orders@.len() > 0 && old(level).orders@[0].visible() > 0 && !old(
                incoming,
            ).filled() ==> ({
                let new_trades = final(result).trades@.skip(old(result).trades@.len() as int);
                new_trades.len() > 0 && counterpart(new_trades[0], old(incoming).side) == old(
                    level,
                ).orders@[0].id
            }),
            !traded && !old(incoming).filled() ==> forall|k: int|
                0 <= k < old(level).orders@.len() ==> (#[trigger] old(level).orders@[k]).visible()
                    == 0,
    {
        let ghost first_id = *next_trade_id;
        let ghost start_trades = result.trades@;
        let ghost start_filled = result.filled_orders@;
        let ghost start_incoming = *incoming;
        let ghost opp = incoming.side.spec_opposite();
        let ghost mut orig: Seq<int> = Seq::new(level.orders@.len(), |j: int| j);
        let ghost mut pos: Seq<int> = Seq::empty();
        proof {
            lemma_pass_start(level.orders@, start_incoming.side, start_incoming.remaining());
            assert(result.trades@.skip(start_trades.len() as int) =~= Seq::<Trade>::empty());
            assert(orig == Seq::new(level.orders@.len(), |j: int| j));
        }
        let mut traded = false;
        let mut i: usize = 0;
        while i < level.orders.len() && !incoming.is_filled()
            invariant
                i <= level.orders@.len(),
                incoming.fill_ok(),
                same_terms(*incoming, start_incoming),
                fill_of(*incoming, start_incoming),
                result.trades@.len() == start_trades.len() ==> *incoming == start_incoming,
                result.trades@.len() > start_trades.len() ==> incoming.status == traded_status(
                    *incoming,
                ),
                incoming.filled_quantity >= start_incoming.filled_quantity,
                *next_trade_id + incoming.remaining() <= u64::MAX,
                level.price == old(level).price,
                level.total_volume == old(level).total_volume,
                level.visible_volume == old(level).visible_volume,
                all_fill_ok(level.orders@),
                forall|k: int|
                    0 <= k < level.orders@.len() ==> fits(
                        #[trigger] level.orders@[k],
                        level.price,
                        opp,
                        false,
                    ),
                opp == start_incoming.side.spec_opposite(),
                start_incoming.order_type == OrderType::Limit ==> price_allows(
                    start_incoming,
                    level.price,
                ),
                level.orders@.len() <= old(level).orders@.len(),
                result.remaining_order == old(result).remaining_order,
                result.rejected == old(result).rejected,
                result.trades@.len() >= start_trades.len(),
                result.trades@.take(start_trades.len() as int) == start_trades,
                ({
                    let new_trades = result.trades@.skip(start_trades.len() as int);
                    &&& trades_fit(new_trades, first_id as int, start_incoming)
                    &&& *next_trade_id == first_id + new_trades.len()
                    &&& incoming.filled_quantity - start_incoming.filled_quantity
                        == traded_quantity(new_trades)
                    &&& forall|k: int|
                        0 <= k < new_trades.len() ==> (#[trigger] new_trades[k]).price
                            == level.price
                    &&& traded == (new_trades.len() > 0)
                    &&& queue_positions(pos, new_trades, old(level).orders@, start_incoming.side)
                    &&& order_map@ == with_fills(old(order_map)@, old(level).orders@, pos, new_trades)
                    &&& pass_shape(
                        old(level).orders@,
                        level.orders@,
                        new_trades,
                        start_incoming.side,
                        start_incoming.remaining(),
                        pos,
                        orig,
                        pass_bound(orig, i as int, old(level).orders@.len() as int),
                    )
                }),
                orig.len() == level.orders@.len(),
                forall|a: int, b: int| 0 <= a < b < orig.len() ==> #[trigger] orig[a] < #[trigger] orig[b],
                forall|j: int|
                    0 <= j < orig.len() ==> 0 <= #[trigger] orig[j] < old(level).orders@.len()
                        && level.orders@[j].id == old(level).orders@[orig[j]].id,
                forall|k: int| 0 <= k < pos.len() && i < orig.len() ==> #[trigger] pos[k] < orig[i as int],
                result.filled_orders@.len() >= start_filled.len(),
                result.filled_orders@.take(start_filled.len() as int) == start_filled,
                forall|k: int|
                    start_filled.len() <= k < result.filled_orders@.len() ==> (
                    #[trigger] result.filled_orders@[k]).fully_filled(),
                all_fill_ok(to_replenish@),
                forall|k: int|
                    0 <= k < to_replenish@.len() ==> fits(
                        #[trigger] to_replenish@[k],
                        level.price,
                        opp,
                        false,
                    ),
                to_replenish@.len() > 0 ==> i > 0,
                !traded ==> level.orders@ == old(level).orders@,
                !traded ==> to_replenish@.len() == 0,
                !traded && !start_incoming.filled() ==> forall|k: int|
                    0 <= k < i ==> (#[trigger] level.orders@[k]).visible() == 0,
                old(level).orders@.len() > 0 && old(level).orders@[0].visible() > 0
                    && !start_incoming.filled() ==> (i == 0 && !traded && *incoming
                    == start_incoming && level.orders@ == old(level).orders@) || ({
                    let new_trades = result.trades@.skip(start_trades.len() as int);
                    new_trades.len() > 0 && counterpart(new_trades[0], start_incoming.side) == old(
                        level,
                    ).orders@[0].id
                }),
            decreases level.orders@.len() - i, if incoming.filled() { 0int } else { 1int },
        {
            proof {
                lemma_pass_front(
                    old(level).orders@,
                    level.orders@,
                    result.trades@.skip(start_trades.len() as int),
                    start_incoming.side,
                    start_incoming.remaining(),
                    pos,
                    orig,
                    i as int,
                );
            }
            let ghost prev_level = level.orders@;
            let ghost prev_orig = orig;
            let ghost prev_pos2 = pos;
            let ghost pt0 = result.trades@.skip(start_trades.len() as int);
            let ghost c = orig[i as int];
            let ghost incoming_before = *incoming;
            let mut resting = level.orders[i].clone();
            let open = incoming.remaining_quantity();
            let shown = resting.visible_quantity();
            let trade_qty = if open <= shown {
                open
            } else {
                shown
            };
            if trade_qty > 0 {
                let ghost trades_before = result.trades@;
                let ghost filled_before = incoming.filled_quantity;
                let ghost id_before = *next_trade_id;
                let best = level.price;
                Self::execute_trade(next_trade_id, incoming, &mut resting, trade_qty, best, result);
                proof {
                    let nt = result.trades@.skip(start_trades.len() as int);
                    let pt = trades_before.skip(start_trades.len() as int);
                    assert(nt.drop_last() =~= pt);
                    assert(result.trades@.take(start_trades.len() as int) =~= start_trades) by {
                        assert(trades_before.take(start_trades.len() as int) == start_trades);
                    }
                    assert(nt.last() == result.trades@.last());
                    assert(traded_quantity(nt) == traded_quantity(pt) + trade_qty);
                    assert forall|k: int| 0 <= k < nt.len() implies (#[trigger] nt[k]).price
                        == level.price by {
                        if k < pt.len() {
                            assert(nt[k] == pt[k]);
                        }
                    }
                    assert(trades_fit(nt, first_id as int, start_incoming)) by {
                        assert forall|k: int| 0 <= k < nt.len() implies {
                            let t = #[trigger] nt[k];
                            &&& t.quantity > 0
                            &&& t.id == first_id + k
                            &&& if start_incoming.side == Side::Buy {
                                t.buy_order_id == start_incoming.id
                            } else {
                                t.sell_order_id == start_incoming.id
                            }
                            &&& start_incoming.order_type == OrderType::Limit ==> if start_incoming.side
                                == Side::Buy {
                                t.price <= start_incoming.price
                            } else {
                                t.price >= start_incoming.price
                            }
                        } by {
                            if k < pt.len() {
                                assert(nt[k] == pt[k]);
                            } else {
                                assert(nt[k] == result.trades@.last());
                            }
                        }
                    }
                }
                proof {
                    let nt = result.trades@.skip(start_trades.len() as int);
                    let pt = trades_before.skip(start_trades.len() as int);
                    let prev_pos = pos;
                    pos = pos.push(orig[i as int]);
                    assert forall|k: int| 0 <= k < pos.len() implies 0 <= #[trigger] pos[k]
                        < old(level).orders@.len() && counterpart(nt[k], start_incoming.side)
                        == old(level).orders@[pos[k]].id by {
                        if k < prev_pos.len() {
                            assert(nt[k] == pt[k]);
                            assert(prev_pos[k] == pos[k]);
                        } else {
                            assert(nt[k] == result.trades@.last());
                        }
                    }
                    assert forall|a: int, b: int| 0 <= a < b < pos.len() implies #[trigger] pos[a]
                        < #[trigger] pos[b] by {
                        if b < prev_pos.len() {
                            assert(prev_pos[a] < prev_pos[b]);
                        } else {
                            assert(prev_pos[a] < orig[i as int]);
                        }
                    }
                }
                order_map.insert(resting.id, resting.clone());
                proof {
                    let nt = result.trades@.skip(start_trades.len() as int);
                    let k = nt.len() - 1;
                    assert(pos.take(k) =~= prev_pos2);
                    assert(nt.take(k) =~= pt0);
                    assert(pos[k] == c);
                    assert(prev_level[i as int] == old(level).orders@[c]);
                    assert(nt[k] == result.trades@.last());
                }
                traded = true;
                if resting.is_filled() {
                    level.orders.remove(i);
                    proof {
                        orig = orig.remove(i as int);
                        let nt = result.trades@.skip(start_trades.len() as int);
                        let t = result.trades@.last();
                        assert(nt =~= pt0.push(t));
                        assert(open == start_incoming.remaining() - traded_quantity(pt0));
                        lemma_pass_filled(
                            old(level).orders@,
                            prev_level,
                            pt0,
                            t,
                            start_incoming.side,
                            start_incoming.remaining(),
                            prev_pos2,
                            prev_orig,
                            i as int,
                        );
                        assert(level.orders@ =~= prev_level.remove(i as int));
                    }
                    result.filled_orders.push(resting);
                    proof {
                        assert(result.filled_orders@.take(start_filled.len() as int)
                            =~= start_filled) by {
                            assert(result.filled_orders@.drop_last().take(start_filled.len() as int)
                                == start_filled);
                        }
                        assert forall|k: int| 0 <= k < level.orders@.len() implies (
                        #[trigger] level.orders@[k]).fill_ok() && fits(
                            level.orders@[k],
                            level.price,
                            opp,
                            false,
                        ) by {
                            let kk = i as int;
                            let prev = old(level).orders@;
                            if k < kk {
                            } else {
                            }
                        }
                    }
                } else {
                    if resting.order_type == OrderType::Iceberg {
                        to_replenish.push(resting.clone());
                    }
                    level.orders.set(i, resting);
                    proof {
                        let nt = result.trades@.skip(start_trades.len() as int);
                        let t = result.trades@.last();
                        assert(nt =~= pt0.push(t));
                        assert(open == start_incoming.remaining() - traded_quantity(pt0));
                        lemma_pass_partial(
                            old(level).orders@,
                            prev_level,
                            pt0,
                            t,
                            start_incoming.side,
                            start_incoming.remaining(),
                            prev_pos2,
                            prev_orig,
                            i as int,
                        );
                        assert(level.orders@ =~= prev_level.update(
                            i as int,
                            after_fill(old(level).orders@[c], t.quantity),
                        ));
                    }
                    i += 1;
                }
            } else {
                proof {
                    lemma_pass_skip(
                        old(level).orders@,
                        level.orders@,
                        pt0,
                        start_incoming.side,
                        start_incoming.remaining(),
                        pos,
                        orig,
                        i as int,
                    );
                }
                i += 1;
            }
        }
        proof {
            let nt = result.trades@.skip(start_trades.len() as int);
            let b = pass_bound(orig, i as int, old(level).orders@.len() as int);
            reveal(level_pass);
            assert(pass_shape(
                old(level).orders@,
                level.orders@,
                nt,
                start_incoming.side,
                start_incoming.remaining(),
                pos,
                orig,
                b,
            ));
        }
        traded
    }
}

/// Trades that each move a positive quantity move at least one unit each.
pub proof fn lemma_traded_at_least(trades: Seq<Trade>)
    requires
        forall|k: int| 0 <= k < trades.len() ==> (#[trigger] trades[k]).quantity > 0,
    ensures
        traded_quantity(trades) >= trades.len(),
    decreases trades.len(),
{
    if trades.len() > 0 {
        let d = trades.drop_last();
        assert forall|k: int| 0 <= k < d.len() implies (#[trigger] d[k]).quantity > 0 by {
            assert(d[k] == trades[k]);
        }
        lemma_traded_at_least(d);
    }
}

/// The traded quantity of two runs one after the other adds up.
pub proof fn lemma_traded_concat(a: Seq<Trade>, b: Seq<Trade>)
    ensures
        traded_quantity(a + b) == traded_quantity(a) + traded_quantity(b),
    decreases b.len(),
{
    if b.len() == 0 {
        assert(a + b =~= a);
    } else {
        lemma_traded_concat(a, b.drop_last());
        assert((a + b).drop_last() =~= a + b.drop_last());
        assert((a + b).last() == b.last());
    }
}

/// Two runs of fitting trades with consecutive ids make one.
pub proof fn lemma_trades_fit_concat(a: Seq<Trade>, b: Seq<Trade>, first_id: int, incoming: Order)
    requires
        trades_fit(a, first_id, incoming),
        trades_fit(b, first_id + a.len(), incoming),
    ensures
        trades_fit(a + b, first_id, incoming),
{
    assert forall|k: int| 0 <= k < (a + b).len() implies {
        let t = #[trigger] (a + b)[k];
        &&& t.quantity > 0
        &&& t.id == first_id + k
        &&& if incoming.side == Side::Buy {
            t.buy_order_id == incoming.id
        } else {
            t.sell_order_id == incoming.id
        }
        &&& incoming.order_type == OrderType::Limit ==> if incoming.side == Side::Buy {
            t.price <= incoming.price
        } else {
            t.price >= incoming.price
        }
    } by {
        if k < a.len() {
            assert((a + b)[k] == a[k]);
        } else {
            assert((a + b)[k] == b[k - a.len()]);
        }
    }
}

/// Putting back a level taken from a side, at its place, keeps the side
/// well formed when the level is non-empty and its orders still fit.
proof fn lemma_put_back(old_levels: Seq<PriceLevel>, new_levels: Seq<PriceLevel>, i: int, side: Side)
    requires
        side_fits(old_levels, side, false),
        0 <= i < old_levels.len(),
        new_levels.len() == old_levels.len(),
        forall|m: int| 0 <= m < old_levels.len() && m != i ==> new_levels[m] == old_levels[m],
        new_levels[i].price == old_levels[i].price,
        new_levels[i].orders@.len() > 0,
        all_fill_ok(new_levels[i].orders@),
        forall|k: int|
            0 <= k < new_levels[i].orders@.len() ==> fits(
                #[trigger] new_levels[i].orders@[k],
                new_levels[i].price,
                side,
                false,
            ),
    ensures
        side_fits(new_levels, side, false),
{
    crate::orderbook::levels::lemma_replace_keeps_side(old_levels, new_levels, i);
    assert forall|a: int, k: int|
        0 <= a < new_levels.len() && 0 <= k < new_levels[a].orders@.len() implies fits(
        #[trigger] new_levels[a].orders@[k],
        new_levels[a].price,
        side,
        false,
    ) by {
        if a != i {
            assert(new_levels[a] == old_levels[a]);
        }
    }
}

/// Dropping a level keeps a side well formed.
proof fn lemma_drop_level(levels: Seq<PriceLevel>, i: int, side: Side)
    requires
        side_fits(levels, side, false),
        0 <= i < levels.len(),
    ensures
        side_fits(levels.remove(i), side, false),
{
    crate::orderbook::levels::lemma_remove_keeps_sorted(levels, i);
    crate::orderbook::levels::lemma_remove_keeps_ok(levels, i);
    let r = levels.remove(i);
    assert forall|a: int, k: int| 0 <= a < r.len() && 0 <= k < r[a].orders@.len() implies fits(
        #[trigger] r[a].orders@[k],
        r[a].price,
        side,
        false,
    ) by {
        if a < i {
            assert(r[a] == levels[a]);
        } else {
            assert(r[a] == levels[a + 1]);
        }
    }
}

impl MatchingEngine {
    /// Matches an incoming order against the book: while it has quantity
    /// open and the opposite side has a level, and (for a limit order) the
    /// best opposite price is one its price allows, it makes a pass over
    /// that level (see `match_level`); a level emptied by the pass goes, and
    /// icebergs that stay have the level's shown volume replenished. When a
    /// pass trades nothing (every order there shows nothing), matching
    /// stops. If any trade took place, the book records the last trade price
    /// (which may fire stop orders).
    #[verifier::spinoff_prover]
    #[verifier::rlimit(80)]
    pub fn match_order(
        next_trade_id: &mut u64,
        order_book: &mut OrderBook,
        incoming: &mut Order,
        result: &mut TradeExecutionResult,
    ) -> (r: Result<(), MatchingError>)
        requires
            old(order_book).wf(),
            old(incoming).fill_ok(),
            *old(next_trade_id) + old(incoming).remaining() <= u64::MAX,
        ensures
            r is Ok,
            final(order_book).wf(),
            final(order_book).symbol == old(order_book).symbol,
            final(incoming).fill_ok(),
            same_terms(*final(incoming), *old(incoming)),
            fill_of(*final(incoming), *old(incoming)),
            final(result).trades@.len() == old(result).trades@.len() ==> *final(incoming) == *old(
                incoming,
            ),
            final(result).trades@.len() > old(result).trades@.len() ==> final(incoming).status
                == traded_status(*final(incoming)),
            final(incoming).filled_quantity >= old(incoming).filled_quantity,
            *final(next_trade_id) + final(incoming).remaining() <= u64::MAX,
            final(result).remaining_order == old(result).remaining_order,
            final(result).rejected == old(result).rejected,
            final(result).trades@.len() >= old(result).trades@.len(),
            final(result).trades@.take(old(result).trades@.len() as int) == old(result).trades@,
            matched(
                *old(order_book),
                *final(order_book),
                final(result).trades@.skip(old(result).trades@.len() as int),
                final(result).trades@,
                *old(incoming),
            ),
            ({
                let new_trades = final(result).trades@.skip(old(result).trades@.len() as int);
                &&& trades_fit(new_trades, *old(next_trade_id) as int, *old(incoming))
                &&& priced_within(new_trades, opposite_prices(*old(order_book), old(incoming).side))
                &&& best_first(new_trades, old(incoming).side)
                &&& meets_best_at_once(*old(order_book), *old(incoming)) ==> new_trades.len() > 0
                    && counterpart(new_trades[0], old(incoming).side) == old(
                    order_book,
                ).best_opposite_level(old(incoming).side).orders@[0].id && opens_in_queue_order(
                    new_trades,
                    old(order_book).best_opposite_level(old(incoming).side).orders@,
                    old(incoming).side,
                ) && opens_with_pass(
                    new_trades,
                    old(order_book).best_opposite_level(old(incoming).side).orders@,
                    old(incoming).side,
                    old(incoming).remaining(),
                )
                &&& *final(next_trade_id) == *old(next_trade_id) + new_trades.len()
                &&& final(incoming).filled_quantity - old(incoming).filled_quantity
                    == traded_quantity(new_trades)
            }),
            final(result).filled_orders@.len() >= old(result).filled_orders@.len(),
            final(result).filled_orders@.take(old(result).filled_orders@.len() as int) == old(
                result,
            ).filled_orders@,
            forall|k: int|
                old(result).filled_orders@.len() <= k < final(result).filled_orders@.len() ==> (
                #[trigger] final(result).filled_orders@[k]).fully_filled(),
            old(order_book).no_stops() ==> {
                &&& final(order_book).stop_order_book == old(order_book).stop_order_book
                &&& {
                    ||| final(incoming).filled()
                    ||| final(order_book).best_opposite(old(incoming).side).is_none()
                    ||| (old(incoming).order_type == OrderType::Limit && !price_allows(
                        *final(incoming),
                        final(order_book).best_opposite(old(incoming).side).unwrap(),
                    ))
                    ||| forall|k: int|
                        0 <= k < final(order_book).best_opposite_level(
                            old(incoming).side,
                        ).orders@.len() ==> (#[trigger] final(order_book).best_opposite_level(
                            old(incoming).side,
                        ).orders@[k]).visible() == 0
                }
            },
    {
        let ghost first_id = *next_trade_id;
        let ghost start_trades = result.trades@;
        let ghost start_filled = result.filled_orders@;
        let ghost start_incoming = *incoming;
        let ghost start_stops = order_book.stop_order_book;
        let side = incoming.side;
        let ghost mut books: Seq<OrderBook> = seq![*order_book];
        let ghost mut runs: Seq<Seq<Trade>> = Seq::empty();
        proof {
            lemma_passes_start(*order_book, start_incoming);
            assert(result.trades@.skip(start_trades.len() as int) =~= Seq::<Trade>::empty());
        }
        loop
            invariant
                passes_through(
                    books,
                    runs,
                    *old(order_book),
                    result.trades@.skip(start_trades.len() as int),
                    start_incoming,
                ),
                books.last() == *order_book,
                order_book.wf(),
                order_book.symbol == old(order_book).symbol,
                order_book.stop_order_book == start_stops,
                start_stops == old(order_book).stop_order_book,
                incoming.fill_ok(),
                same_terms(*incoming, start_incoming),
                fill_of(*incoming, start_incoming),
                result.trades@.len() == start_trades.len() ==> *incoming == start_incoming,
                result.trades@.len() > start_trades.len() ==> incoming.status == traded_status(
                    *incoming,
                ),
                side == start_incoming.side,
                incoming.filled_quantity >= start_incoming.filled_quantity,
                *next_trade_id + incoming.remaining() <= u64::MAX,
                result.remaining_order == old(result).remaining_order,
                result.rejected == old(result).rejected,
                result.trades@.len() >= start_trades.len(),
                result.trades@.take(start_trades.len() as int) == start_trades,
                start_trades == old(result).trades@,
                start_filled == old(result).filled_orders@,
                opposite_prices(*order_book, side).subset_of(opposite_prices(*old(order_book), side)),
                ({
                    let new_trades = result.trades@.skip(start_trades.len() as int);
                    &&& priced_within(new_trades, opposite_prices(*old(order_book), side))
                    &&& best_first(new_trades, side)
                    &&& ahead_of(new_trades, order_book.side_levels(side.spec_opposite()), side)
                    &&& meets_best_at_once(*old(order_book), start_incoming) ==> (*order_book == *old(
                        order_book,
                    ) && *incoming == start_incoming && new_trades.len() == 0) || (new_trades.len()
                        > 0 && counterpart(new_trades[0], side) == old(
                        order_book,
                    ).best_opposite_level(side).orders@[0].id && opens_in_queue_order(
                        new_trades,
                        old(order_book).best_opposite_level(side).orders@,
                        side,
                    ) && opens_with_pass(
                        new_trades,
                        old(order_book).best_opposite_level(side).orders@,
                        side,
                        start_incoming.remaining(),
                    ))
                    &&& trades_fit(new_trades, first_id as int, start_incoming)
                    &&& *next_trade_id == first_id + new_trades.len()
                    &&& incoming.filled_quantity - start_incoming.filled_quantity
                        == traded_quantity(new_trades)
                }),
                result.filled_orders@.len() >= start_filled.len(),
                result.filled_orders@.take(start_filled.len() as int) == start_filled,
                forall|k: int|
                    start_filled.len() <= k < result.filled_orders@.len() ==> (
                    #[trigger] result.filled_orders@[k]).fully_filled(),
            ensures
                passes_through(
                    books,
                    runs,
                    *old(order_book),
                    result.trades@.skip(start_trades.len() as int),
                    start_incoming,
                ),
                books.last() == *order_book,
                order_book.wf(),
                order_book.symbol == old(order_book).symbol,
                order_book.stop_order_book == start_stops,
                incoming.fill_ok(),
                same_terms(*incoming, start_incoming),
                fill_of(*incoming, start_incoming),
                result.trades@.len() == start_trades.len() ==> *incoming == start_incoming,
                result.trades@.len() > start_trades.len() ==> incoming.status == traded_status(
                    *incoming,
                ),
                incoming.filled_quantity >= start_incoming.filled_quantity,
                *next_trade_id + incoming.remaining() <= u64::MAX,
                result.remaining_order == old(result).remaining_order,
                result.rejected == old(result).rejected,
                result.trades@.len() >= start_trades.len(),
                result.trades@.take(start_trades.len() as int) == start_trades,
                opposite_prices(*order_book, side).subset_of(opposite_prices(*old(order_book), side)),
                ({
                    let new_trades = result.trades@.skip(start_trades.len() as int);
                    &&& priced_within(new_trades, opposite_prices(*old(order_book), side))
                    &&& best_first(new_trades, side)
                    &&& ahead_of(new_trades, order_book.side_levels(side.spec_opposite()), side)
                    &&& meets_best_at_once(*old(order_book), start_incoming) ==> (*order_book == *old(
                        order_book,
                    ) && *incoming == start_incoming && new_trades.len() == 0) || (new_trades.len()
                        > 0 && counterpart(new_trades[0], side) == old(
                        order_book,
                    ).best_opposite_level(side).orders@[0].id && opens_in_queue_order(
                        new_trades,
                        old(order_book).best_opposite_level(side).orders@,
                        side,
                    ) && opens_with_pass(
                        new_trades,
                        old(order_book).best_opposite_level(side).orders@,
                        side,
                        start_incoming.remaining(),
                    ))
                    &&& trades_fit(new_trades, first_id as int, start_incoming)
                    &&& *next_trade_id == first_id + new_trades.len()
                    &&& incoming.filled_quantity - start_incoming.filled_quantity
                        == traded_quantity(new_trades)
                }),
                result.filled_orders@.len() >= start_filled.len(),
                result.filled_orders@.take(start_filled.len() as int) == start_filled,
                forall|k: int|
                    start_filled.len() <= k < result.filled_orders@.len() ==> (
                    #[trigger] result.filled_orders@[k]).fully_filled(),
                ({
                    ||| incoming.filled()
                    ||| order_book.best_opposite(side).is_none()
                    ||| (incoming.order_type == OrderType::Limit && !price_allows(
                        *incoming,
                        order_book.best_opposite(side).unwrap(),
                    ))
                    ||| forall|k: int|
                        0 <= k < order_book.best_opposite_level(side).orders@.len() ==> (
                        #[trigger] order_book.best_opposite_level(side).orders@[k]).visible() == 0
                }),
            decreases incoming.remaining(),
        {
            if incoming.is_filled() {
                break;
            }
            let best_price = match side {
                Side::Buy => order_book.get_best_ask_price(),
                Side::Sell => order_book.get_best_bid_price(),
            };
            let best = match best_price {
                None => {
                    break;
                },
                Some(p) => p,
            };
            let price_matches = match side {
                Side::Buy => best <= incoming.price,
                Side::Sell => best >= incoming.price,
            };
            if !price_matches && incoming.order_type == OrderType::Limit {
                break;
            }
            let ghost pass_trades = result.trades@;
            let ghost pass_filled = result.filled_orders@;
            let ghost pass_id = *next_trade_id;
            let ghost pass_incoming = *incoming;
            let ghost book_before = *order_book;
            let mut to_replenish: Vec<Order> = Vec::new();
            let ghost mut pass_level: Seq<Order> = Seq::empty();
            let ghost mut pass_after: Seq<Order> = Seq::empty();
            let traded;
            match side {
                Side::Buy => {
                    let ghost old_levels = order_book.sell_levels@;
                    let mut level = order_book.sell_levels.remove(0);
                    proof {
                        assert(level == old_levels[0]);
                        assert forall|k: int| 0 <= k < level.orders@.len() implies fits(
                            #[trigger] level.orders@[k],
                            level.price,
                            Side::Sell,
                            false,
                        ) by {
                            assert(level.orders@[k] == old_levels[0].orders@[k]);
                        }
                        pass_level = level.orders@;
                    }
                    traded = Self::match_level(
                        next_trade_id,
                        incoming,
                        &mut level,
                        &mut order_book.order_map,
                        result,
                        &mut to_replenish,
                    );
                    proof {
                        pass_after = level.orders@;
                    }
                    if level.orders.len() > 0 {
                        order_book.sell_levels.insert(0, level);
                        proof {
                            lemma_put_back(old_levels, order_book.sell_levels@, 0, Side::Sell);
                            assert(order_book.sell_levels@[0] == level);
                            lemma_prices_update(old_levels, order_book.sell_levels@, 0);
                        }
                    } else {
                        proof {
                            assert(order_book.sell_levels@ =~= old_levels.remove(0));
                            lemma_drop_level(old_levels, 0, Side::Sell);
                            lemma_prices_remove(old_levels, 0);
                        }
                    }
                },
                Side::Sell => {
                    let ghost old_levels = order_book.buy_levels@;
                    let last = order_book.buy_levels.len() - 1;
                    let mut level = order_book.buy_levels.remove(last);
                    proof {
                        assert(level == old_levels[last as int]);
                        assert forall|k: int| 0 <= k < level.orders@.len() implies fits(
                            #[trigger] level.orders@[k],
                            level.price,
                            Side::Buy,
                            false,
                        ) by {
                            assert(level.orders@[k] == old_levels[last as int].orders@[k]);
                        }
                        pass_level = level.orders@;
                    }
                    traded = Self::match_level(
                        next_trade_id,
                        incoming,
                        &mut level,
                        &mut order_book.order_map,
                        result,
                        &mut to_replenish,
                    );
                    proof {
                        pass_after = level.orders@;
                    }
                    if level.orders.len() > 0 {
                        order_book.buy_levels.insert(last, level);
                        proof {
                            lemma_put_back(old_levels, order_book.buy_levels@, last as int, Side::Buy);
                            assert(order_book.buy_levels@[last as int] == level);
                            lemma_prices_update(old_levels, order_book.buy_levels@, last as int);
                        }
                    } else {
                        proof {
                            assert(order_book.buy_levels@ =~= old_levels.remove(last as int));
                            lemma_drop_level(old_levels, last as int, Side::Buy);
                            lemma_prices_remove(old_levels, last as int);
                        }
                    }
                },
            }
            proof {
                let a = pass_trades.skip(start_trades.len() as int);
                let b = result.trades@.skip(pass_trades.len() as int);
                assert(result.trades@.skip(start_trades.len() as int) =~= a + b) by {
                    assert(result.trades@.take(pass_trades.len() as int) == pass_trades);
                }
                assert(result.trades@.take(start_trades.len() as int) =~= start_trades) by {
                    assert(result.trades@.take(pass_trades.len() as int) == pass_trades);
                    assert(pass_trades.take(start_trades.len() as int) == start_trades);
                }
                lemma_trades_fit_concat(a, b, first_id as int, start_incoming);
                lemma_traded_concat(a, b);
                assert(in_queue_order(b, pass_level, side));
                assert(pass_level == book_before.best_opposite_level(side).orders@);
                let nt = result.trades@.skip(start_trades.len() as int);
                let lv = old(order_book).best_opposite_level(side).orders@;
                if meets_best_at_once(*old(order_book), start_incoming) {
                    if a.len() == 0 {
                        if b.len() > 0 {
                            assert(nt.take(nt.len() as int) =~= b);
                            assert(in_queue_order(nt.take(nt.len() as int), lv, side));
                            assert(level_pass(
                                pass_level,
                                pass_after,
                                b,
                                side,
                                pass_incoming.remaining(),
                                !incoming.filled(),
                            ));
                            assert(level_pass(
                                lv,
                                pass_after,
                                nt.take(nt.len() as int),
                                side,
                                start_incoming.remaining(),
                                !incoming.filled(),
                            ));
                        }
                    } else {
                        let n = choose|n: int|
                            0 < n <= a.len() && #[trigger] in_queue_order(a.take(n), lv, side);
                        assert(nt.take(n) =~= a.take(n));
                        assert(in_queue_order(nt.take(n), lv, side));
                        let (n2, aft, d) = choose|n2: int, aft: Seq<Order>, d: bool|
                            0 < n2 <= a.len() && #[trigger] level_pass(
                                lv,
                                aft,
                                a.take(n2),
                                side,
                                start_incoming.remaining(),
                                d,
                            );
                        assert(nt.take(n2) =~= a.take(n2));
                        assert(level_pass(lv, aft, nt.take(n2), side, start_incoming.remaining(), d));
                    }
                }
                if traded {
                    lemma_traded_at_least(b);
                }
                assert(result.filled_orders@.take(start_filled.len() as int) =~= start_filled) by {
                    assert(result.filled_orders@.take(pass_filled.len() as int) == pass_filled);
                    assert(pass_filled.take(start_filled.len() as int) == start_filled);
                }
                assert forall|k: int|
                    start_filled.len() <= k < result.filled_orders@.len() implies (
                #[trigger] result.filled_orders@[k]).fully_filled() by {
                    if k < pass_filled.len() {
                        assert(result.filled_orders@.take(pass_filled.len() as int)[k]
                            == pass_filled[k]);
                    }
                }
            }
            proof {
                if !traded {
                    assert(!pass_incoming.filled());
                    assert(order_book.best_opposite_level(side).orders@
                        == book_before.best_opposite_level(side).orders@);
                }
            }
            let ghost book_mid = *order_book;
            let mut j: usize = 0;
            while j < to_replenish.len()
                invariant
                    to_replenish@.len() == 0 ==> *order_book == book_mid,
                    j <= to_replenish@.len(),
                    order_book.wf(),
                    order_book.symbol == old(order_book).symbol,
                    order_book.stop_order_book == start_stops,
                    all_fill_ok(to_replenish@),
                    forall|k: int|
                        0 <= k < to_replenish@.len() ==> fits(
                            #[trigger] to_replenish@[k],
                            best,
                            side.spec_opposite(),
                            false,
                        ),
                    to_replenish@.len() > 0 ==> order_book.best_opposite(side) == Some(best),
                    opposite_prices(*order_book, side) == opposite_prices(book_mid, side),
                    same_orders(
                        order_book.side_levels(side.spec_opposite()),
                        book_mid.side_levels(side.spec_opposite()),
                    ),
                    volumes_kept(
                        order_book.side_levels(side.spec_opposite()),
                        book_mid.side_levels(side.spec_opposite()),
                        best_index(book_mid, side),
                    ),
                    order_book.side_levels(side) == book_mid.side_levels(side),
                    order_book.order_map == book_mid.order_map,
                decreases to_replenish.len() - j,
            {
                let o = &to_replenish[j];
                proof {
                    assert(fits(to_replenish@[j as int], best, side.spec_opposite(), false));
                    let lv = order_book.side_levels(side.spec_opposite());
                    if side == Side::Buy {
                        crate::orderbook::levels::lemma_find_level_unique(lv, best, 0);
                    } else {
                        crate::orderbook::levels::lemma_find_level_unique(lv, best, lv.len() - 1);
                    }
                }
                let ghost before = order_book.side_levels(side.spec_opposite());
                match order_book.replenish_iceberg_order(o) {
                    Ok(()) => {},
                    Err(msg) => {
                        return Err(MatchingError::from_message(msg));
                    },
                }
                proof {
                    let after = order_book.side_levels(side.spec_opposite());
                    let i = crate::orderbook::levels::find_level(before, best).unwrap();
                    lemma_prices_update(before, after, i);
                    assert(after.len() == before.len());
                    if side == Side::Buy {
                        assert(after[0].price == before[0].price);
                    } else {
                        assert(after[after.len() - 1].price == before[before.len() - 1].price);
                    }
                    assert(to_replenish@[j as int].side == side.spec_opposite());
                    assert forall|m: int| 0 <= m < after.len() implies (#[trigger] after[m]).price
                        == book_mid.side_levels(side.spec_opposite())[m].price && after[m].orders@
                        == book_mid.side_levels(side.spec_opposite())[m].orders@ by {
                        assert(before[m].price == book_mid.side_levels(side.spec_opposite())[m].price);
                        if m == i {
                        } else {
                            assert(after[m] == before[m]);
                        }
                    }
                }
                j += 1;
            }
            proof {
                let b_run = result.trades@.skip(pass_trades.len() as int);
                let a_run = pass_trades.skip(start_trades.len() as int);
                assert(still_open(b_run, pass_incoming.remaining()) == !incoming.filled());
                assert(pass_incoming.remaining() == start_incoming.remaining() - traded_quantity(a_run));
                assert(pass_level == book_before.side_levels(side.spec_opposite())[best_index(
                    book_before,
                    side,
                )].orders@);
                lemma_pass_step(
                    book_before,
                    book_mid,
                    *order_book,
                    b_run,
                    start_incoming,
                    side,
                    pass_incoming.remaining(),
                    pass_after,
                );
                lemma_passes_push(
                    books,
                    runs,
                    *old(order_book),
                    a_run,
                    start_incoming,
                    *order_book,
                    b_run,
                );
                books = books.push(*order_book);
                runs = runs.push(b_run);
                assert(a_run + b_run =~= result.trades@.skip(start_trades.len() as int));
            }
            if !traded {
                break;
            }
        }
        proof {
            let nt = result.trades@.skip(start_trades.len() as int);
            assert(incoming.filled() ==> traded_quantity(nt) >= start_incoming.remaining());
            assert(matching_stopped(*order_book, start_incoming, traded_quantity(nt)));
        }
        if result.trades.len() > 0 {
            let last_price = result.trades[result.trades.len() - 1].price;
            proof {
                if order_book.no_stops() {
                    assert(order_book.triggered_at(last_price) =~= Seq::<Order>::empty());
                }
            }
            let ghost before = *order_book;
            let _ = order_book.update_last_trade_price(last_price);
            proof {
                assert(crate::orderbook::last_trade_recorded(
                    books.last(),
                    *order_book,
                    result.trades@.last().price,
                ));
                if before.no_stops() {
                    assert(order_book.stop_order_book == before.stop_order_book);
                    assert(order_book.sell_levels@ == before.sell_levels@);
                    assert(order_book.buy_levels@ == before.buy_levels@);
                    assert(order_book.best_opposite(side) == before.best_opposite(side));
                    assert(order_book.best_opposite_level(side) == before.best_opposite_level(side));
                }
            }
        }
        proof {
            reveal(matched);
            assert(matched(
                *old(order_book),
                *order_book,
                result.trades@.skip(start_trades.len() as int),
                result.trades@,
                start_incoming,
            ));
        }
        Ok(())
    }
}

/// The open quantity of a run of orders.
pub open spec fn open_quantity(orders: Seq<Order>) -> int
    decreases orders.len(),
{
    if orders.len() == 0 {
        0
    } else {
        open_quantity(orders.drop_last()) + orders.last().remaining()
    }
}

/// The open quantity of the first `n` levels.
pub open spec fn open_through(levels: Seq<PriceLevel>, n: int) -> int
    decreases n,
{
    if n <= 0 {
        0
    } else {
        open_through(levels, n - 1) + open_quantity(levels[n - 1].orders@)
    }
}

/// Whether the incoming order may take from a level: any level for a
/// market, stop or iceberg order, one at a price it allows for a limit
/// order.
pub open spec fn eligible(incoming: Order, level: PriceLevel) -> bool {
    incoming.order_type != OrderType::Limit || price_allows(incoming, level.price)
}

/// The opposite levels of a book in the order in which an incoming order on
/// `side` meets them: ascending asks for a buyer, descending bids for a
/// seller.
pub open spec fn in_priority(book: OrderBook, side: Side) -> Seq<PriceLevel> {
    match side {
        Side::Buy => book.sell_levels@,
        Side::Sell => book.buy_levels@.reverse(),
    }
}

/// Whether some non-empty run of the first levels met, all eligible, holds
/// at least the whole quantity of the order open.
pub open spec fn fillable(levels: Seq<PriceLevel>, incoming: Order) -> bool {
    exists|n: int|
        1 <= n <= levels.len() && (forall|j: int|
            0 <= j < n ==> #[trigger] eligible(incoming, levels[j])) && open_through(levels, n)
            >= incoming.quantity
}

/// The open quantity of the first `n` levels is that of the first level and
/// then of the next `n - 1`.
proof fn lemma_open_through_first(levels: Seq<PriceLevel>, n: int)
    requires
        1 <= n <= levels.len(),
    ensures
        open_through(levels, n) == open_quantity(levels[0].orders@) + open_through(
            levels.drop_first(),
            n - 1,
        ),
    decreases n,
{
    let d = levels.drop_first();
    if n > 1 {
        lemma_open_through_first(levels, n - 1);
        assert(d[n - 2] == levels[n - 1]);
        assert(open_through(levels, n) == open_through(levels, n - 1) + open_quantity(
            levels[n - 1].orders@,
        ));
        assert(open_through(d, n - 1) == open_through(d, n - 2) + open_quantity(d[n - 2].orders@));
    } else {
        assert(open_through(levels, 0) == 0);
        assert(open_through(d, 0) == 0);
        assert(open_through(levels, 1) == open_through(levels, 0) + open_quantity(
            levels[0].orders@,
        ));
    }
}

/// The first levels that an incoming order may take from, taken together,
/// hold no more than it can reach, which is never negative.
proof fn lemma_prefix_within_reach(levels: Seq<PriceLevel>, incoming: Order, n: int)
    requires
        0 <= n <= levels.len(),
        forall|j: int| 0 <= j < n ==> #[trigger] eligible(incoming, levels[j]),
        forall|j: int| 0 <= j < levels.len() ==> all_fill_ok(#[trigger] levels[j].orders@),
    ensures
        open_through(levels, n) <= reachable(levels, incoming),
        reachable(levels, incoming) >= 0,
    decreases levels.len(),
{
    if levels.len() > 0 && eligible(incoming, levels[0]) {
        let d = levels.drop_first();
        let m = if n > 0 {
            n - 1
        } else {
            0
        };
        assert forall|j: int| 0 <= j < m implies #[trigger] eligible(incoming, d[j]) by {
            assert(d[j] == levels[j + 1]);
        }
        assert forall|j: int| 0 <= j < d.len() implies all_fill_ok(#[trigger] d[j].orders@) by {
            assert(d[j] == levels[j + 1]);
        }
        lemma_prefix_within_reach(d, incoming, m);
        lemma_open_quantity_nonneg(levels[0].orders@);
        if n > 0 {
            lemma_open_through_first(levels, n);
        }
    }
}

/// How many levels from the front an incoming order may take from.
pub open spec fn eligible_run(levels: Seq<PriceLevel>, incoming: Order) -> int
    decreases levels.len(),
{
    if levels.len() == 0 || !eligible(incoming, levels[0]) {
        0
    } else {
        1 + eligible_run(levels.drop_first(), incoming)
    }
}

/// What an incoming order can reach is the open quantity of the run of
/// levels it may take from.
proof fn lemma_reach_is_run(levels: Seq<PriceLevel>, incoming: Order)
    ensures
        0 <= eligible_run(levels, incoming) <= levels.len(),
        forall|j: int| 0 <= j < eligible_run(levels, incoming) ==> #[trigger] eligible(incoming, levels[j]),
        reachable(levels, incoming) == open_through(levels, eligible_run(levels, incoming)),
    decreases levels.len(),
{
    if levels.len() > 0 && eligible(incoming, levels[0]) {
        let d = levels.drop_first();
        lemma_reach_is_run(d, incoming);
        let k = eligible_run(levels, incoming);
        assert forall|j: int| 0 <= j < k implies #[trigger] eligible(incoming, levels[j]) by {
            if j > 0 {
                assert(levels[j] == d[j - 1]);
            }
        }
        lemma_open_through_first(levels, k);
    }
}

/// The fill-or-kill test agrees with the sweep: an order can be filled in
/// full exactly when it may take from the best level and what it can reach,
/// over every level its limit allows in turn, covers its quantity.
pub proof fn lemma_fillable_is_reach(levels: Seq<PriceLevel>, incoming: Order)
    requires
        forall|j: int| 0 <= j < levels.len() ==> all_fill_ok(#[trigger] levels[j].orders@),
    ensures
        fillable(levels, incoming) <==> (levels.len() > 0 && eligible(incoming, levels[0])
            && reachable(levels, incoming) >= incoming.quantity),
{
    lemma_reach_is_run(levels, incoming);
    if fillable(levels, incoming) {
        let n = choose|n: int|
            1 <= n <= levels.len() && (forall|j: int|
                0 <= j < n ==> #[trigger] eligible(incoming, levels[j])) && open_through(levels, n)
                >= incoming.quantity;
        assert(eligible(incoming, levels[0]));
        lemma_prefix_within_reach(levels, incoming, n);
    }
    if levels.len() > 0 && eligible(incoming, levels[0]) && reachable(levels, incoming)
        >= incoming.quantity {
        let k = eligible_run(levels, incoming);
        assert(k >= 1) by {
            lemma_reach_is_run(levels.drop_first(), incoming);
        }
        assert(1 <= k <= levels.len() && (forall|j: int|
            0 <= j < k ==> #[trigger] eligible(incoming, levels[j])) && open_through(levels, k)
            >= incoming.quantity);
    }
}

/// Open quantity never goes down as levels are added.
proof fn lemma_open_through_monotone(levels: Seq<PriceLevel>, a: int, b: int)
    requires
        0 <= a <= b <= levels.len(),
        forall|j: int| 0 <= j < levels.len() ==> all_fill_ok(#[trigger] levels[j].orders@),
    ensures
        open_through(levels, a) <= open_through(levels, b),
    decreases b - a,
{
    if a < b {
        lemma_open_through_monotone(levels, a, b - 1);
        lemma_open_quantity_nonneg(levels[b - 1].orders@);
    }
}

proof fn lemma_open_quantity_nonneg(orders: Seq<Order>)
    requires
        all_fill_ok(orders),
    ensures
        open_quantity(orders) >= 0,
    decreases orders.len(),
{
    if orders.len() > 0 {
        let d = orders.drop_last();
        assert forall|k: int| 0 <= k < d.len() implies (#[trigger] d[k]).fill_ok() by {
            assert(d[k] == orders[k]);
        }
        lemma_open_quantity_nonneg(d);
    }
}

impl MatchingEngine {
    /// Whether an order can be filled in full from the book: the opposite
    /// levels are taken in priority order, a limit order stopping at the
    /// first price it does not allow, and the answer is yes as soon as the
    /// levels taken hold at least its quantity open. Always `Ok`.
    pub fn can_fill_order(order_book: &OrderBook, order: &Order) -> (r: Result<bool, MatchingError>)
        requires
            order_book.wf(),
        ensures
            r == Ok::<bool, MatchingError>(fillable(in_priority(*order_book, order.side), *order)),
    {
        let ghost prio = in_priority(*order_book, order.side);
        let side = order.side;
        let quantity = order.quantity;
        let n = match side {
            Side::Buy => order_book.sell_levels.len(),
            Side::Sell => order_book.buy_levels.len(),
        };
        proof {
            assert forall|j: int| 0 <= j < prio.len() implies all_fill_ok(#[trigger] prio[j].orders@) by {
                if side == Side::Sell {
                    assert(prio[j] == order_book.buy_levels@[order_book.buy_levels@.len() - 1 - j]);
                }
            }
        }
        let mut available: u64 = 0;
        let mut p: usize = 0;
        while p < n
            invariant
                p <= n,
                n == prio.len(),
                prio == in_priority(*order_book, side),
                side == order.side,
                quantity == order.quantity,
                order_book.wf(),
                forall|j: int| 0 <= j < prio.len() ==> all_fill_ok(#[trigger] prio[j].orders@),
                forall|j: int| 0 <= j < p ==> #[trigger] eligible(*order, prio[j]),
                available == if open_through(prio, p as int) > u64::MAX {
                    u64::MAX as int
                } else {
                    open_through(prio, p as int)
                },
                forall|m: int| 1 <= m <= p ==> open_through(prio, m) < quantity,
            decreases n - p,
        {
            let level = match side {
                Side::Buy => &order_book.sell_levels[p],
                Side::Sell => &order_book.buy_levels[n - 1 - p],
            };
            proof {
                if side == Side::Sell {
                    assert(prio[p as int] == order_book.buy_levels@[n - 1 - p]);
                }
                assert(*level == prio[p as int]);
            }
            let price_matches = match side {
                Side::Buy => level.price <= order.price,
                Side::Sell => level.price >= order.price,
            };
            if !price_matches && order.order_type == OrderType::Limit {
                proof {
                    assert forall|m: int|
                        1 <= m <= prio.len() && (forall|j: int|
                            0 <= j < m ==> #[trigger] eligible(*order, prio[j])) implies open_through(
                        prio,
                        m,
                    ) < quantity by {
                        if m > p {
                            assert(eligible(*order, prio[p as int]));
                        }
                    }
                }
                return Ok(false);
            }
            let mut k: usize = 0;
            let mut level_open: u64 = 0;
            while k < level.orders.len()
                invariant
                    k <= level.orders@.len(),
                    all_fill_ok(level.orders@),
                    level_open == if open_quantity(level.orders@.take(k as int)) > u64::MAX {
                        u64::MAX as int
                    } else {
                        open_quantity(level.orders@.take(k as int))
                    },
                decreases level.orders.len() - k,
            {
                proof {
                    assert(level.orders@.take(k + 1).drop_last() =~= level.orders@.take(k as int));
                    lemma_open_quantity_nonneg(level.orders@.take(k as int));
                }
                level_open = level_open.saturating_add(level.orders[k].remaining_quantity() as u64);
                k += 1;
            }
            proof {
                assert(level.orders@.take(k as int) =~= level.orders@);
                lemma_open_quantity_nonneg(level.orders@);
                lemma_open_through_monotone(prio, 0, p as int);
            }
            available = available.saturating_add(level_open);
            p += 1;
            if available >= quantity as u64 {
                proof {
                    assert(open_through(prio, p as int) >= quantity);
                    assert(forall|j: int| 0 <= j < p ==> #[trigger] eligible(*order, prio[j]));
                }
                return Ok(true);
            }
        }
        proof {
            assert forall|m: int|
                1 <= m <= prio.len() && (forall|j: int|
                    0 <= j < m ==> #[trigger] eligible(*order, prio[j])) implies open_through(
                prio,
                m,
            ) < quantity by {}
        }
        Ok(false)
    }
}

/// The terms under which a placed order meets the book: the id the engine
/// gives it, and, unless it is immediate-or-cancel or fill-or-kill, a stop
/// order's type once it fires (stop-limit to limit, stop-market to market).
pub open spec fn as_matched(o: Order, id: u64) -> Order {
    if o.time_in_force == TimeInForce::IOC || o.time_in_force == TimeInForce::FOK {
        Order { id, ..o }
    } else {
        Order {
            id,
            order_type: match o.order_type {
                OrderType::StopLimit => OrderType::Limit,
                OrderType::StopMarket => OrderType::Market,
                t => t,
            },
            ..o
        }
    }
}

/// The price an order meets the book with: a market order takes the best
/// opposite price.
pub open spec fn priced(o: Order, book: OrderBook) -> Order {
    if o.order_type == OrderType::Market {
        Order { price: book.best_opposite(o.side).unwrap(), ..o }
    } else {
        o
    }
}

/// An order that is neither immediate-or-cancel nor fill-or-kill and is a
/// stop order whose stop the book's last trade price has not reached: it
/// waits in the stop book.
pub open spec fn waits(o: Order, book: OrderBook) -> bool {
    &&& o.time_in_force != TimeInForce::IOC
    &&& o.time_in_force != TimeInForce::FOK
    &&& o.stop_order()
    &&& match book.last_trade_price {
        Some(p) => !o.stop_triggered_at(p),
        None => true,
    }
}

/// What placing the order `o` (with its id) in a book gives, `before` and
/// `after` being the book around it:
/// - a market order with no opposite price is refused with `NoLiquidity`,
///   and a fill-or-kill order the book cannot fill with
///   `FOKCannotBeFilled`, the book unchanged;
/// - a stop order that waits trades nothing, is filed in the stop book and
///   comes back as the remaining order; one without a stop price fails
///   with an internal error, the book unchanged;
/// - any other order is matched (see `matched`) and then:
///   - an immediate-or-cancel or fill-or-kill order comes back last among
///     the filled orders, with what it traded, marked `Filled` when that
///     fills it and `Canceled` otherwise; there is no remaining order; a
///     fill-or-kill order not filled fails with `FOKCannotBeFilled`;
///   - any other order that is filled leaves no remaining order;
///   - a limit or iceberg order (a stop-limit order once fired) left open
///     rests in the book matching left (a limit order at the back of the
///     level at its price) and comes back, with what it traded, as the
///     remaining order;
///   - any other order left open fails with `NoLiquidity`.
pub open spec fn placement(
    o: Order,
    before: OrderBook,
    after: OrderBook,
    r: Result<TradeExecutionResult, MatchingError>,
) -> bool {
    let immediate = o.time_in_force == TimeInForce::IOC || o.time_in_force == TimeInForce::FOK;
    if o.order_type == OrderType::Market && before.best_opposite(o.side).is_none() {
        r == Err::<TradeExecutionResult, MatchingError>(MatchingError::NoLiquidity) && after == before
    } else if o.time_in_force == TimeInForce::FOK && !fillable(
        in_priority(before, o.side),
        priced(o, before),
    ) {
        r == Err::<TradeExecutionResult, MatchingError>(MatchingError::FOKCannotBeFilled) && after
            == before
    } else if waits(o, before) {
        if o.stop_price is Some {
            &&& r matches Ok(res) && res.trades@.len() == 0 && res.remaining_order == Some(o)
            &&& after.buy_levels == before.buy_levels
            &&& after.sell_levels == before.sell_levels
            &&& after.order_map == before.order_map
            &&& after.stop_order_book.order_map@ == before.stop_order_book.order_map@.insert(o.id, o)
        } else {
            r matches Err(MatchingError::InternalError(m)) && m@ == "Missing stop price"@ && after
                == before
        }
    } else {
        match r {
            Ok(res) => {
                let filled = o.filled_quantity + traded_quantity(res.trades@);
                if immediate {
                    &&& res.remaining_order is None
                    &&& res.filled_orders@.len() > 0
                    &&& res.filled_orders@.last().id == o.id
                    &&& res.filled_orders@.last().filled_quantity == filled
                    &&& res.filled_orders@.last().status == if filled >= o.quantity {
                        OrderStatus::Filled
                    } else {
                        OrderStatus::Canceled
                    }
                    &&& res.filled_orders@.last() == (Order {
                        filled_quantity: res.filled_orders@.last().filled_quantity,
                        status: res.filled_orders@.last().status,
                        ..matched_as(o, before)
                    })
                    &&& o.time_in_force == TimeInForce::FOK ==> filled >= o.quantity
                    &&& matched(before, after, res.trades@, res.trades@, matched_as(o, before))
                } else if filled >= o.quantity {
                    &&& res.remaining_order is None
                    &&& matched(before, after, res.trades@, res.trades@, matched_as(o, before))
                } else {
                    &&& (as_matched(o, o.id).order_type == OrderType::Limit || as_matched(
                        o,
                        o.id,
                    ).order_type == OrderType::Iceberg)
                    &&& res.remaining_order matches Some(x) && x.id == o.id && x.filled_quantity
                        == filled && x == (Order {
                        filled_quantity: x.filled_quantity,
                        status: if res.trades@.len() > 0 {
                            OrderStatus::PartiallyFilled
                        } else {
                            o.status
                        },
                        ..matched_as(o, before)
                    }) && after.resting(o.id) && after.order_map@.contains_key(o.id)
                        && after.order_map@[o.id] == x && exists|mid: OrderBook|
                        #[trigger] matched(before, mid, res.trades@, res.trades@, matched_as(o, before))
                            && after.order_map@ == mid.order_map@.insert(o.id, x) && (as_matched(
                            o,
                            o.id,
                        ).order_type == OrderType::Limit ==> added(mid, after, x))
                }
            },
            Err(e) => if immediate {
                &&& o.time_in_force == TimeInForce::FOK
                &&& e == MatchingError::FOKCannotBeFilled
                &&& exists|trades: Seq<Trade>|
                    #[trigger] matched(before, after, trades, trades, matched_as(o, before))
                        && o.filled_quantity + traded_quantity(trades) < o.quantity
            } else {
                &&& e == MatchingError::NoLiquidity
                &&& as_matched(o, o.id).order_type != OrderType::Limit
                &&& as_matched(o, o.id).order_type != OrderType::Iceberg
            },
        }
    }
}

/// The sweep law of placing a limit order: a good-till-cancelled limit
/// order placed against levels whose orders each show all they have open is
/// accepted; it trades the smaller of what it has open and what it can reach
/// (see `reachable`), and is left open, resting on its own side at its own
/// price with its own quantity, exactly when it can reach less than it has
/// open.
pub proof fn lemma_limit_placement_sweep(
    o: Order,
    before: OrderBook,
    after: OrderBook,
    r: Result<TradeExecutionResult, MatchingError>,
)
    requires
        placement(o, before, after, r),
        o.order_type == OrderType::Limit,
        o.time_in_force == TimeInForce::GTC,
        o.fill_ok(),
        plain_levels(in_priority(before, o.side)),
        filled_levels(in_priority(before, o.side)),
    ensures
        r matches Ok(res) && {
            let reach = reachable(in_priority(before, o.side), o);
            &&& traded_quantity(res.trades@) == smaller(o.remaining(), reach)
            &&& (res.remaining_order is Some <==> reach < o.remaining())
            &&& res.remaining_order matches Some(x) ==> {
                &&& x.price == o.price
                &&& x.side == o.side
                &&& x.quantity == o.quantity
                &&& x.order_type == OrderType::Limit
                &&& after.resting(o.id)
                &&& after.order_map@[o.id] == x
            }
        },
{
    assert(matched_as(o, before) == o);
    assert(as_matched(o, o.id) == o);
    match r {
        Ok(res) => {
            let filled = o.filled_quantity + traded_quantity(res.trades@);
            if filled >= o.quantity {
                lemma_sweep(before, after, res.trades@, res.trades@, o);
            } else {
                let mid = choose|mid: OrderBook|
                    #[trigger] matched(before, mid, res.trades@, res.trades@, matched_as(o, before))
                        && after.order_map@ == mid.order_map@.insert(o.id, res.remaining_order->0)
                        && (as_matched(o, o.id).order_type == OrderType::Limit ==> added(
                        mid,
                        after,
                        res.remaining_order->0,
                    ));
                lemma_sweep(before, mid, res.trades@, res.trades@, o);
            }
        },
        Err(e) => {},
    }
}

/// The best bid of the book is below its best ask, when it has both.
pub open spec fn uncrossed(book: OrderBook) -> bool {
    match (book.best_bid(), book.best_ask()) {
        (Some(bid), Some(ask)) => bid < ask,
        _ => true,
    }
}

/// Every bid price is below every ask price.
pub open spec fn bids_below_asks(book: OrderBook) -> bool {
    forall|i: int, j: int|
        0 <= i < book.buy_levels@.len() && 0 <= j < book.sell_levels@.len() ==> (
        #[trigger] book.buy_levels@[i]).price < (#[trigger] book.sell_levels@[j]).price
}

/// In a well-formed book, the best bid is below the best ask exactly when
/// every bid is below every ask.
proof fn lemma_uncrossed_pairs(book: OrderBook)
    requires
        book.wf(),
    ensures
        uncrossed(book) <==> bids_below_asks(book),
{
    let b = book.buy_levels@;
    let a = book.sell_levels@;
    if b.len() > 0 && a.len() > 0 {
        if uncrossed(book) {
            assert forall|i: int, j: int| 0 <= i < b.len() && 0 <= j < a.len() implies (
            #[trigger] b[i]).price < (#[trigger] a[j]).price by {
                if i < b.len() - 1 {
                    assert(b[i].price < b[b.len() - 1].price);
                }
                if j > 0 {
                    assert(a[0].price < a[j].price);
                }
            }
        }
        if bids_below_asks(book) {
            assert(b[b.len() - 1].price < a[0].price);
        }
    }
}

/// Over a run of passes, the order's own side and the stop book stay as
/// they were, and the opposite side keeps only prices it had.
proof fn lemma_passes_keep(
    books: Seq<OrderBook>,
    runs: Seq<Seq<Trade>>,
    before: OrderBook,
    trades: Seq<Trade>,
    incoming: Order,
    k: int,
)
    requires
        passes_through(books, runs, before, trades, incoming),
        0 <= k < books.len(),
    ensures
        books[k].side_levels(incoming.side) == before.side_levels(incoming.side),
        books[k].stop_order_book == before.stop_order_book,
        opposite_prices(books[k], incoming.side).subset_of(opposite_prices(before, incoming.side)),
    decreases k,
{
    reveal(passes_through);
    let side = incoming.side;
    if k > 0 {
        lemma_passes_keep(books, runs, before, trades, incoming, k - 1);
        let j = k - 1;
        let p = books[j];
        let q = books[j + 1];
        assert(pass_step(
            books[j],
            books[j + 1],
            runs[j],
            incoming,
            incoming.remaining() - traded_quantity(runs.take(j).flatten_alt()),
        ));
        reveal(pass_step);
        let lv = p.side_levels(side.spec_opposite());
        let nv = q.side_levels(side.spec_opposite());
        let i = best_index(p, side);
        assert forall|x: u64| level_prices(nv).contains(x) implies level_prices(lv).contains(x) by {
            let m = choose|m: int| 0 <= m < nv.len() && nv[m].price == x;
            if nv.len() == lv.len() - 1 && same_orders(nv, lv.remove(i)) {
                assert(nv[m].price == lv.remove(i)[m].price);
                if m < i {
                    assert(lv[m].price == x);
                } else {
                    assert(lv[m + 1].price == x);
                }
            } else {
                assert(nv[m].price == lv[m].price);
            }
        }
    }
}

/// Recording a last trade in a book with no stop orders leaves its levels
/// and its stop book as they were.
proof fn lemma_recorded_without_stops(before: OrderBook, after: OrderBook, price: u64)
    requires
        before.no_stops(),
        crate::orderbook::last_trade_recorded(before, after, price),
    ensures
        after.buy_levels == before.buy_levels,
        after.sell_levels == before.sell_levels,
{
    assert(before.triggered_at(price) =~= Seq::<Order>::empty());
    let stops = choose|stops: crate::orderbook::stop_book::StopOrderBook|
        crate::orderbook::stop_book::StopOrderBook::removed_each(
            before.stop_order_book,
            stops,
            before.triggered_at(price).map_values(|o: Order| o.id),
        ) && #[trigger] crate::orderbook::fired_each(
            before.with_last_trade(stops, price),
            after,
            before.triggered_at(price),
            price,
        );
    let states = choose|states: Seq<OrderBook>|
        #[trigger] crate::orderbook::fired_through(
            states,
            before.with_last_trade(stops, price),
            after,
            before.triggered_at(price),
            price,
        );
    assert(states.len() == 1);
    assert(after == before.with_last_trade(stops, price));
}

/// The levels of a side after adding an order at `key` are at `key` or at
/// prices the side had.
proof fn lemma_add_prices(
    old: Seq<PriceLevel>,
    new: Seq<PriceLevel>,
    key: u64,
    order: Order,
    track_volume: bool,
)
    requires
        crate::orderbook::levels::side_after_add(old, new, key, order, track_volume),
    ensures
        forall|j: int|
            0 <= j < new.len() ==> (#[trigger] new[j]).price == key || level_prices(old).contains(
                new[j].price,
            ),
{
    match crate::orderbook::levels::find_level(old, key) {
        Some(i) => {
            assert forall|j: int| 0 <= j < new.len() implies (#[trigger] new[j]).price == key
                || level_prices(old).contains(new[j].price) by {
                if j != i {
                    assert(new[j] == old[j]);
                }
            }
        },
        None => {
            let w = choose|w: int|
                0 <= w <= old.len() && {
                    &&& new.len() == old.len() + 1
                    &&& forall|k: int| 0 <= k < w ==> new[k] == old[k]
                    &&& forall|k: int| w < k < new.len() ==> new[k] == old[k - 1]
                    &&& new[w].price == key
                    &&& new[w].orders@ == seq![order]
                    &&& track_volume ==> new[w].total_volume == crate::orderbook::price_level::sat_add(
                        0,
                        order.remaining(),
                    )
                    &&& track_volume ==> new[w].visible_volume
                        == crate::orderbook::price_level::sat_add(0, order.visible())
                };
            assert forall|j: int| 0 <= j < new.len() implies (#[trigger] new[j]).price == key
                || level_prices(old).contains(new[j].price) by {
                if j < w {
                    assert(new[j] == old[j]);
                } else if j > w {
                    assert(new[j] == old[j - 1]);
                }
            }
        },
    }
}

/// Matching an order against a book with no stop orders, over levels whose
/// orders each show all they have open: the order's own side stays as it
/// was, the opposite side keeps only prices it had, and an order left open
/// has nothing on the opposite side its limit allows at the best price.
proof fn lemma_matched_sides(
    before: OrderBook,
    after: OrderBook,
    trades: Seq<Trade>,
    all_trades: Seq<Trade>,
    incoming: Order,
)
    requires
        matched(before, after, trades, all_trades, incoming),
        before.no_stops(),
        incoming.fill_ok(),
        plain_levels(in_priority(before, incoming.side)),
        filled_levels(in_priority(before, incoming.side)),
    ensures
        after.side_levels(incoming.side) == before.side_levels(incoming.side),
        opposite_prices(after, incoming.side).subset_of(opposite_prices(before, incoming.side)),
        traded_quantity(trades) < incoming.remaining() ==> in_priority(after, incoming.side).len()
            == 0 || !eligible(incoming, in_priority(after, incoming.side)[0]),
{
    reveal(matched);
    let (books, runs) = choose|books: Seq<OrderBook>, runs: Seq<Seq<Trade>>|
        #[trigger] passes_through(books, runs, before, trades, incoming) && matching_stopped(
            books.last(),
            incoming,
            traded_quantity(trades),
        ) && if all_trades.len() > 0 {
            crate::orderbook::last_trade_recorded(books.last(), after, all_trades.last().price)
        } else {
            after == books.last()
        };
    reveal(passes_through);
    assert(runs.take(0) =~= Seq::<Seq<Trade>>::empty());
    lemma_sweep_from(books, runs, before, trades, incoming, 0);
    lemma_passes_keep(books, runs, before, trades, incoming, books.len() - 1);
    let last = books.last();
    if all_trades.len() > 0 {
        lemma_recorded_without_stops(last, after, all_trades.last().price);
    }
    assert(after.buy_levels@ == last.buy_levels@);
    assert(after.sell_levels@ == last.sell_levels@);
    assert(in_priority(after, incoming.side) == in_priority(last, incoming.side));
    assert(opposite_prices(after, incoming.side) == opposite_prices(last, incoming.side));
}

/// Placing a good-till-cancelled limit order in a book whose best bid is
/// below its best ask, that holds no stop orders and whose orders on the
/// side it meets each show all they have open, leaves the best bid below the
/// best ask: the order takes what it crosses and rests only where it crosses
/// nothing.
pub proof fn lemma_limit_placement_uncrossed(
    o: Order,
    before: OrderBook,
    after: OrderBook,
    r: Result<TradeExecutionResult, MatchingError>,
)
    requires
        placement(o, before, after, r),
        before.wf(),
        after.wf(),
        before.no_stops(),
        uncrossed(before),
        o.order_type == OrderType::Limit,
        o.time_in_force == TimeInForce::GTC,
        o.fill_ok(),
        plain_levels(in_priority(before, o.side)),
        filled_levels(in_priority(before, o.side)),
    ensures
        uncrossed(after),
{
    assert(matched_as(o, before) == o);
    assert(as_matched(o, o.id) == o);
    lemma_uncrossed_pairs(before);
    lemma_uncrossed_pairs(after);
    lemma_limit_placement_sweep(o, before, after, r);
    let res = r->Ok_0;
    let b0 = before.buy_levels@;
    let s0 = before.sell_levels@;
    let b2 = after.buy_levels@;
    let s2 = after.sell_levels@;
    let filled = o.filled_quantity + traded_quantity(res.trades@);
    if filled >= o.quantity {
        lemma_matched_sides(before, after, res.trades@, res.trades@, o);
        assert forall|i: int, j: int| 0 <= i < b2.len() && 0 <= j < s2.len() implies (
        #[trigger] b2[i]).price < (#[trigger] s2[j]).price by {
            if o.side == Side::Buy {
                assert(level_prices(s2).contains(s2[j].price));
                let m = choose|m: int| 0 <= m < s0.len() && s0[m].price == s2[j].price;
                assert(b0[i].price < s0[m].price);
            } else {
                assert(level_prices(b2).contains(b2[i].price));
                let m = choose|m: int| 0 <= m < b0.len() && b0[m].price == b2[i].price;
                assert(b0[m].price < s0[j].price);
            }
        }
    } else {
        let x = res.remaining_order->0;
        let mid = choose|mid: OrderBook|
            #[trigger] matched(before, mid, res.trades@, res.trades@, matched_as(o, before))
                && after.order_map@ == mid.order_map@.insert(o.id, x) && (as_matched(
                o,
                o.id,
            ).order_type == OrderType::Limit ==> added(mid, after, x));
        lemma_matched_sides(before, mid, res.trades@, res.trades@, o);
        assert(x.price == o.price && x.side == o.side);
        lemma_add_prices(mid.side_levels(o.side), after.side_levels(o.side), x.price, x, true);
        let b1 = mid.buy_levels@;
        let s1 = mid.sell_levels@;
        assert forall|i: int, j: int| 0 <= i < b2.len() && 0 <= j < s2.len() implies (
        #[trigger] b2[i]).price < (#[trigger] s2[j]).price by {
            if o.side == Side::Buy {
                assert(s2 == s1);
                assert(in_priority(mid, o.side) == s1);
                assert(o.price < s2[0].price);
                if j > 0 {
                    assert(s2[0].price < s2[j].price);
                }
                if b2[i].price != o.price {
                    assert(level_prices(b1).contains(b2[i].price));
                    let m0 = choose|m: int| 0 <= m < b1.len() && b1[m].price == b2[i].price;
                    assert(level_prices(s1).contains(s2[j].price));
                    let m1 = choose|m: int| 0 <= m < s0.len() && s0[m].price == s2[j].price;
                    assert(b0[m0].price < s0[m1].price);
                }
            } else {
                assert(b2 == b1);
                assert(in_priority(mid, o.side)[0] == b1[b1.len() - 1]);
                assert(b2[b2.len() - 1].price < o.price);
                if i < b2.len() - 1 {
                    assert(b2[i].price < b2[b2.len() - 1].price);
                }
                if s2[j].price != o.price {
                    assert(level_prices(s1).contains(s2[j].price));
                    let m1 = choose|m: int| 0 <= m < s1.len() && s1[m].price == s2[j].price;
                    assert(level_prices(b1).contains(b2[i].price));
                    let m0 = choose|m: int| 0 <= m < b0.len() && b0[m].price == b2[i].price;
                    assert(b0[m0].price < s0[m1].price);
                }
            }
        }
    }
}

/// The orders of every level that an incoming order on `side` meets in a
/// well-formed book have no more filled than ordered.
proof fn lemma_priority_fill_ok(book: OrderBook, side: Side)
    requires
        book.wf(),
    ensures
        forall|j: int|
            0 <= j < in_priority(book, side).len() ==> all_fill_ok(
                #[trigger] in_priority(book, side)[j].orders@,
            ),
{
    let p = in_priority(book, side);
    assert forall|j: int| 0 <= j < p.len() implies all_fill_ok(#[trigger] p[j].orders@) by {
        if side == Side::Sell {
            let b = book.buy_levels@;
            assert(p[j] == b[b.len() - 1 - j]);
            assert(levels_ok(b));
        } else {
            assert(levels_ok(book.sell_levels@));
        }
    }
}

/// Fill-or-kill limit orders are refused exactly when the sweep cannot fill
/// them: against levels whose orders each show all they have open, such an
/// order fails with `FOKCannotBeFilled` exactly when it may not take from
/// the best opposite level or the open quantity it can reach, over all the
/// levels its limit allows, is below its quantity.
pub proof fn lemma_fok_limit_refusal(
    o: Order,
    before: OrderBook,
    after: OrderBook,
    r: Result<TradeExecutionResult, MatchingError>,
)
    requires
        placement(o, before, after, r),
        before.wf(),
        o.order_type == OrderType::Limit,
        o.time_in_force == TimeInForce::FOK,
        o.fill_ok(),
        plain_levels(in_priority(before, o.side)),
        filled_levels(in_priority(before, o.side)),
    ensures
        r == Err::<TradeExecutionResult, MatchingError>(MatchingError::FOKCannotBeFilled) <==> !(
        in_priority(before, o.side).len() > 0 && eligible(o, in_priority(before, o.side)[0])
            && reachable(in_priority(before, o.side), o) >= o.quantity),
{
    let p = in_priority(before, o.side);
    assert(matched_as(o, before) == o);
    assert(priced(o, before) == o);
    lemma_priority_fill_ok(before, o.side);
    lemma_fillable_is_reach(p, o);
    if fillable(p, o) {
        if r == Err::<TradeExecutionResult, MatchingError>(MatchingError::FOKCannotBeFilled) {
            let trades = choose|trades: Seq<Trade>|
                #[trigger] matched(before, after, trades, trades, matched_as(o, before))
                    && o.filled_quantity + traded_quantity(trades) < o.quantity;
            lemma_sweep(before, after, trades, trades, o);
        }
    }
}

/// Trades that fit one order fit any order with the same id, side and type,
/// and, for a limit order, the same price.
pub proof fn lemma_trades_fit_same(trades: Seq<Trade>, first_id: int, a: Order, b: Order)
    requires
        trades_fit(trades, first_id, a),
        a.id == b.id,
        a.side == b.side,
        a.order_type == b.order_type,
        a.order_type == OrderType::Limit ==> a.price == b.price,
    ensures
        trades_fit(trades, first_id, b),
{
}

/// What placing `new_order` does to the engine (`before` and `after`
/// around the call, `r` the result): an order for a symbol the engine has
/// no book for is refused with `SymbolNotFound` and nothing changes;
/// otherwise the order takes the next order id and is placed in its
/// symbol's book as `placement` says, the other books untouched, its trades
/// taking the next trade ids, each at a price at which orders rested on the
/// other side when the order came in, best price first, the first of them
/// with the oldest order at the best price when that one shows quantity.
pub open spec fn placed(
    before: MatchingEngine,
    after: MatchingEngine,
    new_order: Order,
    r: Result<TradeExecutionResult, MatchingError>,
) -> bool {
    &&& (r == Err::<TradeExecutionResult, MatchingError>(MatchingError::SymbolNotFound))
            == before.book_index(new_order.symbol@).is_none()
    &&& before.book_index(new_order.symbol@).is_none() ==> after == before
    &&& before.book_index(new_order.symbol@).is_some() ==> {
            let i = before.book_index(new_order.symbol@).unwrap();
            let id = before.next_order_id;
            &&& after.next_order_id == id + 1
            &&& after.order_books@.len() == before.order_books@.len()
            &&& forall|k: int|
                0 <= k < before.order_books@.len() && k != i ==> after.order_books@[k]
                    == before.order_books@[k]
            &&& after.next_trade_id >= before.next_trade_id
            &&& placement(
                Order { id, ..new_order },
                before.order_books@[i],
                after.order_books@[i],
                r,
            )
            &&& r matches Ok(res) ==> {
                &&& result_orders_ok(res)
                &&& priced_within(res.trades@, opposite_prices(before.order_books@[i], new_order.side))
                &&& best_first(res.trades@, new_order.side)
                &&& !waits(new_order, before.order_books@[i]) && meets_best_at_once(
                    before.order_books@[i],
                    priced(as_matched(new_order, id), before.order_books@[i]),
                ) ==> res.trades@.len() > 0 && counterpart(res.trades@[0], new_order.side)
                    == before.order_books@[i].best_opposite_level(new_order.side).orders@[0].id
                    && opens_in_queue_order(
                    res.trades@,
                    before.order_books@[i].best_opposite_level(new_order.side).orders@,
                    new_order.side,
                ) && opens_with_pass(
                    res.trades@,
                    before.order_books@[i].best_opposite_level(new_order.side).orders@,
                    new_order.side,
                    new_order.remaining(),
                )
                &&& trades_fit(
                    res.trades@,
                    before.next_trade_id as int,
                    as_matched(new_order, id),
                )
                &&& after.next_trade_id == before.next_trade_id + res.trades@.len()
                &&& traded_quantity(res.trades@) <= new_order.remaining()
            }
        }
}

impl MatchingEngine {
    /// Putting a book back at its place, with its symbol unchanged and well
    /// formed, keeps the engine well formed.
    proof fn lemma_put_book_back(old_books: Seq<OrderBook>, new_books: Seq<OrderBook>, i: int)
        requires
            forall|k: int| 0 <= k < old_books.len() ==> (#[trigger] old_books[k]).wf(),
            forall|a: int, b: int|
                0 <= a < b < old_books.len() ==> (#[trigger] old_books[a]).symbol@ != (
                #[trigger] old_books[b]).symbol@,
            0 <= i < old_books.len(),
            new_books.len() == old_books.len(),
            forall|k: int| 0 <= k < old_books.len() && k != i ==> new_books[k] == old_books[k],
            new_books[i].symbol == old_books[i].symbol,
            new_books[i].wf(),
        ensures
            forall|k: int| 0 <= k < new_books.len() ==> (#[trigger] new_books[k]).wf(),
            forall|a: int, b: int|
                0 <= a < b < new_books.len() ==> (#[trigger] new_books[a]).symbol@ != (
                #[trigger] new_books[b]).symbol@,
    {
        assert forall|k: int| 0 <= k < new_books.len() implies (#[trigger] new_books[k]).wf() by {
            if k != i {
                assert(new_books[k] == old_books[k]);
            }
        }
        assert forall|a: int, b: int|
            0 <= a < b < new_books.len() implies (#[trigger] new_books[a]).symbol@ != (
            #[trigger] new_books[b]).symbol@ by {
            assert(old_books[a].symbol@ != old_books[b].symbol@);
            if a != i {
                assert(new_books[a] == old_books[a]);
            }
            if b != i {
                assert(new_books[b] == old_books[b]);
            }
        }
    }

    /// Places an order. The engine has no book for its symbol:
    /// `SymbolNotFound`, nothing changed. Otherwise the order gets the next
    /// order id and then, in its symbol's book:
    /// - a market order takes the best opposite price as its price, or fails
    ///   with `NoLiquidity` when the opposite side is empty;
    /// - an immediate-or-cancel or fill-or-kill order matches and never
    ///   rests: a fill-or-kill order the book cannot fill in full (see
    ///   `can_fill_order`) is refused with `FOKCannotBeFilled` before any
    ///   trade; after matching, a filled order is marked `Filled` and
    ///   returned among the filled orders, an immediate-or-cancel order that
    ///   is not is marked `Canceled` and returned the same way, a
    ///   fill-or-kill one that is not fails with `FOKCannotBeFilled`;
    /// - a stop order whose stop the last trade price has reached becomes a
    ///   limit or market order and matches; one whose stop it has not reached
    ///   waits in the stop book and is returned as the remaining order;
    /// - any other order matches.
    /// After matching, a filled order joins the filled orders; a limit or
    /// iceberg order with quantity left rests in the book and is returned as
    /// the remaining order (an iceberg's level has its shown volume
    /// replenished); any other order with quantity left fails with
    /// `NoLiquidity`.
    pub fn place_order(&mut self, new_order: Order) -> (r: Result<TradeExecutionResult, MatchingError>)
        requires
            old(self).wf(),
            new_order.fill_ok(),
            old(self).next_order_id < u64::MAX,
            old(self).next_trade_id + new_order.quantity <= u64::MAX,
        ensures
            final(self).wf(),
            placed(*old(self), *final(self), new_order, r),
    {
        let idx = match self.find_book(&new_order.symbol) {
            Some(i) => i,
            None => {
                return Err(MatchingError::SymbolNotFound);
            },
        };
        let mut order = new_order;
        order.id = self.next_order_id;
        self.next_order_id = self.next_order_id + 1;
        let ghost books_before = self.order_books@;
        let mut book = self.order_books.remove(idx);
        proof {
            assert(book == books_before[idx as int]);
        }
        let ghost book_before = book;
        let ghost placed = order;
        let outcome = Self::place_in_book(&mut self.next_trade_id, &mut book, order);
        self.order_books.insert(idx, book);
        proof {
            Self::lemma_put_book_back(books_before, self.order_books@, idx as int);
            assert forall|k: int|
                0 <= k < books_before.len() && k != idx implies self.order_books@[k]
                == books_before[k] by {}
        }
        proof {
            assert(outcome != Err::<TradeExecutionResult, MatchingError>(
                MatchingError::SymbolNotFound,
            ));
        }
        outcome
    }

    /// The work of `place_order` once the order has its id and its book.
    fn place_in_book(next_trade_id: &mut u64, order_book: &mut OrderBook, order: Order) -> (r:
        Result<TradeExecutionResult, MatchingError>)
        requires
            old(order_book).wf(),
            order.fill_ok(),
            *old(next_trade_id) + order.quantity <= u64::MAX,
        ensures
            final(order_book).wf(),
            final(order_book).symbol == old(order_book).symbol,
            r != Err::<TradeExecutionResult, MatchingError>(MatchingError::SymbolNotFound),
            placement(order, *old(order_book), *final(order_book), r),
            r matches Ok(res) ==> result_orders_ok(res),
            r matches Ok(res) ==> priced_within(res.trades@, opposite_prices(*old(order_book), order.side)),
            r matches Ok(res) ==> best_first(res.trades@, order.side),
            r matches Ok(res) ==> (!waits(order, *old(order_book)) && meets_best_at_once(
                *old(order_book),
                priced(as_matched(order, order.id), *old(order_book)),
            ) ==> res.trades@.len() > 0 && counterpart(res.trades@[0], order.side) == old(
                order_book,
            ).best_opposite_level(order.side).orders@[0].id && opens_in_queue_order(
                res.trades@,
                old(order_book).best_opposite_level(order.side).orders@,
                order.side,
            ) && opens_with_pass(
                res.trades@,
                old(order_book).best_opposite_level(order.side).orders@,
                order.side,
                order.remaining(),
            )),
            *final(next_trade_id) >= *old(next_trade_id),
            r matches Ok(res) ==> {
                &&& trades_fit(res.trades@, *old(next_trade_id) as int, as_matched(order, order.id))
                &&& *final(next_trade_id) == *old(next_trade_id) + res.trades@.len()
                &&& traded_quantity(res.trades@) <= order.remaining()
            },
    {
        let mut result = TradeExecutionResult::new();
        let mut order = order;
        let ghost original = order;
        if order.order_type == OrderType::Market {
            match order.side {
                Side::Buy => match order_book.get_best_ask_price() {
                    Some(p) => {
                        order.price = p;
                    },
                    None => {
                        result.rejected = true;
                        return Err(MatchingError::NoLiquidity);
                    },
                },
                Side::Sell => match order_book.get_best_bid_price() {
                    Some(p) => {
                        order.price = p;
                    },
                    None => {
                        result.rejected = true;
                        return Err(MatchingError::NoLiquidity);
                    },
                },
            }
        }
        let time_in_force = order.time_in_force;
        let is_stop_order = order.is_stop_order();
        let ghost before_match = order;
        let ghost mut matched_order = order;
        if time_in_force == TimeInForce::IOC || time_in_force == TimeInForce::FOK {
            if time_in_force == TimeInForce::FOK {
                let can_fill = match Self::can_fill_order(order_book, &order) {
                    Ok(b) => b,
                    Err(e) => {
                        return Err(e);
                    },
                };
                if !can_fill {
                    result.rejected = true;
                    order.status = OrderStatus::Rejected;
                    return Err(MatchingError::FOKCannotBeFilled);
                }
            }
            let ghost book_at_match = *order_book;
            let ghost remaining_at_match = order.remaining();
            let ghost order_at_match = order;
            match Self::match_order(next_trade_id, order_book, &mut order, &mut result) {
                Ok(()) => {},
                Err(e) => {
                    return Err(e);
                },
            }
            proof {
                assert(result.trades@.skip(0) =~= result.trades@);
                assert(book_at_match == *old(order_book));
                assert(remaining_at_match == original.remaining());
                assert(matched(
                    *old(order_book),
                    *order_book,
                    result.trades@,
                    result.trades@,
                    order_at_match,
                ));
                assert(order_at_match == matched_as(original, *old(order_book)));
            }
            if order.is_filled() {
                order.status = OrderStatus::Filled;
            } else if time_in_force == TimeInForce::IOC {
                order.status = OrderStatus::Canceled;
            } else {
                order.status = OrderStatus::Rejected;
                result.rejected = true;
                proof {
                    assert(original.filled_quantity + traded_quantity(result.trades@)
                        < original.quantity);
                    assert(matched(
                        *old(order_book),
                        *order_book,
                        result.trades@,
                        result.trades@,
                        matched_as(original, *old(order_book)),
                    ));
                }
                return Err(MatchingError::FOKCannotBeFilled);
            }
            result.filled_orders.push(order);
            result.remaining_order = None;
            proof {
                assert(result.trades@.skip(0) =~= result.trades@);
                lemma_trades_fit_same(
                    result.trades@,
                    *old(next_trade_id) as int,
                    before_match,
                    as_matched(original, original.id),
                );
            }
            return Ok(result);
        } else if is_stop_order {
            let should_trigger = match order_book.last_trade_price {
                Some(last_price) => order.is_stop_triggered(last_price),
                None => false,
            };
            if should_trigger {
                if order.order_type == OrderType::StopMarket {
                    order.order_type = OrderType::Market;
                } else if order.order_type == OrderType::StopLimit {
                    order.order_type = OrderType::Limit;
                }
                proof {
                    matched_order = order;
                }
                let ghost book_at_match = *order_book;
                let ghost remaining_at_match = order.remaining();
                let ghost order_at_match = order;
                match Self::match_order(next_trade_id, order_book, &mut order, &mut result) {
                    Ok(()) => {},
                    Err(e) => {
                        return Err(e);
                    },
                }
                proof {
                    assert(result.trades@.skip(0) =~= result.trades@);
                    assert(book_at_match == *old(order_book));
                    assert(remaining_at_match == original.remaining());
                    assert(matched(
                        *old(order_book),
                        *order_book,
                        result.trades@,
                        result.trades@,
                        order_at_match,
                    ));
                    assert(order_at_match == matched_as(original, *old(order_book)));
                }
            } else {
                match order_book.add_stop_order(order.clone()) {
                    Ok(()) => {},
                    Err(msg) => {
                        return Err(MatchingError::from_message(msg));
                    },
                }
                result.remaining_order = Some(order);
                return Ok(result);
            }
        } else {
            let ghost book_at_match = *order_book;
            let ghost remaining_at_match = order.remaining();
            let ghost order_at_match = order;
            match Self::match_order(next_trade_id, order_book, &mut order, &mut result) {
                Ok(()) => {},
                Err(e) => {
                    return Err(e);
                },
            }
            proof {
                assert(result.trades@.skip(0) =~= result.trades@);
                assert(book_at_match == *old(order_book));
                assert(remaining_at_match == original.remaining());
                assert(matched(
                    *old(order_book),
                    *order_book,
                    result.trades@,
                    result.trades@,
                    order_at_match,
                ));
                assert(order_at_match == matched_as(original, *old(order_book)));
            }
        }
        if order.is_filled() {
            let mut already_added = false;
            let mut k: usize = 0;
            while k < result.filled_orders.len()
                invariant
                    k <= result.filled_orders@.len(),
                decreases result.filled_orders.len() - k,
            {
                if result.filled_orders[k].id == order.id {
                    already_added = true;
                }
                k += 1;
            }
            if !already_added {
                result.filled_orders.push(order);
            }
        } else if order.order_type == OrderType::Limit || order.order_type == OrderType::Iceberg {
            let ghost mid = *order_book;
            let _ = order_book.add_order(order.clone());
            proof {
                crate::orderbook::lemma_added_order_rests(mid, *order_book, order);
                assert(crate::orderbook::added(mid, *order_book, order));
            }
            result.remaining_order = Some(order.clone());
            if order.order_type == OrderType::Iceberg {
                let ghost mid2 = *order_book;
                proof {
                    let before_side = mid.side_levels(order.side);
                    let side = mid2.side_levels(order.side);
                    match crate::orderbook::levels::find_level(before_side, order.price) {
                        Some(i) => {
                            assert(side[i].price == order.price);
                        },
                        None => {
                            let j = choose|j: int|
                                0 <= j <= before_side.len() && {
                                    &&& side.len() == before_side.len() + 1
                                    &&& forall|k: int| 0 <= k < j ==> side[k] == before_side[k]
                                    &&& forall|k: int| j < k < side.len() ==> side[k] == before_side[k - 1]
                                    &&& side[j].price == order.price
                                    &&& side[j].orders@ == seq![order]
                                    &&& side[j].total_volume == crate::orderbook::price_level::sat_add(0, order.remaining())
                                    &&& side[j].visible_volume == crate::orderbook::price_level::sat_add(0, order.visible())
                                };
                            assert(side[j].price == order.price);
                        },
                    }
                    assert(crate::orderbook::levels::find_level(side, order.price) is Some);
                }
                match order_book.replenish_iceberg_order(&order) {
                    Ok(()) => {},
                    Err(msg) => {
                        return Err(MatchingError::from_message(msg));
                    },
                }
                proof {
                    let side = mid2.side_levels(order.side);
                    let new_side = order_book.side_levels(order.side);
                    let i = crate::orderbook::levels::find_level(side, order.price).unwrap();
                    assert(new_side[i].price == order.price);
                    assert(new_side[i].orders@ == side[i].orders@);
                    crate::orderbook::levels::lemma_find_level_unique(new_side, order.price, i);
                    assert(order_book.resting(order.id));
                }
            }
        } else {
            result.remaining_order = Some(order);
            return Err(MatchingError::NoLiquidity);
        }
        proof {
            assert(result.trades@.skip(0) =~= result.trades@);
            if result.trades@.len() > 0 {
                lemma_trades_fit_same(
                    result.trades@,
                    *old(next_trade_id) as int,
                    matched_order,
                    as_matched(original, original.id),
                );
            }
        }
        Ok(result)
    }
}

impl MatchingEngine {
    /// Matches an immediate-or-cancel order in its symbol's book: whatever
    /// is left open is canceled, and the order comes back last among the
    /// filled orders, marked `Canceled` unless it was filled.
    fn process_ioc_order(&mut self, order: Order) -> (r: Result<TradeExecutionResult, MatchingError>)
        requires
            old(self).wf(),
            order.fill_ok(),
            old(self).book_index(order.symbol@).is_some(),
            old(self).next_trade_id + order.remaining() <= u64::MAX,
        ensures
            final(self).wf(),
            final(self).next_order_id == old(self).next_order_id,
            r matches Ok(res) && {
                &&& res.remaining_order is None
                &&& res.filled_orders@.len() > 0
                &&& res.filled_orders@.last().id == order.id
                &&& res.filled_orders@.last().filled_quantity == order.filled_quantity
                    + traded_quantity(res.trades@)
                &&& !res.filled_orders@.last().filled() ==> res.filled_orders@.last().status
                    == OrderStatus::Canceled
                &&& trades_fit(res.trades@, old(self).next_trade_id as int, order)
                &&& final(self).next_trade_id == old(self).next_trade_id + res.trades@.len()
            },
    {
        let mut result = TradeExecutionResult::new();
        let idx = match self.find_book(&order.symbol) {
            Some(i) => i,
            None => {
                return Err(MatchingError::SymbolNotFound);
            },
        };
        let ghost books_before = self.order_books@;
        let mut book = self.order_books.remove(idx);
        proof {
            assert(book == books_before[idx as int]);
        }
        let mut order = order;
        let ghost start = order;
        let _ = Self::match_order(&mut self.next_trade_id, &mut book, &mut order, &mut result);
        if !order.is_filled() {
            order.status = OrderStatus::Canceled;
        }
        self.order_books.insert(idx, book);
        proof {
            Self::lemma_put_book_back(books_before, self.order_books@, idx as int);
            assert(result.trades@.skip(0) =~= result.trades@);
        }
        result.filled_orders.push(order);
        result.remaining_order = None;
        Ok(result)
    }

    /// Fires a stop-market order at `trigger_price`: it becomes a market
    /// order at the best opposite price (`NoLiquidity` when there is none),
    /// matches, the book records `trigger_price` as its last trade price,
    /// and the order comes back among the filled orders.
    fn process_stop_market_order(&mut self, order: Order, trigger_price: u64) -> (r: Result<
        TradeExecutionResult,
        MatchingError,
    >)
        requires
            old(self).wf(),
            order.fill_ok(),
            old(self).book_index(order.symbol@).is_some(),
            old(self).next_trade_id + order.remaining() <= u64::MAX,
        ensures
            final(self).wf(),
            final(self).next_order_id == old(self).next_order_id,
            ({
                let book = old(self).order_books@[old(self).book_index(order.symbol@).unwrap()];
                book.best_opposite(order.side) is None ==> r == Err::<
                    TradeExecutionResult,
                    MatchingError,
                >(MatchingError::NoLiquidity) && *final(self) == *old(self)
            }),
            r matches Ok(res) ==> {
                &&& res.remaining_order is None
                &&& res.filled_orders@.len() > 0
                &&& res.filled_orders@.last().id == order.id
                &&& res.filled_orders@.last().order_type == OrderType::Market
                &&& res.filled_orders@.last().filled_quantity == order.filled_quantity
                    + traded_quantity(res.trades@)
                &&& final(self).order_books@[old(self).book_index(order.symbol@).unwrap()].last_trade_price
                    == Some(trigger_price)
                &&& final(self).next_trade_id == old(self).next_trade_id + res.trades@.len()
            },
    {
        let mut result = TradeExecutionResult::new();
        let idx = match self.find_book(&order.symbol) {
            Some(i) => i,
            None => {
                return Err(MatchingError::SymbolNotFound);
            },
        };
        let mut order = order;
        order.order_type = OrderType::Market;
        let best = match order.side {
            Side::Buy => self.order_books[idx].get_best_ask_price(),
            Side::Sell => self.order_books[idx].get_best_bid_price(),
        };
        match best {
            Some(price) => {
                order.price = price;
            },
            None => {
                return Err(MatchingError::NoLiquidity);
            },
        }
        let ghost books_before = self.order_books@;
        let mut book = self.order_books.remove(idx);
        proof {
            assert(book == books_before[idx as int]);
        }
        let _ = Self::match_order(&mut self.next_trade_id, &mut book, &mut order, &mut result);
        let _ = book.update_last_trade_price(trigger_price);
        self.order_books.insert(idx, book);
        proof {
            Self::lemma_put_book_back(books_before, self.order_books@, idx as int);
            assert(result.trades@.skip(0) =~= result.trades@);
        }
        result.filled_orders.push(order);
        Ok(result)
    }

    /// Fires a stop order at `trigger_price`: a stop-market order as
    /// `process_stop_market_order` does; a stop-limit order becomes a limit
    /// order and matches, the book records `trigger_price` as its last
    /// trade price, and the order rests and comes back as the remaining
    /// order unless it was filled; any other order is refused with an
    /// internal error.
    fn process_triggered_stop_order(&mut self, order: Order, trigger_price: u64) -> (r: Result<
        TradeExecutionResult,
        MatchingError,
    >)
        requires
            old(self).wf(),
            order.fill_ok(),
            old(self).book_index(order.symbol@).is_some(),
            old(self).next_trade_id + order.remaining() <= u64::MAX,
        ensures
            final(self).wf(),
            final(self).next_order_id == old(self).next_order_id,
            order.order_type != OrderType::StopMarket && order.order_type != OrderType::StopLimit
                ==> (r matches Err(MatchingError::InternalError(m)) && m@ == "Invalid stop order type"@)
                && *final(self) == *old(self),
            order.order_type == OrderType::StopLimit ==> (r matches Ok(res) && {
                &&& res.trades@.len() == final(self).next_trade_id - old(self).next_trade_id
                &&& order.filled_quantity + traded_quantity(res.trades@) < order.quantity
                    ==> (res.remaining_order matches Some(x) && x.id == order.id && x.order_type
                    == OrderType::Limit)
                &&& order.filled_quantity + traded_quantity(res.trades@) >= order.quantity
                    ==> res.remaining_order is None && res.filled_orders@.len() > 0
                    && res.filled_orders@.last().id == order.id
                &&& final(self).order_books@[old(self).book_index(order.symbol@).unwrap()].last_trade_price
                    == Some(trigger_price)
            }),
    {
        match order.order_type {
            OrderType::StopMarket => self.process_stop_market_order(order, trigger_price),
            OrderType::StopLimit => {
                let mut result = TradeExecutionResult::new();
                let idx = match self.find_book(&order.symbol) {
                    Some(i) => i,
                    None => {
                        return Err(MatchingError::SymbolNotFound);
                    },
                };
                let ghost books_before = self.order_books@;
                let mut book = self.order_books.remove(idx);
                proof {
                    assert(book == books_before[idx as int]);
                }
                let mut order = order;
                order.order_type = OrderType::Limit;
                let _ = Self::match_order(&mut self.next_trade_id, &mut book, &mut order, &mut result);
                let _ = book.update_last_trade_price(trigger_price);
                proof {
                    assert(result.trades@.skip(0) =~= result.trades@);
                }
                if !order.is_filled() {
                    let _ = book.add_order(order.clone());
                    result.remaining_order = Some(order);
                } else {
                    result.filled_orders.push(order);
                }
                self.order_books.insert(idx, book);
                proof {
                    Self::lemma_put_book_back(books_before, self.order_books@, idx as int);
                }
                Ok(result)
            },
            _ => Err(MatchingError::from_message("Invalid stop order type")),
        }
    }
}

impl MatchingEngine {
    /// Cancels an order of the symbol's book: removes it as
    /// `OrderBook::cancel_order` does and returns it marked `Canceled`.
    /// `None`, with nothing changed, when the engine has no such book.
    #[verifier::spinoff_prover]
    #[verifier::rlimit(50)]
    pub fn cancel_order(&mut self, symbol: &str, order_id: u64) -> (r: Option<Order>)
        requires
            old(self).wf(),
        ensures
            final(self).wf(),
            final(self).next_order_id == old(self).next_order_id,
            final(self).next_trade_id == old(self).next_trade_id,
            final(self).order_books@.len() == old(self).order_books@.len(),
            old(self).book_index(symbol@).is_none() ==> r.is_none() && final(self).order_books@
                == old(self).order_books@,
            r matches Some(o) ==> o.id == order_id && o.status == OrderStatus::Canceled,
            old(self).book_index(symbol@) matches Some(i) ==> {
                &&& forall|k: int|
                    0 <= k < old(self).order_books@.len() && k != i ==> final(self).order_books@[k]
                        == old(self).order_books@[k]
                &&& old(self).order_books@[i].resting(order_id) ==> {
                    &&& r.is_some()
                    &&& final(self).order_books@[i].order_map@ == old(
                        self,
                    ).order_books@[i].order_map@.remove(order_id)
                }
                &&& exists|c: Option<Order>|
                    #[trigger] crate::orderbook::canceled_from(
                        old(self).order_books@[i],
                        final(self).order_books@[i],
                        order_id,
                        c,
                    ) && r == match c {
                        Some(o) => Some(Order { status: OrderStatus::Canceled, ..o }),
                        None => None,
                    }
            },
    {
        let key = symbol.to_owned();
        let idx = match self.find_book(&key) {
            Some(i) => i,
            None => {
                return None;
            },
        };
        let ghost books_before = self.order_books@;
        let mut book = self.order_books.remove(idx);
        proof {
            assert(book == books_before[idx as int]);
        }
        let canceled = book.cancel_order(order_id);
        self.order_books.insert(idx, book);
        proof {
            Self::lemma_put_book_back(books_before, self.order_books@, idx as int);
            assert forall|k: int|
                0 <= k < books_before.len() && k != idx implies self.order_books@[k]
                == books_before[k] by {}
            assert(crate::orderbook::canceled_from(
                books_before[idx as int],
                self.order_books@[idx as int],
                order_id,
                canceled,
            ));
        }
        match canceled {
            Some(mut o) => {
                o.status = OrderStatus::Canceled;
                Some(o)
            },
            None => None,
        }
    }

    /// Expires, in every book, the orders expired at the current time (see
    /// `expire_orders_at`) and returns them all. Always `Ok`.
    pub fn process_expired_orders(&mut self) -> (r: Result<Vec<Order>, MatchingError>)
        requires
            old(self).wf(),
        ensures
            final(self).wf(),
            final(self).next_order_id == old(self).next_order_id,
            final(self).next_trade_id == old(self).next_trade_id,
            final(self).order_books@.len() == old(self).order_books@.len(),
            r matches Ok(v) && exists|t: i64|
                #[trigger] expired_at_time(old(self).order_books@, final(self).order_books@, t, v@),
    {
        let current_time = Order::get_nano_timestamp();
        let r = self.expire_orders_at(current_time);
        proof {
            if let Ok(v) = &r {
                assert(expired_at_time(old(self).order_books@, self.order_books@, current_time, v@));
            }
        }
        r
    }

    /// Expires, in every book in turn, the orders expired at `current_time`
    /// (see `OrderBook::expire_orders`) and returns them all, book after
    /// book. Always `Ok`.
    pub fn expire_orders_at(&mut self, current_time: i64) -> (r: Result<Vec<Order>, MatchingError>)
        requires
            old(self).wf(),
        ensures
            final(self).wf(),
            final(self).next_order_id == old(self).next_order_id,
            final(self).next_trade_id == old(self).next_trade_id,
            final(self).order_books@.len() == old(self).order_books@.len(),
            r matches Ok(v) && expired_at_time(
                old(self).order_books@,
                final(self).order_books@,
                current_time,
                v@,
            ),
    {

        let mut expired_orders: Vec<Order> = Vec::new();
        let mut i: usize = 0;
        while i < self.order_books.len()
            invariant
                self.wf(),
                i <= self.order_books@.len(),
                self.order_books@.len() == old(self).order_books@.len(),
                self.next_order_id == old(self).next_order_id,
                self.next_trade_id == old(self).next_trade_id,
                forall|k: int|
                    0 <= k < expired_orders@.len() ==> (#[trigger] expired_orders@[k]).status
                        == OrderStatus::Expired && expired_in_some_book(
                        old(self).order_books@,
                        current_time,
                        expired_orders@[k].id,
                    ),
                forall|k: int|
                    i <= k < self.order_books@.len() ==> self.order_books@[k] == old(
                        self,
                    ).order_books@[k],
                forall|b: int, id: u64|
                    0 <= b < i && #[trigger] old(self).order_books@[b].expired_ids(current_time).contains(id) && old(self).order_books@[b].resting(id)
                        ==> !self.order_books@[b].order_map@.contains_key(id) && exists|k: int|
                        0 <= k < expired_orders@.len() && (#[trigger] expired_orders@[k]).id == id,
                forall|b: int, id: u64|
                    0 <= b < i && #[trigger] old(self).order_books@[b].order_map@.contains_key(id)
                        && !old(self).order_books@[b].expired_ids(current_time).contains(id)
                        ==> self.order_books@[b].order_map@.contains_key(id)
                        && self.order_books@[b].order_map@[id] == old(self).order_books@[b].order_map@[id],
            decreases self.order_books.len() - i,
        {
            let ghost books_before = self.order_books@;
            let mut book = self.order_books.remove(i);
            proof {
                assert(book == books_before[i as int]);
            }
            let mut book_expired = book.expire_orders(current_time);
            self.order_books.insert(i, book);
            proof {
                Self::lemma_put_book_back(books_before, self.order_books@, i as int);
                assert(old(self).order_books@[i as int] == books_before[i as int]);
                assert forall|b: int, id: u64|
                    0 <= b < i + 1 && #[trigger] old(self).order_books@[b].order_map@.contains_key(id)
                        && !old(self).order_books@[b].expired_ids(current_time).contains(id)
                        implies self.order_books@[b].order_map@.contains_key(id)
                        && self.order_books@[b].order_map@[id] == old(self).order_books@[b].order_map@[id] by {
                    if b < i {
                        assert(self.order_books@[b] == books_before[b]);
                    }
                }
            }
            let ghost before_append = expired_orders@;
            let ghost added = book_expired@;
            expired_orders.append(&mut book_expired);
            proof {
                assert forall|b: int, id: u64|
                    0 <= b < i + 1 && #[trigger] old(self).order_books@[b].expired_ids(current_time).contains(id) && old(self).order_books@[b].resting(id)
                        implies !self.order_books@[b].order_map@.contains_key(id) && exists|k: int|
                        0 <= k < expired_orders@.len() && (#[trigger] expired_orders@[k]).id == id by {
                    if b < i {
                        assert(self.order_books@[b] == books_before[b]);
                        let k = choose|k: int| 0 <= k < before_append.len() && (#[trigger] before_append[k]).id == id;
                        assert(expired_orders@[k] == before_append[k]);
                    } else {
                        let k = choose|k: int| 0 <= k < added.len() && (#[trigger] added[k]).id == id;
                        assert(expired_orders@[before_append.len() + k] == added[k]);
                    }
                }
                assert forall|k: int| 0 <= k < expired_orders@.len() implies (
                #[trigger] expired_orders@[k]).status == OrderStatus::Expired
                    && expired_in_some_book(old(self).order_books@, current_time, expired_orders@[k].id) by {
                    if k >= before_append.len() {
                        assert(expired_orders@[k] == added[k - before_append.len()]);
                        assert(old(self).order_books@[i as int] == books_before[i as int]);
                    }
                }
            }
            i += 1;
        }
        Ok(expired_orders)
    }
}

} // verus!
