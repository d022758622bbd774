//! The order book of one symbol: buy and sell levels in price order, the map
//! of every order it has taken in, and the stop orders waiting to fire.

pub mod levels;
pub mod price_level;
pub mod stop_book;

use crate::order::{Order, OrderStatus, OrderType, Side};
use levels::{
    add_to_side, level_prices, lemma_add_keeps_fit, lemma_remove_keeps_fit, locate, remove_from_side,
    side_after_add, side_after_remove, side_fits,
};
use price_level::PriceLevel;
use std::collections::HashMap;
use stop_book::{gather, StopOrderBook};
use vstd::prelude::*;
use vstd::std_specs::iter::IteratorSpec;

verus! {

broadcast use vstd::std_specs::hash::group_hash_axioms;

/// The highest price of a sorted side, if it has any level.
pub open spec fn highest(levels: Seq<PriceLevel>) -> Option<u64> {
    if levels.len() == 0 {
        None
    } else {
        Some(levels[levels.len() - 1].price)
    }
}

/// The lowest price of a sorted side, if it has any level.
pub open spec fn lowest(levels: Seq<PriceLevel>) -> Option<u64> {
    if levels.len() == 0 {
        None
    } else {
        Some(levels[0].price)
    }
}

/// The ids of a sequence of orders.
pub open spec fn ids_of(orders: Seq<Order>) -> Set<u64> {
    Set::new(|id: u64| exists|k: int| 0 <= k < orders.len() && (#[trigger] orders[k]).id == id)
}

pub struct OrderBook {
    pub symbol: String,
    /// Buy levels, ascending in price.
    pub buy_levels: Vec<PriceLevel>,
    /// Sell levels, ascending in price.
    pub sell_levels: Vec<PriceLevel>,
    /// Every order the book has taken in, by id.
    pub order_map: HashMap<u64, Order>,
    pub stop_order_book: StopOrderBook,
    pub last_trade_price: Option<u64>,
}

impl OrderBook {
    /// Each side is sorted by price with non-empty levels of consistent
    /// orders, each on its side and at its level's price; the stop book is
    /// well formed too.
    pub open spec fn wf(&self) -> bool {
        &&& side_fits(self.buy_levels@, Side::Buy, false)
        &&& side_fits(self.sell_levels@, Side::Sell, false)
        &&& self.stop_order_book.wf()
    }

    pub open spec fn best_bid(&self) -> Option<u64> {
        highest(self.buy_levels@)
    }

    pub open spec fn best_ask(&self) -> Option<u64> {
        lowest(self.sell_levels@)
    }

    /// The best price on the side opposite to `side`: the lowest ask for a
    /// buyer, the highest bid for a seller.
    pub open spec fn best_opposite(&self, side: Side) -> Option<u64> {
        match side {
            Side::Buy => self.best_ask(),
            Side::Sell => self.best_bid(),
        }
    }

    /// The level holding the best opposite price (meaningful when there is
    /// one).
    pub open spec fn best_opposite_level(&self, side: Side) -> PriceLevel {
        match side {
            Side::Buy => self.sell_levels@[0],
            Side::Sell => self.buy_levels@[self.buy_levels@.len() - 1],
        }
    }

    /// Whether the stop book holds no stop order at all.
    pub open spec fn no_stops(&self) -> bool {
        &&& self.stop_order_book.buy_stop_orders@.len() == 0
        &&& self.stop_order_book.sell_stop_orders@.len() == 0
    }

    /// The levels of the given side.
    pub open spec fn side_levels(&self, side: Side) -> Seq<PriceLevel> {
        match side {
            Side::Buy => self.buy_levels@,
            Side::Sell => self.sell_levels@,
        }
    }

    /// The stop orders that fire at `price`, in the order in which they are
    /// taken up.
    pub open spec fn triggered_at(&self, price: u64) -> Seq<Order> {
        gather(
            self.stop_order_book.buy_stop_orders@,
            self.stop_order_book.buy_stop_orders@.len() as int,
            0,
            price,
        ) + gather(
            self.stop_order_book.sell_stop_orders@,
            self.stop_order_book.sell_stop_orders@.len() as int,
            price,
            u64::MAX,
        )
    }

    /// The book with the given stop book and `price` as its last trade price.
    pub open spec fn with_last_trade(self, stops: StopOrderBook, price: u64) -> OrderBook {
        OrderBook { stop_order_book: stops, last_trade_price: Some(price), ..self }
    }

    pub fn new(symbol: &str) -> (r: Self)
        ensures
            r.wf(),
            r.symbol@ == symbol@,
            r.buy_levels@ == Seq::<PriceLevel>::empty(),
            r.sell_levels@ == Seq::<PriceLevel>::empty(),
            r.order_map@ == Map::<u64, Order>::empty(),
            r.stop_order_book.order_map@ == Map::<u64, Order>::empty(),
            r.stop_order_book.buy_stop_orders@ == Seq::<PriceLevel>::empty(),
            r.stop_order_book.sell_stop_orders@ == Seq::<PriceLevel>::empty(),
            r.last_trade_price.is_none(),
    {
        OrderBook {
            symbol: symbol.to_owned(),
            buy_levels: Vec::new(),
            sell_levels: Vec::new(),
            order_map: HashMap::new(),
            stop_order_book: StopOrderBook::new(symbol),
            last_trade_price: None,
        }
    }

    /// Rests an order: records it in the order map under its id and puts it
    /// at the back of the level at its price on its side, creating the level
    /// if needed; the level's volume caches grow by what it has open and
    /// shows. Always `Ok`.
    pub fn add_order(&mut self, order: Order) -> (r: Result<(), &'static str>)
        requires
            old(self).wf(),
            order.fill_ok(),
        ensures
            final(self).wf(),
            r is Ok,
            final(self).order_map@ == old(self).order_map@.insert(order.id, order),
            side_after_add(
                old(self).side_levels(order.side),
                final(self).side_levels(order.side),
                order.price,
                order,
                true,
            ),
            final(self).side_levels(order.side.spec_opposite()) == old(self).side_levels(
                order.side.spec_opposite(),
            ),
            final(self).stop_order_book == old(self).stop_order_book,
            final(self).last_trade_price == old(self).last_trade_price,
            final(self).symbol == old(self).symbol,
    {
        let ghost old_buy = self.buy_levels@;
        let ghost old_sell = self.sell_levels@;
        self.order_map.insert(order.id, order.clone());
        let price = order.price;
        match order.side {
            Side::Buy => {
                add_to_side(&mut self.buy_levels, price, order, true);
                proof {
                    lemma_add_keeps_fit(
                        old_buy,
                        self.buy_levels@,
                        price,
                        order,
                        true,
                        Side::Buy,
                        false,
                    );
                }
            },
            Side::Sell => {
                add_to_side(&mut self.sell_levels, price, order, true);
                proof {
                    lemma_add_keeps_fit(
                        old_sell,
                        self.sell_levels@,
                        price,
                        order,
                        true,
                        Side::Sell,
                        false,
                    );
                }
            },
        }
        Ok(())
    }

    /// Files a stop order in the stop book. `Err`, with nothing changed, when
    /// the order is not a stop order or has no stop price.
    pub fn add_stop_order(&mut self, order: Order) -> (r: Result<(), &'static str>)
        requires
            old(self).wf(),
            order.fill_ok(),
        ensures
            final(self).wf(),
            !order.stop_order() ==> r == Err::<(), &'static str>("Not a stop order") && *final(self)
                == *old(self),
            order.stop_order() && order.stop_price.is_none() ==> r == Err::<(), &'static str>(
                "Missing stop price",
            ) && *final(self) == *old(self),
            order.stop_order() && order.stop_price.is_some() ==> {
                let key = order.stop_price.unwrap();
                let (old_stops, new_stops) = (old(self).stop_order_book, final(self).stop_order_book);
                &&& r is Ok
                &&& new_stops.order_map@ == old_stops.order_map@.insert(order.id, order)
                &&& if order.side == Side::Buy {
                    side_after_add(
                        old_stops.buy_stop_orders@,
                        new_stops.buy_stop_orders@,
                        key,
                        order,
                        false,
                    ) && new_stops.sell_stop_orders@ == old_stops.sell_stop_orders@
                } else {
                    side_after_add(
                        old_stops.sell_stop_orders@,
                        new_stops.sell_stop_orders@,
                        key,
                        order,
                        false,
                    ) && new_stops.buy_stop_orders@ == old_stops.buy_stop_orders@
                }
            },
            final(self).buy_levels == old(self).buy_levels,
            final(self).sell_levels == old(self).sell_levels,
            final(self).order_map == old(self).order_map,
            final(self).last_trade_price == old(self).last_trade_price,
            final(self).symbol == old(self).symbol,
    {
        if !order.is_stop_order() {
            return Err("Not a stop order");
        }
        self.stop_order_book.add_stop_order(order)
    }

    /// Whether `remove_order` finds `id` resting: the map knows the id and
    /// the level at the price of that order, on its side, holds an order
    /// with that id.
    pub open spec fn resting(&self, id: u64) -> bool {
        &&& self.order_map@.contains_key(id)
        &&& {
            let o = self.order_map@[id];
            let levels = self.side_levels(o.side);
            match levels::find_level(levels, o.price) {
                Some(i) => price_level::has_id(levels[i].orders@, id),
                None => false,
            }
        }
    }

    /// Takes an order out of the book. When the id is resting (see
    /// `resting`), the first order with that id leaves the level at the
    /// mapped order's price (the level goes when it empties, its volume
    /// caches shrink), the id leaves the map, and that order is returned.
    /// Otherwise the stop book is asked to remove it.
    pub fn remove_order(&mut self, order_id: u64) -> (r: Option<Order>)
        requires
            old(self).wf(),
        ensures
            final(self).wf(),
            final(self).last_trade_price == old(self).last_trade_price,
            final(self).symbol == old(self).symbol,
            removed_from(*old(self), *final(self), order_id, r),
            r matches Some(o) ==> o.id == order_id,
            if old(self).resting(order_id) {
                let o = old(self).order_map@[order_id];
                &&& r.is_some()
                &&& side_after_remove(
                    old(self).side_levels(o.side),
                    final(self).side_levels(o.side),
                    o.price,
                    order_id,
                    r,
                    true,
                )
                &&& final(self).side_levels(o.side.spec_opposite()) == old(self).side_levels(
                    o.side.spec_opposite(),
                )
                &&& final(self).order_map@ == old(self).order_map@.remove(order_id)
                &&& final(self).stop_order_book == old(self).stop_order_book
            } else {
                &&& final(self).buy_levels@ == old(self).buy_levels@
                &&& final(self).sell_levels@ == old(self).sell_levels@
                &&& final(self).order_map@ == old(self).order_map@
                &&& StopOrderBook::after_remove(
                    old(self).stop_order_book,
                    final(self).stop_order_book,
                    order_id,
                    r,
                )
            },
    {
        let found = match self.order_map.get(&order_id) {
            Some(o) => Some((o.price, o.side)),
            None => None,
        };
        if let Some((price, side)) = found {
            let ghost old_buy = self.buy_levels@;
            let ghost old_sell = self.sell_levels@;
            let removed = match side {
                Side::Buy => {
                    let r = remove_from_side(&mut self.buy_levels, price, order_id, true);
                    proof {
                        lemma_remove_keeps_fit(
                            old_buy,
                            self.buy_levels@,
                            price,
                            order_id,
                            r,
                            true,
                            Side::Buy,
                            false,
                        );
                    }
                    r
                },
                Side::Sell => {
                    let r = remove_from_side(&mut self.sell_levels, price, order_id, true);
                    proof {
                        lemma_remove_keeps_fit(
                            old_sell,
                            self.sell_levels@,
                            price,
                            order_id,
                            r,
                            true,
                            Side::Sell,
                            false,
                        );
                    }
                    r
                },
            };
            if removed.is_some() {
                self.order_map.remove(&order_id);
                return removed;
            }
        }
        self.stop_order_book.remove_stop_order(order_id)
    }

    /// The same as `remove_order`.
    pub fn cancel_order(&mut self, order_id: u64) -> (r: Option<Order>)
        requires
            old(self).wf(),
        ensures
            final(self).wf(),
            final(self).last_trade_price == old(self).last_trade_price,
            final(self).symbol == old(self).symbol,
            r matches Some(o) ==> o.id == order_id,
            canceled_from(*old(self), *final(self), order_id, r),
    {
        self.remove_order(order_id)
    }

    /// The highest buy price, if any buy order rests.
    pub fn get_best_bid_price(&self) -> (r: Option<u64>)
        ensures
            r == self.best_bid(),
    {
        let n = self.buy_levels.len();
        if n == 0 {
            None
        } else {
            Some(self.buy_levels[n - 1].price)
        }
    }

    /// The lowest sell price, if any sell order rests.
    pub fn get_best_ask_price(&self) -> (r: Option<u64>)
        ensures
            r == self.best_ask(),
    {
        if self.sell_levels.len() == 0 {
            None
        } else {
            Some(self.sell_levels[0].price)
        }
    }

    /// The order the map holds under the id, if any.
    pub fn get_order(&self, order_id: u64) -> (r: Option<Order>)
        ensures
            r == if self.order_map@.contains_key(order_id) {
                Some(self.order_map@[order_id])
            } else {
                None
            },
    {
        match self.order_map.get(&order_id) {
            Some(o) => Some(o.clone()),
            None => None,
        }
    }

    /// Sets the shown volume of the level at the order's price, on its side,
    /// to the order's display size (0 when it has none) capped by what it
    /// has open. `Err`, with nothing changed, when there is no such level.
    pub fn replenish_iceberg_order(&mut self, order: &Order) -> (r: Result<(), &'static str>)
        requires
            old(self).wf(),
            order.fill_ok(),
        ensures
            final(self).wf(),
            final(self).order_map == old(self).order_map,
            final(self).stop_order_book == old(self).stop_order_book,
            final(self).last_trade_price == old(self).last_trade_price,
            final(self).symbol == old(self).symbol,
            final(self).side_levels(order.side.spec_opposite()) == old(self).side_levels(
                order.side.spec_opposite(),
            ),
            match levels::find_level(old(self).side_levels(order.side), order.price) {
                Some(i) => {
                    let shown = match order.display_quantity {
                        Some(d) => if d <= order.remaining() {
                            d as int
                        } else {
                            order.remaining()
                        },
                        None => 0,
                    };
                    &&& r is Ok
                    &&& final(self).side_levels(order.side) == old(self).side_levels(
                        order.side,
                    ).update(
                        i,
                        PriceLevel {
                            visible_volume: shown as u64,
                            ..old(self).side_levels(order.side)[i]
                        },
                    )
                },
                None => r is Err && final(self).side_levels(order.side) == old(self).side_levels(
                    order.side,
                ),
            },
    {
        let display: u32 = match order.display_quantity {
            Some(d) => d,
            None => 0,
        };
        let open = order.remaining_quantity();
        let shown: u64 = if display <= open {
            display as u64
        } else {
            open as u64
        };
        match order.side {
            Side::Buy => {
                match locate(&self.buy_levels, order.price) {
                    Ok(i) => {
                        let ghost old_levels = self.buy_levels@;
                        let mut level = self.buy_levels.remove(i);
                        level.visible_volume = shown;
                        self.buy_levels.insert(i, level);
                        proof {
                            assert(self.buy_levels@ =~= old_levels.update(i as int, level));
                            levels::lemma_replace_keeps_side(old_levels, self.buy_levels@, i as int);
                            assert forall|a: int, k: int|
                                0 <= a < self.buy_levels@.len() && 0 <= k
                                    < self.buy_levels@[a].orders@.len() implies levels::fits(
                                #[trigger] self.buy_levels@[a].orders@[k],
                                self.buy_levels@[a].price,
                                Side::Buy,
                                false,
                            ) by {
                                assert(self.buy_levels@[a].orders@ == old_levels[a].orders@);
                                assert(self.buy_levels@[a].price == old_levels[a].price);
                            }
                        }
                        Ok(())
                    },
                    Err(_) => Err("Price level not found"),
                }
            },
            Side::Sell => {
                match locate(&self.sell_levels, order.price) {
                    Ok(i) => {
                        let ghost old_levels = self.sell_levels@;
                        let mut level = self.sell_levels.remove(i);
                        level.visible_volume = shown;
                        self.sell_levels.insert(i, level);
                        proof {
                            assert(self.sell_levels@ =~= old_levels.update(i as int, level));
                            levels::lemma_replace_keeps_side(old_levels, self.sell_levels@, i as int);
                            assert forall|a: int, k: int|
                                0 <= a < self.sell_levels@.len() && 0 <= k
                                    < self.sell_levels@[a].orders@.len() implies levels::fits(
                                #[trigger] self.sell_levels@[a].orders@[k],
                                self.sell_levels@[a].price,
                                Side::Sell,
                                false,
                            ) by {
                                assert(self.sell_levels@[a].orders@ == old_levels[a].orders@);
                                assert(self.sell_levels@[a].price == old_levels[a].price);
                            }
                        }
                        Ok(())
                    },
                    Err(_) => Err("Price level not found"),
                }
            },
        }
    }

    /// The book's record of a last trade at `price`: the price is kept, and
    /// every stop order that fires at it (see `triggered_at`) leaves the stop
    /// book and rests in the book: a stop-market order as a market order
    /// priced at the best opposite price at that moment (or `price` when that
    /// side is empty), a stop-limit order as a limit order at its own price.
    /// Always `Ok`.
    pub fn update_last_trade_price(&mut self, price: u64) -> (r: Result<(), &'static str>)
        requires
            old(self).wf(),
        ensures
            final(self).wf(),
            r is Ok,
            exists|stops: StopOrderBook|
                StopOrderBook::removed_each(
                    old(self).stop_order_book,
                    stops,
                    old(self).triggered_at(price).map_values(|o: Order| o.id),
                ) && #[trigger] fired_each(
                    old(self).with_last_trade(stops, price),
                    *final(self),
                    old(self).triggered_at(price),
                    price,
                ),
            last_trade_recorded(*old(self), *final(self), price),
            final(self).last_trade_price == Some(price),
            final(self).symbol == old(self).symbol,
            final(self).order_map@.dom() == old(self).order_map@.dom().union(
                ids_of(old(self).triggered_at(price)),
            ),
            old(self).triggered_at(price).len() == 0 ==> {
                &&& final(self).buy_levels@ == old(self).buy_levels@
                &&& final(self).sell_levels@ == old(self).sell_levels@
                &&& final(self).order_map@ == old(self).order_map@
                &&& final(self).stop_order_book == old(self).stop_order_book
            },
    {
        self.last_trade_price = Some(price);
        let triggered_orders = self.stop_order_book.get_triggered_orders(price);
        let ghost trig = triggered_orders@;
        proof {
            lemma_triggered_fill_ok(self.stop_order_book, price);
        }
        if triggered_orders.len() > 0 {
            self.stop_order_book.remove_triggered_orders(&triggered_orders);
            let ghost dom0 = self.order_map@.dom();
            let ghost cleared = *self;
            let ghost mut states: Seq<OrderBook> = seq![*self];
            let mut i: usize = 0;
            while i < triggered_orders.len()
                invariant
                    self.wf(),
                    i <= triggered_orders@.len(),
                    triggered_orders@ == trig,
                    forall|k: int| 0 <= k < trig.len() ==> (#[trigger] trig[k]).fill_ok(),
                    self.last_trade_price == Some(price),
                    self.symbol == old(self).symbol,
                    self.order_map@.dom() == dom0.union(ids_of(trig.take(i as int))),
                    fired_through(states, cleared, *self, trig.take(i as int), price),
                decreases triggered_orders.len() - i,
            {
                let ghost mid = *self;
                let mut order = triggered_orders[i].clone();
                if order.order_type == OrderType::StopMarket {
                    order.order_type = OrderType::Market;
                    order.price = match order.side {
                        Side::Buy => match self.get_best_ask_price() {
                            Some(p) => p,
                            None => price,
                        },
                        Side::Sell => match self.get_best_bid_price() {
                            Some(p) => p,
                            None => price,
                        },
                    };
                } else if order.order_type == OrderType::StopLimit {
                    order.order_type = OrderType::Limit;
                }
                assert(order == fired(trig[i as int], mid, price));
                let _ = self.add_order(order);
                proof {
                    let ghost prev = states;
                    states = states.push(*self);
                    assert(added(mid, *self, order));
                    assert forall|k: int| 0 <= k < trig.take(i + 1).len() implies #[trigger] added(
                        states[k],
                        states[k + 1],
                        fired(trig.take(i + 1)[k], states[k], price),
                    ) by {
                        if k < i {
                            assert(added(
                                prev[k],
                                prev[k + 1],
                                fired(trig.take(i as int)[k], prev[k], price),
                            ));
                        }
                    }
                    assert(ids_of(trig.take(i + 1)) =~= ids_of(trig.take(i as int)).insert(
                        trig[i as int].id,
                    )) by {
                        assert forall|id: u64| ids_of(trig.take(i + 1)).contains(id) implies ids_of(
                            trig.take(i as int),
                        ).insert(trig[i as int].id).contains(id) by {
                            let k = choose|k: int|
                                0 <= k < trig.take(i + 1).len() && (#[trigger] trig.take(
                                    i + 1,
                                )[k]).id == id;
                            if k < i {
                                assert(trig.take(i as int)[k] == trig[k]);
                            }
                        }
                        assert forall|id: u64| ids_of(trig.take(i as int)).insert(
                            trig[i as int].id,
                        ).contains(id) implies ids_of(trig.take(i + 1)).contains(id) by {
                            if id == trig[i as int].id {
                                assert(trig.take(i + 1)[i as int] == trig[i as int]);
                            } else {
                                let k = choose|k: int|
                                    0 <= k < trig.take(i as int).len() && (#[trigger] trig.take(
                                        i as int,
                                    )[k]).id == id;
                                assert(trig.take(i + 1)[k] == trig.take(i as int)[k]);
                            }
                        }
                    }
                }
                i += 1;
            }
            proof {
                assert(trig.take(trig.len() as int) =~= trig);
                assert(self.order_map@.dom() =~= old(self).order_map@.dom().union(
                    ids_of(old(self).triggered_at(price)),
                ));
                assert(fired_through(states, cleared, *self, trig, price));
                assert(cleared == old(self).with_last_trade(cleared.stop_order_book, price));
                assert(StopOrderBook::removed_each(
                    old(self).stop_order_book,
                    cleared.stop_order_book,
                    trig.map_values(|o: Order| o.id),
                ));
                assert(fired_each(
                    old(self).with_last_trade(cleared.stop_order_book, price),
                    *self,
                    trig,
                    price,
                ));
            }
        } else {
            proof {
                let ghost stops = old(self).stop_order_book;
                let ghost ids = trig.map_values(|o: Order| o.id);
                assert(ids =~= Seq::<u64>::empty());
                assert(StopOrderBook::steps_through(
                    seq![stops],
                    Seq::<Option<Order>>::empty(),
                    stops,
                    stops,
                    ids,
                ));
                assert(fired_through(seq![*self], *self, *self, trig, price));
                assert(*self == old(self).with_last_trade(stops, price));
                assert(StopOrderBook::removed_each(stops, stops, ids));
                assert(fired_each(old(self).with_last_trade(stops, price), *self, trig, price));
                assert(ids_of(trig) =~= Set::<u64>::empty());
                assert(self.order_map@.dom() =~= old(self).order_map@.dom().union(
                    ids_of(old(self).triggered_at(price)),
                ));
            }
        }
        Ok(())
    }
}

/// What a fired stop order becomes when it is taken up with the book as
/// `book` stands: a stop-market order turns into a market order priced at the
/// best opposite price (or `price` when that side is empty), a stop-limit
/// order into a limit order at its own price.
pub open spec fn fired(o: Order, book: OrderBook, price: u64) -> Order {
    if o.order_type == OrderType::StopMarket {
        Order {
            order_type: OrderType::Market,
            price: match book.best_opposite(o.side) {
                Some(q) => q,
                None => price,
            },
            ..o
        }
    } else if o.order_type == OrderType::StopLimit {
        Order { order_type: OrderType::Limit, ..o }
    } else {
        o
    }
}

/// `after` is what `add_order(order)` leaves of `before`.
pub open spec fn added(before: OrderBook, after: OrderBook, order: Order) -> bool {
    &&& after.order_map@ == before.order_map@.insert(order.id, order)
    &&& side_after_add(
        before.side_levels(order.side),
        after.side_levels(order.side),
        order.price,
        order,
        true,
    )
    &&& after.side_levels(order.side.spec_opposite()) == before.side_levels(
        order.side.spec_opposite(),
    )
    &&& after.stop_order_book == before.stop_order_book
    &&& after.last_trade_price == before.last_trade_price
    &&& after.symbol == before.symbol
}

/// `states` runs from `before` to `after`, each state the one before it with
/// the next order, as it fires there, added.
pub open spec fn fired_through(
    states: Seq<OrderBook>,
    before: OrderBook,
    after: OrderBook,
    orders: Seq<Order>,
    price: u64,
) -> bool {
    &&& states.len() == orders.len() + 1
    &&& states[0] == before
    &&& states.last() == after
    &&& forall|k: int|
        0 <= k < orders.len() ==> #[trigger] added(
            states[k],
            states[k + 1],
            fired(orders[k], states[k], price),
        )
}

/// `after` is what taking up the fired orders in turn leaves of `before`.
pub open spec fn fired_each(before: OrderBook, after: OrderBook, orders: Seq<Order>, price: u64) -> bool {
    exists|states: Seq<OrderBook>| #[trigger] fired_through(states, before, after, orders, price)
}

/// `after` is what recording a last trade at `price` leaves of `before`
/// (see `update_last_trade_price`): the stop orders that fire leave the stop
/// book and are taken up in turn.
pub open spec fn last_trade_recorded(before: OrderBook, after: OrderBook, price: u64) -> bool {
    exists|stops: StopOrderBook|
        StopOrderBook::removed_each(
            before.stop_order_book,
            stops,
            before.triggered_at(price).map_values(|o: Order| o.id),
        ) && #[trigger] fired_each(
            before.with_last_trade(stops, price),
            after,
            before.triggered_at(price),
            price,
        )
}

/// `after` is what `cancel_order(id)` (like `remove_order(id)`) leaves of
/// `before`, returning `r`: an order resting under the id leaves its level
/// and the map and is returned; otherwise the levels and the map stay, and
/// the stop book gives up a stop order with that id if it holds one.
pub open spec fn canceled_from(before: OrderBook, after: OrderBook, id: u64, r: Option<Order>) -> bool {
    if before.resting(id) {
        let o = before.order_map@[id];
        &&& r.is_some()
        &&& side_after_remove(before.side_levels(o.side), after.side_levels(o.side), o.price, id, r, true)
        &&& after.side_levels(o.side.spec_opposite()) == before.side_levels(o.side.spec_opposite())
        &&& after.order_map@ == before.order_map@.remove(id)
        &&& after.stop_order_book == before.stop_order_book
    } else {
        &&& after.buy_levels@ == before.buy_levels@
        &&& after.sell_levels@ == before.sell_levels@
        &&& after.order_map@ == before.order_map@
        &&& StopOrderBook::after_remove(before.stop_order_book, after.stop_order_book, id, r)
    }
}

/// `after` is what `remove_order(id)` leaves of `before`, returning `r`.
pub open spec fn removed_from(before: OrderBook, after: OrderBook, id: u64, r: Option<Order>) -> bool {
    if before.resting(id) {
        let o = before.order_map@[id];
        &&& r.is_some()
        &&& side_after_remove(
            before.side_levels(o.side),
            after.side_levels(o.side),
            o.price,
            id,
            r,
            true,
        )
        &&& after.side_levels(o.side.spec_opposite()) == before.side_levels(o.side.spec_opposite())
        &&& after.order_map@ == before.order_map@.remove(id)
    } else {
        &&& after.buy_levels@ == before.buy_levels@
        &&& after.sell_levels@ == before.sell_levels@
        &&& after.order_map@ == before.order_map@
    }
}

/// Taking one order out of a book leaves every other resting order resting,
/// with its entry in the map unchanged, and leaves out of the map what was
/// out of it.
proof fn lemma_remove_keeps_others(
    before: OrderBook,
    after: OrderBook,
    id: u64,
    r: Option<Order>,
    other: u64,
)
    requires
        before.wf(),
        after.wf(),
        removed_from(before, after, id, r),
        other != id,
    ensures
        before.resting(other) ==> after.resting(other) && after.order_map@[other]
            == before.order_map@[other],
        !before.order_map@.contains_key(other) ==> !after.order_map@.contains_key(other),
{
    if before.resting(id) && before.resting(other) {
        let o1 = before.order_map@[id];
        let o2 = before.order_map@[other];
        assert(after.order_map@[other] == o2);
        if o2.side != o1.side {
            assert(o2.side == o1.side.spec_opposite());
        } else {
            let old_side = before.side_levels(o1.side);
            let new_side = after.side_levels(o1.side);
            assert(levels::prices_sorted(new_side));
            levels::lemma_side_remove_keeps(old_side, new_side, o1.price, id, r, o2.price, other);
        }
    }
}

impl OrderBook {
    /// The ids of the orders of the map that are expired at `current_time`.
    pub open spec fn expired_ids(&self, current_time: i64) -> Set<u64> {
        self.order_map@.dom().filter(|id: u64| self.order_map@[id].expired_at(current_time))
    }

    /// Removes every order of the map that is expired at `current_time`
    /// (as `remove_order` does, one id after the other) and returns those it
    /// took out, each marked `Expired`.
    pub fn expire_orders(&mut self, current_time: i64) -> (r: Vec<Order>)
        requires
            old(self).wf(),
        ensures
            final(self).wf(),
            final(self).last_trade_price == old(self).last_trade_price,
            final(self).symbol == old(self).symbol,
            forall|k: int|
                0 <= k < r@.len() ==> (#[trigger] r@[k]).status == OrderStatus::Expired && old(
                    self,
                ).expired_ids(current_time).contains(r@[k].id),
            forall|id: u64|
                #[trigger] old(self).expired_ids(current_time).contains(id) && old(self).resting(id)
                    ==> !final(self).order_map@.contains_key(id) && exists|k: int|
                    0 <= k < r@.len() && (#[trigger] r@[k]).id == id,
            forall|id: u64|
                #[trigger] old(self).order_map@.contains_key(id)
                    && !old(self).expired_ids(current_time).contains(id)
                    ==> final(self).order_map@.contains_key(id)
                    && final(self).order_map@[id] == old(self).order_map@[id],
    {
        let ghost expired_set = self.expired_ids(current_time);
        let ghost start = *self;
        let mut expired_order_ids: Vec<u64> = Vec::new();
        let ghost ks = vstd::std_specs::hash::spec_keys_iter(&self.order_map).remaining();
        for id in it: self.order_map.keys()
            invariant
                it.seq() == ks,
                ks.unref().to_set() == self.order_map@.dom(),
                expired_set == self.expired_ids(current_time),
                *self == start,
                ks.unref().no_duplicates(),
                forall|j: int|
                    0 <= j < expired_order_ids@.len() ==> expired_set.contains(
                        #[trigger] expired_order_ids@[j],
                    ),
                forall|a: int, b: int|
                    0 <= a < b < expired_order_ids@.len() ==> expired_order_ids@[a]
                        != expired_order_ids@[b],
                forall|j: int|
                    0 <= j < expired_order_ids@.len() ==> ks.unref().take(it.index()).contains(
                        #[trigger] expired_order_ids@[j],
                    ),
                forall|j: int|
                    0 <= j < it.index() && expired_set.contains(#[trigger] ks.unref()[j])
                        ==> expired_order_ids@.contains(ks.unref()[j]),
        {
            let ghost idx = it.index();
            let ghost before_ids = expired_order_ids@;
            proof {
                assert(ks.unref()[idx] == *id);
                assert(ks.unref().to_set().contains(*id));
                assert(ks.unref().take(idx + 1) =~= ks.unref().take(idx).push(*id));
            }
            let expired = match self.order_map.get(id) {
                Some(o) => o.is_expired(current_time),
                None => false,
            };
            if expired {
                expired_order_ids.push(*id);
                proof {
                    assert(!ks.unref().take(idx).contains(*id)) by {
                        if ks.unref().take(idx).contains(*id) {
                            let w = choose|w: int| 0 <= w < idx && ks.unref().take(idx)[w] == *id;
                            assert(ks.unref()[w] == ks.unref()[idx]);
                        }
                    }
                    assert forall|j: int| 0 <= j < expired_order_ids@.len() implies ks.unref().take(
                        idx + 1,
                    ).contains(#[trigger] expired_order_ids@[j]) by {
                        if j < before_ids.len() {
                            assert(expired_order_ids@[j] == before_ids[j]);
                            let w = choose|w: int|
                                0 <= w < idx && ks.unref().take(idx)[w] == before_ids[j];
                            assert(ks.unref().take(idx + 1)[w] == before_ids[j]);
                        } else {
                            assert(ks.unref().take(idx + 1)[idx] == *id);
                        }
                    }
                    assert forall|j: int|
                        0 <= j < idx + 1 && expired_set.contains(#[trigger] ks.unref()[j])
                            implies expired_order_ids@.contains(ks.unref()[j]) by {
                        if j < idx {
                            let w = choose|w: int| 0 <= w < before_ids.len() && before_ids[w] == ks.unref()[j];
                            assert(expired_order_ids@[w] == before_ids[w]);
                        } else {
                            assert(expired_order_ids@[before_ids.len() as int] == *id);
                        }
                    }
                }
            } else {
                proof {
                    assert forall|j: int| 0 <= j < expired_order_ids@.len() implies ks.unref().take(
                        idx + 1,
                    ).contains(#[trigger] expired_order_ids@[j]) by {
                        let w = choose|w: int|
                            0 <= w < idx && ks.unref().take(idx)[w] == expired_order_ids@[j];
                        assert(ks.unref().take(idx + 1)[w] == expired_order_ids@[j]);
                    }
                }
            }
        }
        proof {
            assert forall|x: u64| #[trigger] expired_set.contains(x) implies expired_order_ids@.contains(x) by {
                assert(ks.unref().to_set().contains(x));
                let j = choose|j: int| 0 <= j < ks.unref().len() && ks.unref()[j] == x;
            }
        }
        let mut expired_orders: Vec<Order> = Vec::new();
        let mut i: usize = 0;
        while i < expired_order_ids.len()
            invariant
                self.wf(),
                old(self).wf(),
                i <= expired_order_ids@.len(),
                self.last_trade_price == old(self).last_trade_price,
                self.symbol == old(self).symbol,
                expired_set == old(self).expired_ids(current_time),
                forall|j: int|
                    0 <= j < expired_order_ids@.len() ==> expired_set.contains(
                        #[trigger] expired_order_ids@[j],
                    ),
                forall|x: u64| #[trigger] expired_set.contains(x) ==> expired_order_ids@.contains(x),
                forall|a: int, b: int|
                    0 <= a < b < expired_order_ids@.len() ==> expired_order_ids@[a]
                        != expired_order_ids@[b],
                forall|k: int|
                    0 <= k < expired_orders@.len() ==> (#[trigger] expired_orders@[k]).status
                        == OrderStatus::Expired && expired_set.contains(expired_orders@[k].id),
                forall|j: int|
                    i <= j < expired_order_ids@.len() && old(self).resting(
                        #[trigger] expired_order_ids@[j],
                    ) ==> self.resting(expired_order_ids@[j]),
                forall|x: u64|
                    #[trigger] old(self).order_map@.contains_key(x) && !expired_set.contains(x)
                        ==> self.order_map@.contains_key(x)
                        && self.order_map@[x] == old(self).order_map@[x],
                forall|j: int|
                    0 <= j < i && old(self).resting(#[trigger] expired_order_ids@[j])
                        ==> !self.order_map@.contains_key(expired_order_ids@[j]) && exists|k: int|
                        0 <= k < expired_orders@.len() && (#[trigger] expired_orders@[k]).id
                            == expired_order_ids@[j],
            decreases expired_order_ids.len() - i,
        {
            let id = expired_order_ids[i];
            let ghost before = *self;
            let ghost before_orders = expired_orders@;
            let removed = self.remove_order(id);
            proof {
                assert forall|x: u64|
                    #[trigger] old(self).order_map@.contains_key(x) && !expired_set.contains(x)
                        implies self.order_map@.contains_key(x)
                        && self.order_map@[x] == old(self).order_map@[x] by {
                    assert(x != id);
                    assert(before.order_map@.contains_key(x));
                }
                assert forall|j: int|
                    i + 1 <= j < expired_order_ids@.len() && old(self).resting(
                        #[trigger] expired_order_ids@[j],
                    ) implies self.resting(expired_order_ids@[j]) by {
                    lemma_remove_keeps_others(before, *self, id, removed, expired_order_ids@[j]);
                }
                assert forall|j: int| 0 <= j < i && old(self).resting(#[trigger] expired_order_ids@[j])
                    implies !self.order_map@.contains_key(expired_order_ids@[j]) by {
                    lemma_remove_keeps_others(before, *self, id, removed, expired_order_ids@[j]);
                }
            }
            if let Some(mut order) = removed {
                order.status = OrderStatus::Expired;
                expired_orders.push(order);
                proof {
                    assert(expired_orders@[before_orders.len() as int].id == id);
                    assert forall|j: int| 0 <= j < i && old(self).resting(#[trigger] expired_order_ids@[j])
                        implies exists|k: int|
                        0 <= k < expired_orders@.len() && (#[trigger] expired_orders@[k]).id
                            == expired_order_ids@[j] by {
                        let k = choose|k: int|
                            0 <= k < before_orders.len() && (#[trigger] before_orders[k]).id
                                == expired_order_ids@[j];
                        assert(expired_orders@[k] == before_orders[k]);
                    }
                }
            }
            i += 1;
        }
        expired_orders
    }
}

/// Every order gathered from levels of consistent orders is consistent.
proof fn lemma_gather_fill_ok(levels: Seq<PriceLevel>, n: int, lo: u64, hi: u64)
    requires
        levels::levels_ok(levels),
        n <= levels.len(),
    ensures
        forall|k: int|
            0 <= k < gather(levels, n, lo, hi).len() ==> (#[trigger] gather(
                levels,
                n,
                lo,
                hi,
            )[k]).fill_ok(),
    decreases n,
{
    if n > 0 {
        lemma_gather_fill_ok(levels, n - 1, lo, hi);
        let prev = gather(levels, n - 1, lo, hi);
        let cur = gather(levels, n, lo, hi);
        assert forall|k: int| 0 <= k < cur.len() implies (#[trigger] cur[k]).fill_ok() by {
            if k < prev.len() {
                assert(cur[k] == prev[k]);
            } else {
                assert(levels[n - 1].orders@.len() > 0);
                assert(cur[k] == levels[n - 1].orders@[k - prev.len()]);
            }
        }
    }
}

/// The stop orders that fire at a price are consistent.
proof fn lemma_triggered_fill_ok(stops: StopOrderBook, price: u64)
    requires
        stops.wf(),
    ensures
        forall|k: int|
            0 <= k < (gather(stops.buy_stop_orders@, stops.buy_stop_orders@.len() as int, 0, price)
                + gather(
                stops.sell_stop_orders@,
                stops.sell_stop_orders@.len() as int,
                price,
                u64::MAX,
            )).len() ==> (#[trigger] (gather(
                stops.buy_stop_orders@,
                stops.buy_stop_orders@.len() as int,
                0,
                price,
            ) + gather(
                stops.sell_stop_orders@,
                stops.sell_stop_orders@.len() as int,
                price,
                u64::MAX,
            ))[k]).fill_ok(),
{
    let a = gather(stops.buy_stop_orders@, stops.buy_stop_orders@.len() as int, 0, price);
    let b = gather(stops.sell_stop_orders@, stops.sell_stop_orders@.len() as int, price, u64::MAX);
    lemma_gather_fill_ok(stops.buy_stop_orders@, stops.buy_stop_orders@.len() as int, 0, price);
    lemma_gather_fill_ok(
        stops.sell_stop_orders@,
        stops.sell_stop_orders@.len() as int,
        price,
        u64::MAX,
    );
    assert forall|k: int| 0 <= k < (a + b).len() implies (#[trigger] (a + b)[k]).fill_ok() by {
        if k < a.len() {
            assert((a + b)[k] == a[k]);
        } else {
            assert((a + b)[k] == b[k - a.len()]);
        }
    }
}

/// The best bid is the highest price any buy order rests at, and the best
/// ask the lowest price any sell order rests at.
pub proof fn lemma_best_prices_extremal(book: OrderBook)
    requires
        book.wf(),
    ensures
        book.best_bid() is None <==> book.buy_levels@.len() == 0,
        book.best_ask() is None <==> book.sell_levels@.len() == 0,
        forall|i: int|
            0 <= i < book.buy_levels@.len() ==> (#[trigger] book.buy_levels@[i]).price
                <= book.best_bid().unwrap(),
        forall|i: int|
            0 <= i < book.sell_levels@.len() ==> (#[trigger] book.sell_levels@[i]).price
                >= book.best_ask().unwrap(),
{
}

/// An order the book has just taken in (as `add_order` leaves the book)
/// rests there, so that `remove_order` and `cancel_order` find it, and
/// `get_order` gives it back.
pub proof fn lemma_added_order_rests(before: OrderBook, after: OrderBook, order: Order)
    requires
        after.wf(),
        after.order_map@ == before.order_map@.insert(order.id, order),
        side_after_add(before.side_levels(order.side), after.side_levels(order.side), order.price, order, true),
    ensures
        after.resting(order.id),
        after.order_map@.contains_key(order.id),
        after.order_map@[order.id] == order,
{
    let old_side = before.side_levels(order.side);
    let new_side = after.side_levels(order.side);
    assert(after.order_map@[order.id] == order);
    match levels::find_level(old_side, order.price) {
        Some(i) => {
            let n = new_side[i].orders@.len() - 1;
            assert(new_side[i].orders@[n] == order);
            levels::lemma_find_level_unique(new_side, order.price, i);
            assert(price_level::has_id(new_side[i].orders@, order.id));
        },
        None => {
            let j = choose|j: int|
                0 <= j <= old_side.len() && {
                    &&& new_side.len() == old_side.len() + 1
                    &&& forall|k: int| 0 <= k < j ==> new_side[k] == old_side[k]
                    &&& forall|k: int| j < k < new_side.len() ==> new_side[k] == old_side[k - 1]
                    &&& new_side[j].price == order.price
                    &&& new_side[j].orders@ == seq![order]
                    &&& new_side[j].total_volume == price_level::sat_add(0, order.remaining())
                    &&& new_side[j].visible_volume == price_level::sat_add(0, order.visible())
                };
            assert(new_side[j].orders@[0] == order);
            levels::lemma_find_level_unique(new_side, order.price, j);
            assert(price_level::has_id(new_side[j].orders@, order.id));
        },
    }
}

/// Two sides hold the same levels: the same prices, the same orders in the
/// same order, and the same volume caches.
pub open spec fn same_side(a: Seq<PriceLevel>, b: Seq<PriceLevel>) -> bool {
    &&& a.len() == b.len()
    &&& forall|i: int|
        0 <= i < a.len() ==> {
            &&& (#[trigger] a[i]).price == b[i].price
            &&& a[i].orders@ == b[i].orders@
            &&& a[i].total_volume == b[i].total_volume
            &&& a[i].visible_volume == b[i].visible_volume
        }
}

/// Removing an order just added gives that order back and leaves the book as
/// it was before the order came in: its map, and on both sides the same
/// levels. This needs the id to be new to the book (in its map and at the
/// level the order joins) and that level's volume caches to have room for
/// the order, as saturating caches do not give back what they cut off.
#[verifier::spinoff_prover]
#[verifier::rlimit(50)]
pub proof fn lemma_add_then_remove_restores(
    before: OrderBook,
    mid: OrderBook,
    after: OrderBook,
    order: Order,
    r: Option<Order>,
)
    requires
        before.wf(),
        mid.wf(),
        added(before, mid, order),
        removed_from(mid, after, order.id, r),
        !before.order_map@.contains_key(order.id),
        forall|i: int|
            0 <= i < before.side_levels(order.side).len() && (#[trigger] before.side_levels(
                order.side,
            )[i]).price == order.price ==> {
                &&& !price_level::has_id(before.side_levels(order.side)[i].orders@, order.id)
                &&& before.side_levels(order.side)[i].total_volume + order.remaining()
                    <= u64::MAX
                &&& before.side_levels(order.side)[i].visible_volume + order.visible()
                    <= u64::MAX
            },
    ensures
        r == Some(order),
        after.order_map@ == before.order_map@,
        same_side(after.buy_levels@, before.buy_levels@),
        same_side(after.sell_levels@, before.sell_levels@),
{
    lemma_added_order_rests(before, mid, order);
    let s0 = before.side_levels(order.side);
    let s1 = mid.side_levels(order.side);
    let s2 = after.side_levels(order.side);
    assert(mid.order_map@[order.id] == order);
    assert(after.order_map@ =~= before.order_map@);
    match levels::find_level(s0, order.price) {
        Some(i) => {
            assert(s0[i].price == order.price);
            levels::lemma_find_level_unique(s1, order.price, i);
            crate::optimizations::lemma_add_then_remove(s0[i].orders@, order);
            assert(s0[i].orders@.len() > 0);
            assert(s1[i].orders@.len() > 1);
            assert(same_side(s2, s0));
        },
        None => {
            let j = choose|j: int|
                0 <= j <= s0.len() && {
                    &&& s1.len() == s0.len() + 1
                    &&& forall|k: int| 0 <= k < j ==> s1[k] == s0[k]
                    &&& forall|k: int| j < k < s1.len() ==> s1[k] == s0[k - 1]
                    &&& s1[j].price == order.price
                    &&& s1[j].orders@ == seq![order]
                    &&& s1[j].total_volume == price_level::sat_add(0, order.remaining())
                    &&& s1[j].visible_volume == price_level::sat_add(0, order.visible())
                };
            levels::lemma_find_level_unique(s1, order.price, j);
            price_level::lemma_first_position(s1[j].orders@, order.id);
            assert(s2 =~= s0);
        },
    }
}

} // verus!
