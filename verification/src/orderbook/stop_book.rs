//! Stop orders waiting for the last trade price to reach their stop price.

use super::levels::{
    add_to_side, remove_from_side, side_after_add, side_after_remove, side_fits,
    lemma_add_keeps_fit, lemma_remove_keeps_fit,
};
use super::price_level::PriceLevel;
use crate::order::{Order, Side};
use std::collections::HashMap;
use vstd::prelude::*;

verus! {

broadcast use vstd::std_specs::hash::group_hash_axioms;

/// The orders of the levels of a side whose price lies in `[lo, hi]`, level
/// by level in the side's order, each level's orders oldest first.
pub open spec fn gather(levels: Seq<PriceLevel>, n: int, lo: u64, hi: u64) -> Seq<Order>
    decreases n,
{
    if n <= 0 {
        Seq::empty()
    } else {
        gather(levels, n - 1, lo, hi) + if lo <= levels[n - 1].price <= hi {
            levels[n - 1].orders@
        } else {
            Seq::empty()
        }
    }
}

/// Appends clones of the orders of the levels whose price lies in
/// `[lo, hi]`.
fn gather_into(levels: &Vec<PriceLevel>, lo: u64, hi: u64, out: &mut Vec<Order>)
    ensures
        final(out)@ == old(out)@ + gather(levels@, levels@.len() as int, lo, hi),
{
    let mut i: usize = 0;
    while i < levels.len()
        invariant
            i <= levels@.len(),
            out@ == old(out)@ + gather(levels@, i as int, lo, hi),
        decreases levels.len() - i,
    {
        let level = &levels[i];
        if lo <= level.price && level.price <= hi {
            let mut k: usize = 0;
            while k < level.orders.len()
                invariant
                    k <= level.orders@.len(),
                    i < levels@.len(),
                    *level == levels@[i as int],
                    lo <= level.price <= hi,
                    out@ == old(out)@ + gather(levels@, i as int, lo, hi) + level.orders@.take(
                        k as int,
                    ),
                decreases level.orders.len() - k,
            {
                out.push(level.orders[k].clone());
                proof {
                    assert(level.orders@.take(k as int).push(level.orders@[k as int])
                        =~= level.orders@.take(k + 1));
                }
                k += 1;
            }
            proof {
                assert(level.orders@.take(k as int) =~= level.orders@);
            }
        }
        proof {
            assert(gather(levels@, i + 1, lo, hi) == gather(levels@, i as int, lo, hi) + if lo
                <= levels@[i as int].price <= hi {
                levels@[i as int].orders@
            } else {
                Seq::empty()
            });
            if !(lo <= levels@[i as int].price <= hi) {
                assert(out@ =~= old(out)@ + gather(levels@, i + 1, lo, hi));
            } else {
                assert(out@ =~= old(out)@ + gather(levels@, i + 1, lo, hi));
            }
        }
        i += 1;
    }
}

pub struct StopOrderBook {
    pub symbol: String,
    /// Buy stop orders by stop price, ascending.
    pub buy_stop_orders: Vec<PriceLevel>,
    /// Sell stop orders by stop price, ascending.
    pub sell_stop_orders: Vec<PriceLevel>,
    pub order_map: HashMap<u64, Order>,
}

impl StopOrderBook {
    /// Both sides are sorted by stop price, with non-empty levels of
    /// consistent orders each on its side and at its stop price.
    pub open spec fn wf(&self) -> bool {
        &&& side_fits(self.buy_stop_orders@, Side::Buy, true)
        &&& side_fits(self.sell_stop_orders@, Side::Sell, true)
    }

    /// Whether `remove_stop_order` looks further for `id`: the map knows a
    /// stop order with that id that has a stop price.
    pub open spec fn removable(&self, id: u64) -> bool {
        &&& self.order_map@.contains_key(id)
        &&& self.order_map@[id].stop_order()
        &&& self.order_map@[id].stop_price.is_some()
    }

    /// How the book changes when `remove_stop_order(id)` returns `r`.
    pub open spec fn after_remove(old: StopOrderBook, new: StopOrderBook, id: u64, r: Option<Order>) -> bool {
        &&& new.symbol == old.symbol
        &&& if old.removable(id) {
            let o = old.order_map@[id];
            let key = o.stop_price.unwrap();
            &&& if o.side == Side::Buy {
                side_after_remove(old.buy_stop_orders@, new.buy_stop_orders@, key, id, r, false)
                    && new.sell_stop_orders@ == old.sell_stop_orders@
            } else {
                side_after_remove(old.sell_stop_orders@, new.sell_stop_orders@, key, id, r, false)
                    && new.buy_stop_orders@ == old.buy_stop_orders@
            }
            &&& new.order_map@ == if r.is_some() {
                old.order_map@.remove(id)
            } else {
                old.order_map@
            }
        } else {
            &&& r.is_none()
            &&& new.buy_stop_orders@ == old.buy_stop_orders@
            &&& new.sell_stop_orders@ == old.sell_stop_orders@
            &&& new.order_map@ == old.order_map@
        }
    }

    /// `states` runs from `before` to `after`, each state what
    /// `remove_stop_order` leaves of the one before it when called with the
    /// next id and returning the next of `results`.
    pub open spec fn steps_through(
        states: Seq<StopOrderBook>,
        results: Seq<Option<Order>>,
        before: StopOrderBook,
        after: StopOrderBook,
        ids: Seq<u64>,
    ) -> bool {
        &&& states.len() == ids.len() + 1
        &&& results.len() == ids.len()
        &&& states[0] == before
        &&& states.last() == after
        &&& forall|k: int|
            0 <= k < ids.len() ==> #[trigger] StopOrderBook::after_remove(
                states[k],
                states[k + 1],
                ids[k],
                results[k],
            )
    }

    /// `after` is what removing the ids in turn, each as `remove_stop_order`
    /// does, leaves of `before`.
    pub open spec fn removed_each(before: StopOrderBook, after: StopOrderBook, ids: Seq<u64>) -> bool {
        exists|states: Seq<StopOrderBook>, results: Seq<Option<Order>>|
            #[trigger] StopOrderBook::steps_through(states, results, before, after, ids)
    }

    pub fn new(symbol: &str) -> (r: Self)
        ensures
            r.symbol@ == symbol@,
            r.buy_stop_orders@ == Seq::<PriceLevel>::empty(),
            r.sell_stop_orders@ == Seq::<PriceLevel>::empty(),
            r.order_map@ == Map::<u64, Order>::empty(),
            r.wf(),
    {
        StopOrderBook {
            symbol: symbol.to_owned(),
            buy_stop_orders: Vec::new(),
            sell_stop_orders: Vec::new(),
            order_map: HashMap::new(),
        }
    }

    /// Files a stop order under its stop price on its side. `Err`, with
    /// nothing changed, when the order is not a stop order or has no stop
    /// price.
    pub fn add_stop_order(&mut self, order: Order) -> (r: Result<(), &'static str>)
        requires
            old(self).wf(),
            order.fill_ok(),
        ensures
            final(self).wf(),
            final(self).symbol == old(self).symbol,
            !order.stop_order() ==> r == Err::<(), &'static str>("Not a stop order") && *final(self)
                == *old(self),
            order.stop_order() && order.stop_price.is_none() ==> r == Err::<(), &'static str>(
                "Missing stop price",
            ) && *final(self) == *old(self),
            order.stop_order() && order.stop_price.is_some() ==> {
                let key = order.stop_price.unwrap();
                &&& r is Ok
                &&& final(self).order_map@ == old(self).order_map@.insert(order.id, order)
                &&& if order.side == Side::Buy {
                    side_after_add(
                        old(self).buy_stop_orders@,
                        final(self).buy_stop_orders@,
                        key,
                        order,
                        false,
                    ) && final(self).sell_stop_orders@ == old(self).sell_stop_orders@
                } else {
                    side_after_add(
                        old(self).sell_stop_orders@,
                        final(self).sell_stop_orders@,
                        key,
                        order,
                        false,
                    ) && final(self).buy_stop_orders@ == old(self).buy_stop_orders@
                }
            },
    {
        if !order.is_stop_order() {
            return Err("Not a stop order");
        }
        let stop_price = match order.stop_price {
            Some(p) => p,
            None => {
                return Err("Missing stop price");
            },
        };
        let ghost old_buy = self.buy_stop_orders@;
        let ghost old_sell = self.sell_stop_orders@;
        self.order_map.insert(order.id, order.clone());
        match order.side {
            Side::Buy => {
                add_to_side(&mut self.buy_stop_orders, stop_price, order, false);
                proof {
                    lemma_add_keeps_fit(
                        old_buy,
                        self.buy_stop_orders@,
                        stop_price,
                        order,
                        false,
                        Side::Buy,
                        true,
                    );
                }
            },
            Side::Sell => {
                add_to_side(&mut self.sell_stop_orders, stop_price, order, false);
                proof {
                    lemma_add_keeps_fit(
                        old_sell,
                        self.sell_stop_orders@,
                        stop_price,
                        order,
                        false,
                        Side::Sell,
                        true,
                    );
                }
            },
        }
        Ok(())
    }

    /// Looks the id up in the map; when it names a stop order with a stop
    /// price, takes the first order with that id out of the level at that
    /// stop price on its side (dropping the level if it empties), forgets the
    /// id, and returns the order taken out.
    pub fn remove_stop_order(&mut self, order_id: u64) -> (r: Option<Order>)
        requires
            old(self).wf(),
        ensures
            final(self).wf(),
            StopOrderBook::after_remove(*old(self), *final(self), order_id, r),
            r matches Some(o) ==> o.id == order_id,
    {
        let (stop_price, side) = match self.order_map.get(&order_id) {
            None => {
                return None;
            },
            Some(o) => {
                if !o.is_stop_order() {
                    return None;
                }
                match o.stop_price {
                    None => {
                        return None;
                    },
                    Some(p) => (p, o.side),
                }
            },
        };
        let ghost old_buy = self.buy_stop_orders@;
        let ghost old_sell = self.sell_stop_orders@;
        let removed = match side {
            Side::Buy => {
                let r = remove_from_side(&mut self.buy_stop_orders, stop_price, order_id, false);
                proof {
                    lemma_remove_keeps_fit(
                        old_buy,
                        self.buy_stop_orders@,
                        stop_price,
                        order_id,
                        r,
                        false,
                        Side::Buy,
                        true,
                    );
                }
                r
            },
            Side::Sell => {
                let r = remove_from_side(&mut self.sell_stop_orders, stop_price, order_id, false);
                proof {
                    lemma_remove_keeps_fit(
                        old_sell,
                        self.sell_stop_orders@,
                        stop_price,
                        order_id,
                        r,
                        false,
                        Side::Sell,
                        true,
                    );
                }
                r
            },
        };
        if removed.is_some() {
            self.order_map.remove(&order_id);
        }
        removed
    }

    /// The stop orders that fire at `last_price`: every buy stop order with
    /// a stop price at or below it, then every sell stop order with a stop
    /// price at or above it, level by level in ascending stop price.
    pub fn get_triggered_orders(&self, last_price: u64) -> (r: Vec<Order>)
        ensures
            r@ == gather(self.buy_stop_orders@, self.buy_stop_orders@.len() as int, 0, last_price)
                + gather(
                self.sell_stop_orders@,
                self.sell_stop_orders@.len() as int,
                last_price,
                u64::MAX,
            ),
    {
        let mut triggered: Vec<Order> = Vec::new();
        gather_into(&self.buy_stop_orders, 0, last_price, &mut triggered);
        gather_into(&self.sell_stop_orders, last_price, u64::MAX, &mut triggered);
        triggered
    }

    /// Calls `remove_stop_order` with the id of each given order in turn.
    pub fn remove_triggered_orders(&mut self, triggered_orders: &Vec<Order>)
        requires
            old(self).wf(),
        ensures
            final(self).wf(),
            StopOrderBook::removed_each(
                *old(self),
                *final(self),
                triggered_orders@.map_values(|o: Order| o.id),
            ),
            final(self).symbol == old(self).symbol,
            final(self).order_map@.dom().subset_of(old(self).order_map@.dom()),
    {
        let ghost ids = triggered_orders@.map_values(|o: Order| o.id);
        let ghost mut states: Seq<StopOrderBook> = seq![*self];
        let ghost mut results: Seq<Option<Order>> = Seq::empty();
        let mut i: usize = 0;
        while i < triggered_orders.len()
            invariant
                i <= triggered_orders@.len(),
                ids == triggered_orders@.map_values(|o: Order| o.id),
                self.wf(),
                StopOrderBook::steps_through(states, results, *old(self), *self, ids.take(i as int)),
                self.symbol == old(self).symbol,
                self.order_map@.dom().subset_of(old(self).order_map@.dom()),
            decreases triggered_orders.len() - i,
        {
            let ghost mid = *self;
            let r = self.remove_stop_order(triggered_orders[i].id);
            proof {
                let ghost prev_states = states;
                let ghost prev_results = results;
                states = states.push(*self);
                results = results.push(r);
                assert forall|k: int| 0 <= k < ids.take(i + 1).len() implies #[trigger] StopOrderBook::after_remove(
                    states[k],
                    states[k + 1],
                    ids.take(i + 1)[k],
                    results[k],
                ) by {
                    if k < i {
                        assert(StopOrderBook::after_remove(
                            prev_states[k],
                            prev_states[k + 1],
                            ids.take(i as int)[k],
                            prev_results[k],
                        ));
                    }
                }
            }
            i += 1;
        }
        proof {
            assert(ids.take(triggered_orders@.len() as int) =~= ids);
            assert(StopOrderBook::steps_through(states, results, *old(self), *self, ids));
        }
    }
}

} // verus!
