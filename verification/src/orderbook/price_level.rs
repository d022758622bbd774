//! One price of one side of a book: the resting orders in time priority and
//! the volume caches kept beside them.

use crate::order::{Order, OrderType};
use vstd::prelude::*;

verus! {

/// `a + b`, capped at `u64::MAX`.
pub open spec fn sat_add(a: int, b: int) -> int {
    if a + b > u64::MAX {
        u64::MAX as int
    } else {
        a + b
    }
}

/// `a - b`, floored at 0.
pub open spec fn sat_sub(a: int, b: int) -> int {
    if a - b < 0 {
        0
    } else {
        a - b
    }
}

/// Every order is consistent: no more filled than ordered.
pub open spec fn all_fill_ok(orders: Seq<Order>) -> bool {
    forall|k: int| 0 <= k < orders.len() ==> (#[trigger] orders[k]).fill_ok()
}

/// Whether some order has the given id.
pub open spec fn has_id(orders: Seq<Order>, id: u64) -> bool {
    exists|k: int| 0 <= k < orders.len() && (#[trigger] orders[k]).id == id
}

/// The first position of an order with the given id, if any.
pub open spec fn first_position(orders: Seq<Order>, id: u64) -> Option<int> {
    if has_id(orders, id) {
        Some(
            choose|k: int|
                0 <= k < orders.len() && orders[k].id == id && forall|j: int|
                    0 <= j < k ==> (#[trigger] orders[j]).id != id,
        )
    } else {
        None
    }
}

/// What `update_visible_quantity` counts for one order: its display size
/// capped by what is open when it has one, else all that is open.
pub open spec fn shown_quantity(o: Order) -> int {
    match o.display_quantity {
        Some(d) => if d <= o.remaining() {
            d as int
        } else {
            o.remaining()
        },
        None => o.remaining(),
    }
}

/// The saturating sum of `shown_quantity` over the first `n` orders.
pub open spec fn shown_total(orders: Seq<Order>, n: int) -> int
    decreases n,
{
    if n <= 0 {
        0
    } else {
        sat_add(shown_total(orders, n - 1), shown_quantity(orders[n - 1]))
    }
}

/// The position `first_position` picks holds the id, and no earlier one does.
pub proof fn lemma_first_position(orders: Seq<Order>, id: u64)
    requires
        has_id(orders, id),
    ensures
        first_position(orders, id).is_some(),
        0 <= first_position(orders, id).unwrap() < orders.len(),
        orders[first_position(orders, id).unwrap()].id == id,
        forall|j: int|
            0 <= j < first_position(orders, id).unwrap() ==> (#[trigger] orders[j]).id != id,
{
    let w = choose|w: int| 0 <= w < orders.len() && (#[trigger] orders[w]).id == id;
    lemma_least_position(orders, id, w);
}

/// Some position holding the id has no earlier one holding it.
proof fn lemma_least_position(orders: Seq<Order>, id: u64, w: int)
    requires
        0 <= w < orders.len(),
        orders[w].id == id,
    ensures
        exists|k: int|
            0 <= k < orders.len() && orders[k].id == id && forall|j: int|
                0 <= j < k ==> (#[trigger] orders[j]).id != id,
    decreases w,
{
    if exists|j: int| 0 <= j < w && (#[trigger] orders[j]).id == id {
        let j = choose|j: int| 0 <= j < w && (#[trigger] orders[j]).id == id;
        lemma_least_position(orders, id, j);
    } else {
        assert(forall|j: int| 0 <= j < w ==> (#[trigger] orders[j]).id != id);
    }
}

/// Scans for the first order with the given id.
pub fn find_position(orders: &Vec<Order>, id: u64) -> (r: Option<usize>)
    ensures
        match r {
            Some(k) => {
                &&& first_position(orders@, id) == Some(k as int)
                &&& k < orders@.len()
                &&& orders@[k as int].id == id
            },
            None => first_position(orders@, id).is_none(),
        },
{
    let mut k: usize = 0;
    while k < orders.len()
        invariant
            k <= orders.len(),
            forall|j: int| 0 <= j < k ==> (#[trigger] orders@[j]).id != id,
        decreases orders.len() - k,
    {
        if orders[k].id == id {
            proof {
                let ki = k as int;
                assert(has_id(orders@, id)) by {
                    assert(orders@[ki].id == id);
                }
                let c = choose|c: int|
                    0 <= c < orders@.len() && orders@[c].id == id && forall|j: int|
                        0 <= j < c ==> (#[trigger] orders@[j]).id != id;
                if c < ki {
                    assert(orders@[c].id != id);
                }
                if ki < c {
                    assert(orders@[ki].id != id);
                }
            }
            return Some(k);
        }
        k += 1;
    }
    proof {
        if has_id(orders@, id) {
            let j = choose|j: int| 0 <= j < orders@.len() && (#[trigger] orders@[j]).id == id;
            assert(orders@[j].id != id);
        }
    }
    None
}

pub struct PriceLevel {
    pub price: u64,
    /// The resting orders, oldest first.
    pub orders: Vec<Order>,
    /// Open quantity added to the level, kept up as orders are added and
    /// removed; matching leaves it as it was.
    pub total_volume: u64,
    /// Quantity shown to the market.
    pub visible_volume: u64,
}

impl PriceLevel {
    pub fn new(price: u64) -> (r: Self)
        ensures
            r.price == price,
            r.orders@ == Seq::<Order>::empty(),
            r.total_volume == 0,
            r.visible_volume == 0,
    {
        PriceLevel { price, orders: Vec::new(), total_volume: 0, visible_volume: 0 }
    }

    /// Appends the order at the back of the queue; both volume caches grow
    /// by what the order has open and shows (capped at `u64::MAX`).
    pub fn add_order(&mut self, order: Order)
        requires
            order.fill_ok(),
        ensures
            final(self).price == old(self).price,
            final(self).orders@ == old(self).orders@.push(order),
            final(self).total_volume == sat_add(old(self).total_volume as int, order.remaining()),
            final(self).visible_volume == sat_add(
                old(self).visible_volume as int,
                order.visible(),
            ),
    {
        let remaining = order.remaining_quantity() as u64;
        let visible = order.visible_quantity() as u64;
        self.total_volume = self.total_volume.saturating_add(remaining);
        self.visible_volume = self.visible_volume.saturating_add(visible);
        self.orders.push(order);
    }

    /// Takes the first order with the given id out of the queue and returns
    /// it; both volume caches shrink by what that order has open and shows
    /// (floored at 0). `None`, and nothing changed, when no order of the level
    /// has that id.
    pub fn remove_order(&mut self, order_id: u64) -> (r: Option<Order>)
        requires
            all_fill_ok(old(self).orders@),
        ensures
            final(self).price == old(self).price,
            match first_position(old(self).orders@, order_id) {
                Some(k) => {
                    let o = old(self).orders@[k];
                    &&& r == Some(o)
                    &&& final(self).orders@ == old(self).orders@.remove(k)
                    &&& final(self).total_volume == sat_sub(
                        old(self).total_volume as int,
                        o.remaining(),
                    )
                    &&& final(self).visible_volume == sat_sub(
                        old(self).visible_volume as int,
                        o.visible(),
                    )
                },
                None => r.is_none() && *final(self) == *old(self),
            },
    {
        match find_position(&self.orders, order_id) {
            Some(k) => {
                let o = self.orders.remove(k);
                let remaining = o.remaining_quantity() as u64;
                let visible = o.visible_quantity() as u64;
                self.total_volume = self.total_volume.saturating_sub(remaining);
                self.visible_volume = self.visible_volume.saturating_sub(visible);
                Some(o)
            },
            None => None,
        }
    }

    /// Recomputes the shown volume from the orders in the level: each order
    /// counts its display size capped by what it has open, or all it has open
    /// when it has no display size.
    pub fn update_visible_quantity(&mut self)
        requires
            all_fill_ok(old(self).orders@),
        ensures
            final(self).price == old(self).price,
            final(self).orders@ == old(self).orders@,
            final(self).total_volume == old(self).total_volume,
            final(self).visible_volume == shown_total(
                old(self).orders@,
                old(self).orders@.len() as int,
            ),
    {
        let mut total: u64 = 0;
        let mut k: usize = 0;
        while k < self.orders.len()
            invariant
                k <= self.orders.len(),
                self.orders@ == old(self).orders@,
                self.price == old(self).price,
                self.total_volume == old(self).total_volume,
                all_fill_ok(self.orders@),
                total == shown_total(self.orders@, k as int),
            decreases self.orders.len() - k,
        {
            let o = &self.orders[k];
            let open = o.remaining_quantity();
            let shown: u32 = match o.display_quantity {
                Some(d) => if d <= open {
                    d
                } else {
                    open
                },
                None => open,
            };
            total = total.saturating_add(shown as u64);
            k += 1;
        }
        self.visible_volume = total;
    }

    pub fn get_visible_volume(&self) -> (r: u64)
        ensures
            r == self.visible_volume,
    {
        self.visible_volume
    }

    /// Records a fill of `executed_qty` on the first order with the given
    /// id: its filled quantity grows by that much, and the shown volume
    /// becomes what the order now shows if it has a display size, else
    /// shrinks by the executed quantity. `Err`, and nothing changed, when no
    /// order of the level has that id.
    pub fn update_after_trade(&mut self, order_id: u64, executed_qty: u32) -> (r: Result<
        (),
        &'static str,
    >)
        requires
            forall|k: int|
                0 <= k < old(self).orders@.len() ==> #[trigger] old(self).orders@[k].filled_quantity
                    + executed_qty <= old(self).orders@[k].quantity,
        ensures
            final(self).price == old(self).price,
            final(self).total_volume == old(self).total_volume,
            match first_position(old(self).orders@, order_id) {
                Some(k) => {
                    let o = old(self).orders@[k];
                    let updated = Order { filled_quantity: (o.filled_quantity + executed_qty) as u32, ..o };
                    &&& r is Ok
                    &&& final(self).orders@ == old(self).orders@.update(k, updated)
                    &&& final(self).visible_volume == match o.display_quantity {
                        Some(d) => if d <= updated.remaining() {
                            d as int
                        } else {
                            updated.remaining()
                        },
                        None => sat_sub(old(self).visible_volume as int, executed_qty as int),
                    }
                },
                None => r is Err && *final(self) == *old(self),
            },
    {
        match find_position(&self.orders, order_id) {
            Some(k) => {
                let mut o = self.orders[k].clone();
                o.filled_quantity = o.filled_quantity + executed_qty;
                match o.display_quantity {
                    Some(d) => {
                        let open = o.remaining_quantity();
                        self.visible_volume = if d <= open {
                            d as u64
                        } else {
                            open as u64
                        };
                    },
                    None => {
                        self.visible_volume = self.visible_volume.saturating_sub(executed_qty as u64);
                    },
                }
                self.orders.set(k, o);
                Ok(())
            },
            None => Err("Order not found"),
        }
    }

    /// Sets the shown volume to what the first order with the given id shows
    /// (its display size capped by what it has open). `Err`, with the level
    /// unchanged, when no order of the level has that id, when that order is
    /// not an iceberg, or when it has no display size.
    pub fn replenish_iceberg_order(&mut self, order_id: u64) -> (r: Result<(), &'static str>)
        requires
            all_fill_ok(old(self).orders@),
        ensures
            final(self).price == old(self).price,
            final(self).orders@ == old(self).orders@,
            final(self).total_volume == old(self).total_volume,
            match first_position(old(self).orders@, order_id) {
                Some(k) => {
                    let o = old(self).orders@[k];
                    if o.order_type == OrderType::Iceberg && o.display_quantity.is_some() {
                        r is Ok && final(self).visible_volume == o.visible()
                    } else {
                        r is Err && final(self).visible_volume == old(self).visible_volume
                    }
                },
                None => r is Err && final(self).visible_volume == old(self).visible_volume,
            },
    {
        match find_position(&self.orders, order_id) {
            Some(k) => {
                let o = &self.orders[k];
                if o.order_type != OrderType::Iceberg {
                    return Err("Not an iceberg order");
                }
                match o.display_quantity {
                    None => Err("Missing display quantity"),
                    Some(d) => {
                        let open = o.remaining_quantity();
                        self.visible_volume = if d <= open {
                            d as u64
                        } else {
                            open as u64
                        };
                        Ok(())
                    },
                }
            },
            None => Err("Order not found in price level"),
        }
    }
}

} // verus!
