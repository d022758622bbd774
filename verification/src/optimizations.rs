//! Structures for the hot path: a pool that reuses order records, a bounded
//! queue that hands orders from one producer to one consumer, and a price
//! level whose counters each sit on a cache line of their own.

use crate::order::{Order, OrderStatus, OrderType, Side, TimeInForce};
use crate::orderbook::price_level::{find_position, first_position, has_id, lemma_first_position};
use crossbeam::queue::ArrayQueue;
use crossbeam_utils::CachePadded;
use vstd::prelude::*;

verus! {

// ---------------------------------------------------------------------------
// The outside types and calls.

#[verifier::external_type_specification]
#[verifier::external_body]
#[verifier::reject_recursive_types(T)]
pub struct ExArrayQueue<T>(ArrayQueue<T>);

#[verifier::external_type_specification]
#[verifier::external_body]
#[verifier::reject_recursive_types(T)]
pub struct ExCachePadded<T>(CachePadded<T>);

/// The orders in a queue, from the first to leave to the last.
pub uninterp spec fn queued(q: ArrayQueue<Order>) -> Seq<Order>;

/// The number of orders a queue was made to hold.
pub uninterp spec fn queue_cap(q: ArrayQueue<Order>) -> nat;

/// The value a cache-padded cell holds.
pub uninterp spec fn padded(p: CachePadded<u64>) -> u64;

/// `ArrayQueue::new`: an empty queue for `cap` orders. The crate panics on a
/// capacity of 0, and when `cap + 1`, rounded up to a power of two, does
/// not fit in the index type.
#[verifier::external_body]
fn queue_new(cap: usize) -> (r: ArrayQueue<Order>)
    requires
        0 < cap <= usize::MAX / 2,
    ensures
        queued(r) == Seq::<Order>::empty(),
        queue_cap(r) == cap,
{
    ArrayQueue::new(cap)
}

/// `ArrayQueue::push`, with the queue held alone: the order joins the back
/// unless the queue is full, in which case it is handed back (`Some`).
#[verifier::external_body]
fn queue_push(q: &mut ArrayQueue<Order>, order: Order) -> (r: Option<Order>)
    ensures
        queue_cap(*final(q)) == queue_cap(*old(q)),
        queued(*old(q)).len() < queue_cap(*old(q)) ==> r is None
            && queued(*final(q)) == queued(*old(q)).push(order),
        queued(*old(q)).len() >= queue_cap(*old(q)) ==> r == Some(order)
            && queued(*final(q)) == queued(*old(q)),
{
    match q.push(order) {
        Ok(()) => None,
        Err(back) => Some(back),
    }
}

/// `ArrayQueue::pop`, with the queue held alone: the order at the front
/// leaves, or `None` when the queue is empty.
#[verifier::external_body]
fn queue_pop(q: &mut ArrayQueue<Order>) -> (r: Option<Order>)
    ensures
        queue_cap(*final(q)) == queue_cap(*old(q)),
        queued(*old(q)).len() == 0 ==> r is None && queued(*final(q)) == queued(*old(q)),
        queued(*old(q)).len() > 0 ==> r == Some(queued(*old(q))[0])
            && queued(*final(q)) == queued(*old(q)).drop_first(),
{
    q.pop()
}

/// `CachePadded::new`: a cell on a cache line of its own, holding `v`.
#[verifier::external_body]
fn pad(v: u64) -> (r: CachePadded<u64>)
    ensures
        padded(r) == v,
{
    CachePadded::new(v)
}

/// The value of a cache-padded cell, read through `Deref`.
#[verifier::external_body]
fn padded_get(p: &CachePadded<u64>) -> (r: u64)
    ensures
        r == padded(*p),
{
    **p
}

/// Writes a cache-padded cell through `DerefMut`.
#[verifier::external_body]
fn padded_set(p: &mut CachePadded<u64>, v: u64)
    ensures
        padded(*final(p)) == v,
{
    **p = v;
}

// ---------------------------------------------------------------------------
// The order pool.

/// An order record as the pool hands it out: empty symbol, a limit buy of
/// nothing at price 0 for user 0, with no id yet.
pub open spec fn is_blank(o: Order) -> bool {
    &&& o.id == 0
    &&& o.symbol@.len() == 0
    &&& o.side == Side::Buy
    &&& o.order_type == OrderType::Limit
    &&& o.price == 0
    &&& o.quantity == 0
    &&& o.filled_quantity == 0
    &&& o.status == OrderStatus::New
    &&& o.user_id == 0
    &&& o.time_in_force == TimeInForce::GTC
    &&& o.expiration_time == 0
    &&& o.stop_price.is_none()
    &&& o.display_quantity.is_none()
}

/// A fresh blank order record.
fn blank_order() -> (r: Order)
    ensures
        is_blank(r),
{
    Order::new(String::new(), Side::Buy, OrderType::Limit, 0, 0, 0)
}

pub struct OrderPool {
    free_list: Vec<Order>,
    total_allocated: usize,
}

impl OrderPool {
    /// The records waiting to be handed out.
    pub closed spec fn free(&self) -> Seq<Order> {
        self.free_list@
    }

    /// The number of records the pool has made.
    pub closed spec fn allocated(&self) -> nat {
        self.total_allocated as nat
    }

    /// A pool with `initial_capacity` blank records made up front.
    pub fn new(initial_capacity: usize) -> (r: Self)
        ensures
            r.free().len() == initial_capacity,
            forall|i: int| 0 <= i < r.free().len() ==> is_blank(#[trigger] r.free()[i]),
            r.allocated() == initial_capacity,
    {
        let mut free_list: Vec<Order> = Vec::with_capacity(initial_capacity);
        for _i in 0..initial_capacity
            invariant
                free_list@.len() == _i,
                forall|i: int| 0 <= i < free_list@.len() ==> is_blank(#[trigger] free_list@[i]),
        {
            free_list.push(blank_order());
        }
        OrderPool { free_list, total_allocated: initial_capacity }
    }

    /// A blank record: the last one released, wiped, when there is one;
    /// otherwise a new one, counted as made.
    pub fn acquire(&mut self) -> (r: Order)
        requires
            old(self).free().len() > 0 || old(self).allocated() < usize::MAX,
        ensures
            is_blank(r),
            old(self).free().len() > 0 ==> final(self).free() == old(self).free().drop_last()
                && final(self).allocated() == old(self).allocated(),
            old(self).free().len() == 0 ==> final(self).free() == old(self).free()
                && final(self).allocated() == old(self).allocated() + 1,
    {
        match self.free_list.pop() {
            Some(_recycled) => blank_order(),
            None => {
                self.total_allocated = self.total_allocated + 1;
                blank_order()
            },
        }
    }

    /// Takes a record back for reuse.
    pub fn release(&mut self, order: Order)
        ensures
            final(self).free() == old(self).free().push(order),
            final(self).allocated() == old(self).allocated(),
    {
        self.free_list.push(order);
    }

    /// The number of records the pool has made.
    pub fn get_total_allocated(&self) -> (r: usize)
        ensures
            r == self.allocated(),
    {
        self.total_allocated
    }
}

// ---------------------------------------------------------------------------
// The single-producer single-consumer queue.

pub struct SPSCQueue {
    queue: ArrayQueue<Order>,
}

impl SPSCQueue {
    /// The orders waiting, first out first.
    pub closed spec fn contents(&self) -> Seq<Order> {
        queued(self.queue)
    }

    /// The number of orders the queue holds at most.
    pub closed spec fn capacity(&self) -> nat {
        queue_cap(self.queue)
    }

    /// The queue holds no more than its capacity.
    pub closed spec fn wf(&self) -> bool {
        queued(self.queue).len() <= queue_cap(self.queue)
    }

    /// An empty queue for `capacity` orders.
    pub fn new(capacity: usize) -> (r: Self)
        requires
            0 < capacity <= usize::MAX / 2,
        ensures
            r.wf(),
            r.contents() == Seq::<Order>::empty(),
            r.capacity() == capacity,
    {
        SPSCQueue { queue: queue_new(capacity) }
    }

    /// Puts an order at the back, or fails with "Queue is full" when the
    /// queue holds its capacity already.
    pub fn enqueue(&mut self, order: Order) -> (r: Result<(), &'static str>)
        requires
            old(self).wf(),
        ensures
            final(self).wf(),
            final(self).capacity() == old(self).capacity(),
            old(self).contents().len() < old(self).capacity() ==> r is Ok && final(self).contents()
                == old(self).contents().push(order),
            old(self).contents().len() >= old(self).capacity() ==> (r matches Err(e) && e@
                == "Queue is full"@) && final(self).contents() == old(self).contents(),
    {
        match queue_push(&mut self.queue, order) {
            None => Ok(()),
            Some(_) => Err("Queue is full"),
        }
    }

    /// Takes the order at the front, or `None` when the queue is empty.
    pub fn dequeue(&mut self) -> (r: Option<Order>)
        requires
            old(self).wf(),
        ensures
            final(self).wf(),
            final(self).capacity() == old(self).capacity(),
            old(self).contents().len() == 0 ==> r is None && final(self).contents() == old(self).contents(),
            old(self).contents().len() > 0 ==> r == Some(old(self).contents()[0]) && final(self).contents() == old(self).contents().drop_first(),
    {
        queue_pop(&mut self.queue)
    }
}

// ---------------------------------------------------------------------------
// The cache-aligned price level.

/// The sum of `f` over the orders.
pub open spec fn sum_by(orders: Seq<Order>, f: spec_fn(Order) -> int) -> int
    decreases orders.len(),
{
    if orders.len() == 0 {
        0
    } else {
        sum_by(orders.drop_last(), f) + f(orders.last())
    }
}

/// What an order has open.
pub open spec fn open_quantity() -> spec_fn(Order) -> int {
    |o: Order| o.remaining()
}

/// What an order shows to the market.
pub open spec fn shown() -> spec_fn(Order) -> int {
    |o: Order| o.visible()
}

/// Adding an order at the back adds its share to the sum.
pub proof fn lemma_sum_push(orders: Seq<Order>, o: Order, f: spec_fn(Order) -> int)
    ensures
        sum_by(orders.push(o), f) == sum_by(orders, f) + f(o),
{
    assert(orders.push(o).drop_last() =~= orders);
}

/// Taking the order at `k` out takes its share off the sum.
pub proof fn lemma_sum_remove(orders: Seq<Order>, k: int, f: spec_fn(Order) -> int)
    requires
        0 <= k < orders.len(),
    ensures
        sum_by(orders.remove(k), f) == sum_by(orders, f) - f(orders[k]),
    decreases orders.len(),
{
    if k == orders.len() - 1 {
        assert(orders.remove(k) =~= orders.drop_last());
    } else {
        lemma_sum_remove(orders.drop_last(), k, f);
        assert(orders.remove(k).drop_last() =~= orders.drop_last().remove(k));
        assert(orders.remove(k).last() == orders.last());
    }
}

/// A sum of shares none of which is negative is not negative.
pub proof fn lemma_sum_nonneg(orders: Seq<Order>, f: spec_fn(Order) -> int)
    requires
        forall|i: int| 0 <= i < orders.len() ==> f(#[trigger] orders[i]) >= 0,
    ensures
        sum_by(orders, f) >= 0,
    decreases orders.len(),
{
    if orders.len() > 0 {
        assert forall|i: int| 0 <= i < orders.drop_last().len() implies f(
            #[trigger] orders.drop_last()[i],
        ) >= 0 by {
            assert(orders.drop_last()[i] == orders[i]);
        }
        lemma_sum_nonneg(orders.drop_last(), f);
    }
}

/// Taking the order at `k` out of orders none of which is overfilled takes
/// its open and shown quantities off the sums, which stay nonnegative.
pub proof fn lemma_level_remove(orders: Seq<Order>, k: int)
    requires
        0 <= k < orders.len(),
        forall|i: int| 0 <= i < orders.len() ==> (#[trigger] orders[i]).fill_ok(),
    ensures
        sum_by(orders.remove(k), open_quantity()) == sum_by(orders, open_quantity())
            - orders[k].remaining(),
        sum_by(orders.remove(k), shown()) == sum_by(orders, shown()) - orders[k].visible(),
        sum_by(orders.remove(k), open_quantity()) >= 0,
        sum_by(orders.remove(k), shown()) >= 0,
        forall|i: int| 0 <= i < orders.remove(k).len() ==> (#[trigger] orders.remove(k)[i]).fill_ok(),
{
    lemma_sum_remove(orders, k, open_quantity());
    lemma_sum_remove(orders, k, shown());
    let rest = orders.remove(k);
    assert forall|i: int| 0 <= i < rest.len() implies (#[trigger] rest[i]).fill_ok() by {
        if i < k {
            assert(rest[i] == orders[i]);
        } else {
            assert(rest[i] == orders[i + 1]);
        }
    }
    assert forall|i: int| 0 <= i < rest.len() implies (#[trigger] open_quantity()(rest[i])) >= 0 by {
        assert(rest[i].fill_ok());
    }
    assert forall|i: int| 0 <= i < rest.len() implies (#[trigger] shown()(rest[i])) >= 0 by {
        assert(rest[i].fill_ok());
    }
    lemma_sum_nonneg(rest, open_quantity());
    lemma_sum_nonneg(rest, shown());
}

/// Taking out, by its id, an order just added to a level where no order had
/// that id finds that order at the back and leaves the orders as they were
/// (and so, by `lemma_sum_remove`, the volumes too).
pub proof fn lemma_add_then_remove(orders: Seq<Order>, o: Order)
    requires
        !has_id(orders, o.id),
    ensures
        first_position(orders.push(o), o.id) == Some(orders.len() as int),
        orders.push(o).remove(orders.len() as int) == orders,
{
    let s = orders.push(o);
    assert(s[orders.len() as int].id == o.id);
    lemma_first_position(s, o.id);
    let k = first_position(s, o.id).unwrap();
    if k < orders.len() {
        assert(s[k] == orders[k]);
        assert(has_id(orders, o.id));
    }
    assert(s.remove(orders.len() as int) =~= orders);
}

pub struct CacheAlignedPriceLevel {
    price: CachePadded<u64>,
    total_volume: CachePadded<u64>,
    visible_volume: CachePadded<u64>,
    orders: Vec<Order>,
}

impl CacheAlignedPriceLevel {
    /// The level's price.
    pub closed spec fn price_of(&self) -> u64 {
        padded(self.price)
    }

    /// The volume open at the level.
    pub closed spec fn total(&self) -> u64 {
        padded(self.total_volume)
    }

    /// The volume shown at the level.
    pub closed spec fn shown_total(&self) -> u64 {
        padded(self.visible_volume)
    }

    /// The orders resting at the level, in time order.
    pub closed spec fn orders_of(&self) -> Seq<Order> {
        self.orders@
    }

    /// The volumes are the sums over the orders, none of which is filled
    /// beyond its quantity.
    pub closed spec fn wf(&self) -> bool {
        &&& forall|i: int| 0 <= i < self.orders@.len() ==> (#[trigger] self.orders@[i]).fill_ok()
        &&& padded(self.total_volume) == sum_by(self.orders@, open_quantity())
        &&& padded(self.visible_volume) == sum_by(self.orders@, shown())
    }

    /// An empty level at `price`.
    pub fn new(price: u64) -> (r: Self)
        ensures
            r.wf(),
            r.price_of() == price,
            r.orders_of() == Seq::<Order>::empty(),
            r.total() == 0,
            r.shown_total() == 0,
    {
        CacheAlignedPriceLevel {
            price: pad(price),
            total_volume: pad(0),
            visible_volume: pad(0),
            orders: Vec::new(),
        }
    }

    /// Adds an order at the back, with its open and shown quantities.
    pub fn add_order(&mut self, order: Order)
        requires
            old(self).wf(),
            order.fill_ok(),
            old(self).total() + order.remaining() <= u64::MAX,
            old(self).shown_total() + order.visible() <= u64::MAX,
        ensures
            final(self).wf(),
            final(self).price_of() == old(self).price_of(),
            final(self).orders_of() == old(self).orders_of().push(order),
            final(self).total() == old(self).total() + order.remaining(),
            final(self).shown_total() == old(self).shown_total() + order.visible(),
    {
        let remaining = order.remaining_quantity() as u64;
        let visible = order.visible_quantity() as u64;
        let total = padded_get(&self.total_volume);
        padded_set(&mut self.total_volume, total + remaining);
        let shown_now = padded_get(&self.visible_volume);
        padded_set(&mut self.visible_volume, shown_now + visible);
        proof {
            lemma_sum_push(self.orders@, order, open_quantity());
            lemma_sum_push(self.orders@, order, shown());
        }
        self.orders.push(order);
    }

    /// Takes out the first order with the given id, with its open and shown
    /// quantities; `None` when no order has it.
    pub fn remove_order(&mut self, order_id: u64) -> (r: Option<Order>)
        requires
            old(self).wf(),
        ensures
            final(self).wf(),
            final(self).price_of() == old(self).price_of(),
            match first_position(old(self).orders_of(), order_id) {
                None => r is None && final(self).orders_of() == old(self).orders_of() && final(self).total() == old(self).total() && final(self).shown_total() == old(self).shown_total(),
                Some(k) => r == Some(old(self).orders_of()[k]) && final(self).orders_of() == old(self).orders_of().remove(k) && final(self).total() == old(self).total()
                    - old(self).orders_of()[k].remaining() && final(self).shown_total() == old(self).shown_total() - old(self).orders_of()[k].visible(),
            },
    {
        let position = match find_position(&self.orders, order_id) {
            Some(p) => p,
            None => {
                return None;
            },
        };
        let ghost before = self.orders@;
        let order = self.orders.remove(position);
        proof {
            lemma_level_remove(before, position as int);
        }
        let remaining = order.remaining_quantity() as u64;
        let visible = order.visible_quantity() as u64;
        let total = padded_get(&self.total_volume);
        padded_set(&mut self.total_volume, total - remaining);
        let shown_now = padded_get(&self.visible_volume);
        padded_set(&mut self.visible_volume, shown_now - visible);
        Some(order)
    }

    pub fn get_total_volume(&self) -> (r: u64)
        ensures
            r == self.total(),
    {
        padded_get(&self.total_volume)
    }

    pub fn get_visible_volume(&self) -> (r: u64)
        ensures
            r == self.shown_total(),
    {
        padded_get(&self.visible_volume)
    }

    pub fn get_price(&self) -> (r: u64)
        ensures
            r == self.price_of(),
    {
        padded_get(&self.price)
    }
}

} // verus!
