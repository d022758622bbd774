//! One side of a book as a vector of levels kept in ascending price order,
//! with at most one level per price; the operations that find, create and
//! drop levels.

use super::price_level::{all_fill_ok, first_position, has_id, sat_add, sat_sub, PriceLevel};
use crate::order::{Order, Side};
use vstd::prelude::*;

verus! {

/// Prices strictly ascend along the vector.
pub open spec fn prices_sorted(levels: Seq<PriceLevel>) -> bool {
    forall|i: int, j: int| 0 <= i < j < levels.len() ==> levels[i].price < levels[j].price
}

/// The position of the level at `price`, if the side has one.
pub open spec fn find_level(levels: Seq<PriceLevel>, price: u64) -> Option<int> {
    if exists|i: int| 0 <= i < levels.len() && levels[i].price == price {
        Some(choose|i: int| 0 <= i < levels.len() && levels[i].price == price)
    } else {
        None
    }
}

/// The set of prices at which the side has a level.
pub open spec fn level_prices(levels: Seq<PriceLevel>) -> Set<u64> {
    Set::new(|p: u64| exists|i: int| 0 <= i < levels.len() && levels[i].price == p)
}

/// Every level is non-empty and all its orders are consistent.
pub open spec fn levels_ok(levels: Seq<PriceLevel>) -> bool {
    forall|i: int|
        0 <= i < levels.len() ==> (#[trigger] levels[i]).orders@.len() > 0 && all_fill_ok(
            levels[i].orders@,
        )
}

/// In a sorted side, the level found for a price is the only one at it.
pub proof fn lemma_find_level_unique(levels: Seq<PriceLevel>, price: u64, i: int)
    requires
        prices_sorted(levels),
        0 <= i < levels.len(),
        levels[i].price == price,
    ensures
        find_level(levels, price) == Some(i),
{
    let c = choose|c: int| 0 <= c < levels.len() && levels[c].price == price;
    if c < i {
        assert(levels[c].price < levels[i].price);
    }
    if i < c {
        assert(levels[i].price < levels[c].price);
    }
}

/// Where a price sits in a sorted side: `Ok(i)` when level `i` has that
/// price, `Err(j)` when it has none and a level for it would go at `j`.
pub fn locate(levels: &Vec<PriceLevel>, price: u64) -> (r: Result<usize, usize>)
    requires
        prices_sorted(levels@),
    ensures
        match r {
            Ok(i) => i < levels@.len() && levels@[i as int].price == price && find_level(
                levels@,
                price,
            ) == Some(i as int),
            Err(j) => {
                &&& j <= levels@.len()
                &&& find_level(levels@, price).is_none()
                &&& forall|k: int| 0 <= k < j ==> levels@[k].price < price
                &&& forall|k: int| j <= k < levels@.len() ==> levels@[k].price > price
            },
        },
{
    let mut j: usize = 0;
    while j < levels.len()
        invariant
            j <= levels@.len(),
            prices_sorted(levels@),
            forall|k: int| 0 <= k < j ==> levels@[k].price < price,
        decreases levels.len() - j,
    {
        let p = levels[j].price;
        if p == price {
            proof {
                lemma_find_level_unique(levels@, price, j as int);
            }
            return Ok(j);
        }
        if p > price {
            proof {
                if exists|i: int| 0 <= i < levels@.len() && levels@[i].price == price {
                    let i = choose|i: int| 0 <= i < levels@.len() && levels@[i].price == price;
                    if i > j {
                        assert(levels@[j as int].price < levels@[i].price);
                    }
                }
            }
            return Err(j);
        }
        j += 1;
    }
    proof {
        if exists|i: int| 0 <= i < levels@.len() && levels@[i].price == price {
            let i = choose|i: int| 0 <= i < levels@.len() && levels@[i].price == price;
            assert(levels@[i].price < price);
        }
    }
    Err(j)
}

/// How a side changes when an order joins the level at `key`: that level
/// gets the order at its back, or, when the side has no level at `key`, a
/// new level holding just the order is put in its place in price order.
/// With `track_volume` the level's volume caches grow by what the order has
/// open and shows.
pub open spec fn side_after_add(
    old: Seq<PriceLevel>,
    new: Seq<PriceLevel>,
    key: u64,
    order: Order,
    track_volume: bool,
) -> bool {
    match find_level(old, key) {
        Some(i) => {
            &&& new.len() == old.len()
            &&& forall|k: int|
                0 <= k < old.len() && k != i ==> new[k] == old[k]
            &&& new[i].price == key
            &&& new[i].orders@ == old[i].orders@.push(order)
            &&& track_volume ==> new[i].total_volume == sat_add(
                old[i].total_volume as int,
                order.remaining(),
            )
            &&& track_volume ==> new[i].visible_volume == sat_add(
                old[i].visible_volume as int,
                order.visible(),
            )
        },
        None => exists|j: int|
            0 <= j <= old.len() && {
                &&& new.len() == old.len() + 1
                &&& forall|k: int| 0 <= k < j ==> new[k] == old[k]
                &&& forall|k: int|
                    j < k < new.len() ==> new[k] == old[k - 1]
                &&& new[j].price == key
                &&& new[j].orders@ == seq![order]
                &&& track_volume ==> new[j].total_volume == sat_add(
                    0,
                    order.remaining(),
                )
                &&& track_volume ==> new[j].visible_volume == sat_add(
                    0,
                    order.visible(),
                )
            },
    }
}

/// Puts an order at the back of the level at `key`, creating the level at
/// its place in price order when the side has none. With `track_volume` the
/// level's volume caches are kept up as `PriceLevel::add_order` does;
/// without it they are left alone.
pub fn add_to_side(levels: &mut Vec<PriceLevel>, key: u64, order: Order, track_volume: bool)
    requires
        prices_sorted(old(levels)@),
        levels_ok(old(levels)@),
        order.fill_ok(),
    ensures
        prices_sorted(final(levels)@),
        side_after_add(old(levels)@, final(levels)@, key, order, track_volume),
        levels_ok(final(levels)@),
        level_prices(final(levels)@) == level_prices(old(levels)@).insert(key),
{
    let ghost old_levels = levels@;
    match locate(levels, key) {
        Ok(i) => {
            let mut level = levels.remove(i);
            if track_volume {
                level.add_order(order);
            } else {
                level.orders.push(order);
            }
            levels.insert(i, level);
            proof {
                assert forall|k: int| 0 <= k < old_levels.len() && k != i implies levels@[k]
                    == old_levels[k] by {
                    if k < i {
                    } else {
                    }
                }
                assert(levels@.len() == old_levels.len());
                assert(all_fill_ok(levels@[i as int].orders@)) by {
                    assert forall|q: int| 0 <= q < levels@[i as int].orders@.len() implies (
                    #[trigger] levels@[i as int].orders@[q]).fill_ok() by {
                        if q < old_levels[i as int].orders@.len() {
                            assert(levels@[i as int].orders@[q] == old_levels[i as int].orders@[q]);
                        }
                    }
                }
                lemma_replace_keeps_side(old_levels, levels@, i as int);
                assert(level_prices(levels@) =~= level_prices(old_levels).insert(key)) by {
                    assert forall|p: u64| level_prices(old_levels).insert(key).contains(
                        p,
                    ) implies level_prices(levels@).contains(p) by {
                        if p != key {
                            let w = choose|w: int|
                                0 <= w < old_levels.len() && old_levels[w].price == p;
                            assert(levels@[w].price == p);
                        } else {
                            assert(levels@[i as int].price == p);
                        }
                    }
                    assert forall|p: u64| level_prices(levels@).contains(p) implies level_prices(
                        old_levels,
                    ).insert(key).contains(p) by {
                        let w = choose|w: int| 0 <= w < levels@.len() && levels@[w].price == p;
                        assert(old_levels[w].price == p);
                    }
                }
            }
        },
        Err(j) => {
            let mut level = PriceLevel::new(key);
            if track_volume {
                level.add_order(order);
            } else {
                level.orders.push(order);
            }
            levels.insert(j, level);
            proof {
                assert forall|a: int, b: int| 0 <= a < b < levels@.len() implies levels@[a].price
                    < levels@[b].price by {
                    if b < j {
                        assert(old_levels[a].price < old_levels[b].price);
                    } else if b == j {
                    } else if a < j {
                        assert(old_levels[a].price < key);
                        assert(old_levels[b - 1].price > key);
                    } else if a == j {
                        assert(old_levels[b - 1].price > key);
                    } else {
                        assert(old_levels[a - 1].price < old_levels[b - 1].price);
                    }
                }
                assert(levels@[j as int].orders@ =~= seq![order]);
                assert forall|m: int| 0 <= m < levels@.len() implies (
                #[trigger] levels@[m]).orders@.len() > 0 && all_fill_ok(levels@[m].orders@) by {
                    if m < j {
                        assert(levels@[m] == old_levels[m]);
                    } else if m > j {
                        assert(levels@[m] == old_levels[m - 1]);
                    } else {
                        assert(levels@[m].orders@[0] == order);
                    }
                }
                assert(level_prices(levels@) =~= level_prices(old_levels).insert(key)) by {
                    assert forall|p: u64| level_prices(old_levels).insert(key).contains(
                        p,
                    ) implies level_prices(levels@).contains(p) by {
                        if p != key {
                            let w = choose|w: int|
                                0 <= w < old_levels.len() && old_levels[w].price == p;
                            if w < j {
                                assert(levels@[w].price == p);
                            } else {
                                assert(levels@[w + 1].price == p);
                            }
                        } else {
                            assert(levels@[j as int].price == p);
                        }
                    }
                    assert forall|p: u64| level_prices(levels@).contains(p) implies level_prices(
                        old_levels,
                    ).insert(key).contains(p) by {
                        let w = choose|w: int| 0 <= w < levels@.len() && levels@[w].price == p;
                        if w < j {
                            assert(old_levels[w].price == p);
                        } else if w > j {
                            assert(old_levels[w - 1].price == p);
                        }
                    }
                }
            }
        },
    }
}

/// Removing a level keeps a side sorted.
pub proof fn lemma_remove_keeps_sorted(levels: Seq<PriceLevel>, i: int)
    requires
        prices_sorted(levels),
        0 <= i < levels.len(),
    ensures
        prices_sorted(levels.remove(i)),
{
    let r = levels.remove(i);
    assert forall|a: int, b: int| 0 <= a < b < r.len() implies r[a].price < r[b].price by {
        if b < i {
            assert(levels[a].price < levels[b].price);
        } else if a < i {
            assert(levels[a].price < levels[b + 1].price);
        } else {
            assert(levels[a + 1].price < levels[b + 1].price);
        }
    }
}

/// Removing a level keeps every remaining level non-empty and consistent.
pub proof fn lemma_remove_keeps_ok(levels: Seq<PriceLevel>, i: int)
    requires
        levels_ok(levels),
        0 <= i < levels.len(),
    ensures
        levels_ok(levels.remove(i)),
{
    let r = levels.remove(i);
    assert forall|m: int| 0 <= m < r.len() implies (#[trigger] r[m]).orders@.len() > 0 && all_fill_ok(
        r[m].orders@,
    ) by {
        if m < i {
            assert(r[m] == levels[m]);
        } else {
            assert(r[m] == levels[m + 1]);
        }
    }
}

/// Replacing level `i` by one at the same price, non-empty and consistent,
/// keeps the side sorted and consistent.
pub proof fn lemma_replace_keeps_side(
    old_levels: Seq<PriceLevel>,
    new_levels: Seq<PriceLevel>,
    i: int,
)
    requires
        prices_sorted(old_levels),
        levels_ok(old_levels),
        0 <= i < old_levels.len(),
        new_levels.len() == old_levels.len(),
        forall|m: int| 0 <= m < old_levels.len() && m != i ==> new_levels[m] == old_levels[m],
        new_levels[i].price == old_levels[i].price,
        new_levels[i].orders@.len() > 0,
        all_fill_ok(new_levels[i].orders@),
    ensures
        prices_sorted(new_levels),
        levels_ok(new_levels),
{
    assert forall|a: int, b: int| 0 <= a < b < new_levels.len() implies new_levels[a].price
        < new_levels[b].price by {
        assert(old_levels[a].price < old_levels[b].price);
    }
    assert forall|m: int| 0 <= m < new_levels.len() implies (
    #[trigger] new_levels[m]).orders@.len() > 0 && all_fill_ok(new_levels[m].orders@) by {
        if m != i {
            assert(new_levels[m] == old_levels[m]);
        }
    }
}

/// Removing one order keeps the rest consistent.
pub proof fn lemma_remove_order_keeps_ok(orders: Seq<Order>, k: int)
    requires
        all_fill_ok(orders),
        0 <= k < orders.len(),
    ensures
        all_fill_ok(orders.remove(k)),
{
    let r = orders.remove(k);
    assert forall|q: int| 0 <= q < r.len() implies (#[trigger] r[q]).fill_ok() by {
        if q < k {
            assert(r[q] == orders[q]);
        } else {
            assert(r[q] == orders[q + 1]);
        }
    }
}

/// How a side changes when the first order with id `id` leaves the level
/// at `key`: `r` is that order and it is gone from the level, which is
/// dropped when it becomes empty; with `track_volume` the level's volume
/// caches shrink by what the order has open and shows. When the side holds
/// no such order at `key`, `r` is `None` and the side is unchanged.
pub open spec fn side_after_remove(
    old: Seq<PriceLevel>,
    new: Seq<PriceLevel>,
    key: u64,
    id: u64,
    r: Option<Order>,
    track_volume: bool,
) -> bool {
    &&& r.is_some() == match find_level(old, key) {
        Some(i) => has_id(old[i].orders@, id),
        None => false,
    }
    &&& r.is_none() ==> new == old
    &&& r.is_some() ==> {
        let i = find_level(old, key).unwrap();
        let k = first_position(old[i].orders@, id).unwrap();
        let o = old[i].orders@[k];
        &&& r == Some(o)
        &&& if old[i].orders@.len() == 1 {
            new == old.remove(i)
        } else {
            &&& new.len() == old.len()
            &&& forall|m: int| 0 <= m < old.len() && m != i ==> new[m] == old[m]
            &&& new[i].price == key
            &&& new[i].orders@ == old[i].orders@.remove(k)
            &&& track_volume ==> new[i].total_volume == sat_sub(
                old[i].total_volume as int,
                o.remaining(),
            )
            &&& track_volume ==> new[i].visible_volume == sat_sub(
                old[i].visible_volume as int,
                o.visible(),
            )
            &&& !track_volume ==> new[i].total_volume == old[i].total_volume
            &&& !track_volume ==> new[i].visible_volume == old[i].visible_volume
        }
    }
}

/// Takes the first order with the given id out of the level at `key` and
/// returns it, dropping the level when that leaves it empty. With
/// `track_volume` the level's volume caches shrink as
/// `PriceLevel::remove_order` shrinks them. `None`, and nothing changed, when
/// the side holds no order with that id at that price.
#[verifier::rlimit(60)]
pub fn remove_from_side(levels: &mut Vec<PriceLevel>, key: u64, id: u64, track_volume: bool) -> (r:
    Option<Order>)
    requires
        prices_sorted(old(levels)@),
        levels_ok(old(levels)@),
    ensures
        prices_sorted(final(levels)@),
        levels_ok(final(levels)@),
        side_after_remove(old(levels)@, final(levels)@, key, id, r, track_volume),
        r matches Some(o) ==> o.id == id,
{
    let ghost old_levels = levels@;
    match locate(levels, key) {
        Err(_) => None,
        Ok(i) => {
            let found = super::price_level::find_position(&levels[i].orders, id);
            match found {
                None => None,
                Some(k) => {
                    let mut level = levels.remove(i);
                    proof {
                        assert(level == old_levels[i as int]);
                    }
                    let removed = if track_volume {
                        level.remove_order(id).unwrap()
                    } else {
                        level.orders.remove(k)
                    };
                    proof {
                        lemma_remove_order_keeps_ok(old_levels[i as int].orders@, k as int);
                    }
                    if level.orders.len() > 0 {
                        levels.insert(i, level);
                        proof {
                            lemma_replace_keeps_side(old_levels, levels@, i as int);
                        }
                    } else {
                        proof {
                            assert(levels@ =~= old_levels.remove(i as int));
                            lemma_remove_keeps_sorted(old_levels, i as int);
                            lemma_remove_keeps_ok(old_levels, i as int);
                        }
                    }
                    Some(removed)
                },
            }
        },
    }
}

/// Whether an order can sit at level price `key` of the given side: of a
/// book (at its price), or of a stop book (at its stop price).
pub open spec fn fits(order: Order, key: u64, side: Side, stop: bool) -> bool {
    &&& order.side == side
    &&& if stop {
        order.stop_price == Some(key)
    } else {
        order.price == key
    }
}

/// A side is sorted, its levels non-empty and consistent, and every order in
/// it fits its level.
pub open spec fn side_fits(levels: Seq<PriceLevel>, side: Side, stop: bool) -> bool {
    &&& prices_sorted(levels)
    &&& levels_ok(levels)
    &&& forall|i: int, k: int|
        0 <= i < levels.len() && 0 <= k < levels[i].orders@.len() ==> fits(
            #[trigger] levels[i].orders@[k],
            levels[i].price,
            side,
            stop,
        )
}

/// Adding an order that fits its level keeps the side fitting.
pub proof fn lemma_add_keeps_fit(
    old: Seq<PriceLevel>,
    new: Seq<PriceLevel>,
    key: u64,
    order: Order,
    track_volume: bool,
    side: Side,
    stop: bool,
)
    requires
        side_fits(old, side, stop),
        prices_sorted(new),
        levels_ok(new),
        side_after_add(old, new, key, order, track_volume),
        fits(order, key, side, stop),
    ensures
        side_fits(new, side, stop),
{
    assert forall|i: int, k: int|
        0 <= i < new.len() && 0 <= k < new[i].orders@.len() implies fits(
        #[trigger] new[i].orders@[k],
        new[i].price,
        side,
        stop,
    ) by {
        match find_level(old, key) {
            Some(li) => {
                if i != li {
                    assert(new[i] == old[i]);
                } else if k < old[i].orders@.len() {
                    assert(new[i].orders@[k] == old[i].orders@[k]);
                } else {
                    assert(new[i].orders@[k] == order);
                }
            },
            None => {
                let j = choose|j: int|
                    0 <= j <= old.len() && {
                        &&& new.len() == old.len() + 1
                        &&& forall|k: int| 0 <= k < j ==> new[k] == old[k]
                        &&& forall|k: int| j < k < new.len() ==> new[k] == old[k - 1]
                        &&& new[j].price == key
                        &&& new[j].orders@ == seq![order]
                        &&& track_volume ==> new[j].total_volume == sat_add(0, order.remaining())
                        &&& track_volume ==> new[j].visible_volume == sat_add(
                            0,
                            order.visible(),
                        )
                    };
                if i < j {
                    assert(new[i] == old[i]);
                } else if i > j {
                    assert(new[i] == old[i - 1]);
                } else {
                    assert(new[i].orders@[k] == order);
                }
            },
        }
    }
}

/// Taking an order out keeps the side fitting.
pub proof fn lemma_remove_keeps_fit(
    old: Seq<PriceLevel>,
    new: Seq<PriceLevel>,
    key: u64,
    id: u64,
    r: Option<Order>,
    track_volume: bool,
    side: Side,
    stop: bool,
)
    requires
        side_fits(old, side, stop),
        prices_sorted(new),
        levels_ok(new),
        side_after_remove(old, new, key, id, r, track_volume),
    ensures
        side_fits(new, side, stop),
{
    if r.is_some() {
        let li = find_level(old, key).unwrap();
        super::price_level::lemma_first_position(old[li].orders@, id);
        let kk = first_position(old[li].orders@, id).unwrap();
        if old[li].orders@.len() == 1 {
            assert forall|i: int, k: int|
                0 <= i < new.len() && 0 <= k < new[i].orders@.len() implies fits(
                #[trigger] new[i].orders@[k],
                new[i].price,
                side,
                stop,
            ) by {
                if i < li {
                    assert(new[i] == old[i]);
                } else {
                    assert(new[i] == old[i + 1]);
                }
            }
        } else {
            assert forall|i: int, k: int|
                0 <= i < new.len() && 0 <= k < new[i].orders@.len() implies fits(
                #[trigger] new[i].orders@[k],
                new[i].price,
                side,
                stop,
            ) by {
                if i != li {
                    assert(new[i] == old[i]);
                } else if k < kk {
                    assert(new[i].orders@[k] == old[i].orders@[k]);
                } else {
                    assert(new[i].orders@[k] == old[i].orders@[k + 1]);
                }
            }
        }
    }
}

/// Taking the order `id` out of a side leaves any other order `other`
/// found at `price` before still found there.
pub proof fn lemma_side_remove_keeps(
    old: Seq<PriceLevel>,
    new: Seq<PriceLevel>,
    key: u64,
    id: u64,
    r: Option<Order>,
    price: u64,
    other: u64,
)
    requires
        prices_sorted(new),
        side_after_remove(old, new, key, id, r, true),
        r.is_some(),
        other != id,
        find_level(old, price) matches Some(i2) && has_id(old[i2].orders@, other),
    ensures
        find_level(new, price) matches Some(j) && has_id(new[j].orders@, other),
{
    let i = find_level(old, key).unwrap();
    let i2 = find_level(old, price).unwrap();
    let k = first_position(old[i].orders@, id).unwrap();
    super::price_level::lemma_first_position(old[i].orders@, id);
    let k2 = choose|k2: int| 0 <= k2 < old[i2].orders@.len() && (#[trigger] old[i2].orders@[k2]).id == other;
    if old[i].orders@.len() == 1 {
        if i2 == i {
            assert(old[i].orders@[0].id == id);
        }
        let j = if i2 < i {
            i2
        } else {
            i2 - 1
        };
        assert(new[j] == old[i2]);
        lemma_find_level_unique(new, price, j);
        assert(new[j].orders@[k2].id == other);
    } else if i2 != i {
        assert(new[i2] == old[i2]);
        lemma_find_level_unique(new, price, i2);
        assert(new[i2].orders@[k2].id == other);
    } else {
        assert(k2 != k);
        let rest = old[i].orders@.remove(k);
        let j = if k2 < k {
            k2
        } else {
            k2 - 1
        };
        assert(rest[j] == old[i].orders@[k2]);
        assert(new[i].orders@[j].id == other);
        lemma_find_level_unique(new, price, i);
    }
}

/// Changing one level but not its price keeps the side's prices.
pub proof fn lemma_prices_update(old: Seq<PriceLevel>, new: Seq<PriceLevel>, i: int)
    requires
        0 <= i < old.len(),
        new.len() == old.len(),
        forall|m: int| 0 <= m < old.len() && m != i ==> new[m] == old[m],
        new[i].price == old[i].price,
    ensures
        level_prices(new) == level_prices(old),
{
    assert forall|p: u64| level_prices(new).contains(p) implies level_prices(old).contains(p) by {
        let m = choose|m: int| 0 <= m < new.len() && new[m].price == p;
        assert(old[m].price == p);
    }
    assert forall|p: u64| level_prices(old).contains(p) implies level_prices(new).contains(p) by {
        let m = choose|m: int| 0 <= m < old.len() && old[m].price == p;
        assert(new[m].price == p);
    }
    assert(level_prices(new) =~= level_prices(old));
}

/// Dropping a level leaves a subset of the side's prices.
pub proof fn lemma_prices_remove(old: Seq<PriceLevel>, i: int)
    requires
        0 <= i < old.len(),
    ensures
        level_prices(old.remove(i)).subset_of(level_prices(old)),
{
    let new = old.remove(i);
    assert forall|p: u64| level_prices(new).contains(p) implies level_prices(old).contains(p) by {
        let m = choose|m: int| 0 <= m < new.len() && new[m].price == p;
        if m < i {
            assert(old[m].price == p);
        } else {
            assert(old[m + 1].price == p);
        }
    }
}

} // verus!
