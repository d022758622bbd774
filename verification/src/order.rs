//! Orders: their sides, types, lifetimes and the quantities derived from
//! their fill state.

use crate::clock::{duration_nanos, epoch_offset, unix_nanos};
use std::time::SystemTime;
use vstd::prelude::*;

verus! {

/// Nanoseconds in one day.
pub const NANOS_PER_DAY: i64 = 86_400_000_000_000i64;

/// Nanoseconds in one millisecond.
pub const NANOS_PER_MILLI: i64 = 1_000_000i64;

/// Division that rounds toward zero, as Rust's `/` does on signed integers.
pub open spec fn trunc_div(a: int, b: int) -> int {
    if a >= 0 {
        a / b
    } else {
        -((-a) / b)
    }
}

/// `nanos` rounded toward zero to a whole number of milliseconds.
pub open spec fn truncate_to_millis(nanos: int) -> int {
    trunc_div(nanos, NANOS_PER_MILLI as int) * (NANOS_PER_MILLI as int)
}

#[derive(Debug, Clone, Copy, PartialEq, Eq, Structural)]
pub enum Side {
    Buy,
    Sell,
}

#[derive(Debug, Clone, Copy, PartialEq, Eq, Structural)]
pub enum OrderType {
    Limit,
    Market,
    StopLimit,
    StopMarket,
    Iceberg,
}

#[derive(Debug, Clone, Copy, PartialEq, Eq, Structural)]
pub enum TimeInForce {
    GTC,
    IOC,
    FOK,
    GTD,
    Day,
}

#[derive(Debug, Clone, Copy, PartialEq, Eq, Structural)]
pub enum OrderStatus {
    New,
    PartiallyFilled,
    Filled,
    Canceled,
    Rejected,
    Expired,
}

impl Side {
    pub open spec fn spec_opposite(self) -> Side {
        match self {
            Side::Buy => Side::Sell,
            Side::Sell => Side::Buy,
        }
    }

    /// The other side of the other side is the side itself.
    pub proof fn lemma_opposite_involution(self)
        ensures
            self.spec_opposite().spec_opposite() == self,
            self.spec_opposite() != self,
    {
    }

    /// The other side of the book.
    pub fn opposite(&self) -> (r: Side)
        ensures
            r == self.spec_opposite(),
    {
        match self {
            Side::Buy => Side::Sell,
            Side::Sell => Side::Buy,
        }
    }
}

#[derive(Debug)]
pub struct Order {
    pub id: u64,
    pub symbol: String,
    pub side: Side,
    pub order_type: OrderType,
    pub price: u64,
    pub quantity: u32,
    pub filled_quantity: u32,
    pub status: OrderStatus,
    pub timestamp: i64,
    pub user_id: u64,
    pub time_in_force: TimeInForce,
    pub expiration_time: i64,
    pub stop_price: Option<u64>,
    pub display_quantity: Option<u32>,
}

impl Clone for Order {
    fn clone(&self) -> (r: Order)
        ensures
            r == *self,
    {
        Order {
            id: self.id,
            symbol: self.symbol.clone(),
            side: self.side,
            order_type: self.order_type,
            price: self.price,
            quantity: self.quantity,
            filled_quantity: self.filled_quantity,
            status: self.status,
            timestamp: self.timestamp,
            user_id: self.user_id,
            time_in_force: self.time_in_force,
            expiration_time: self.expiration_time,
            stop_price: self.stop_price,
            display_quantity: self.display_quantity,
        }
    }
}

impl Order {
    /// The quantity still open: ordered minus filled.
    pub open spec fn remaining(self) -> int {
        self.quantity - self.filled_quantity
    }

    /// Whether the fill state is consistent: no more filled than ordered.
    pub open spec fn fill_ok(self) -> bool {
        self.filled_quantity <= self.quantity
    }

    /// The quantity shown to the market: an iceberg with a display size
    /// shows at most that much, every other order shows all that is open.
    pub open spec fn visible(self) -> int {
        if self.order_type == OrderType::Iceberg && self.display_quantity.is_some() {
            if self.display_quantity.unwrap() <= self.remaining() {
                self.display_quantity.unwrap() as int
            } else {
                self.remaining()
            }
        } else {
            self.remaining()
        }
    }

    /// Filled exactly: all of the quantity and no more.
    pub open spec fn fully_filled(self) -> bool {
        self.filled_quantity == self.quantity
    }

    pub open spec fn filled(self) -> bool {
        self.filled_quantity >= self.quantity
    }

    pub open spec fn stop_order(self) -> bool {
        self.order_type == OrderType::StopLimit || self.order_type == OrderType::StopMarket
    }

    /// A stop order fires once the last trade price reaches its stop price:
    /// from below for a buy, from above for a sell.
    pub open spec fn stop_triggered_at(self, last_price: u64) -> bool {
        &&& self.stop_order()
        &&& self.stop_price.is_some()
        &&& match self.side {
            Side::Buy => last_price >= self.stop_price.unwrap(),
            Side::Sell => last_price <= self.stop_price.unwrap(),
        }
    }

    /// Good-till-date orders expire at their expiration time; day orders
    /// expire once the day (counted from the epoch) has changed.
    pub open spec fn expired_at(self, current_time: i64) -> bool {
        match self.time_in_force {
            TimeInForce::GTD => current_time >= self.expiration_time,
            TimeInForce::Day => trunc_div(current_time as int, NANOS_PER_DAY as int) > trunc_div(
                self.timestamp as int,
                NANOS_PER_DAY as int,
            ),
            _ => false,
        }
    }

    /// Whether two orders could trade with each other: they are on opposite
    /// sides and either one is a market order or the buy price reaches the
    /// sell price.
    pub open spec fn spec_can_match(self, other: Order) -> bool {
        &&& self.side != other.side
        &&& (self.order_type == OrderType::Market || other.order_type == OrderType::Market || (
        if self.side == Side::Buy {
            self.price >= other.price
        } else {
            other.price >= self.price
        }))
    }

    /// A new order: nothing filled, status `New`, good till cancelled, no
    /// stop price or display size, id 0 (the matching engine assigns ids),
    /// stamped with the current time rounded down to the millisecond.
    pub fn new(
        symbol: String,
        side: Side,
        order_type: OrderType,
        price: u64,
        quantity: u32,
        user_id: u64,
    ) -> (r: Self)
        ensures
            r.id == 0,
            r.symbol == symbol,
            r.side == side,
            r.order_type == order_type,
            r.price == price,
            r.quantity == quantity,
            r.filled_quantity == 0,
            r.status == OrderStatus::New,
            r.timestamp == truncate_to_millis(r.timestamp as int),
            r.user_id == user_id,
            r.time_in_force == TimeInForce::GTC,
            r.expiration_time == 0,
            r.stop_price.is_none(),
            r.display_quantity.is_none(),
    {
        Order {
            id: 0,
            symbol,
            side,
            order_type,
            price,
            quantity,
            filled_quantity: 0,
            status: OrderStatus::New,
            timestamp: Self::get_nano_timestamp(),
            user_id,
            time_in_force: TimeInForce::GTC,
            expiration_time: 0,
            stop_price: None,
            display_quantity: None,
        }
    }

    pub fn remaining_quantity(&self) -> (r: u32)
        requires
            self.fill_ok(),
        ensures
            r == self.remaining(),
    {
        self.quantity - self.filled_quantity
    }

    pub fn visible_quantity(&self) -> (r: u32)
        requires
            self.fill_ok(),
        ensures
            r == self.visible(),
            r <= self.remaining(),
    {
        if self.order_type == OrderType::Iceberg && self.display_quantity.is_some() {
            let display = self.display_quantity.unwrap();
            let remaining = self.remaining_quantity();
            if display <= remaining {
                display
            } else {
                remaining
            }
        } else {
            self.remaining_quantity()
        }
    }

    pub fn is_filled(&self) -> (r: bool)
        ensures
            r == self.filled(),
    {
        self.filled_quantity >= self.quantity
    }

    /// Another name for `is_filled`.
    pub fn is_fully_filled(&self) -> (r: bool)
        ensures
            r == self.filled(),
    {
        self.is_filled()
    }

    pub fn is_stop_order(&self) -> (r: bool)
        ensures
            r == self.stop_order(),
    {
        self.order_type == OrderType::StopLimit || self.order_type == OrderType::StopMarket
    }

    pub fn is_stop_triggered(&self, last_price: u64) -> (r: bool)
        ensures
            r == self.stop_triggered_at(last_price),
    {
        if !self.is_stop_order() || self.stop_price.is_none() {
            return false;
        }
        let stop = self.stop_price.unwrap();
        match self.side {
            Side::Buy => last_price >= stop,
            Side::Sell => last_price <= stop,
        }
    }

    pub fn is_expired(&self, current_time: i64) -> (r: bool)
        ensures
            r == self.expired_at(current_time),
    {
        match self.time_in_force {
            TimeInForce::GTD => current_time >= self.expiration_time,
            TimeInForce::Day => {
                let current_day = current_time / NANOS_PER_DAY;
                let order_day = self.timestamp / NANOS_PER_DAY;
                current_day > order_day
            },
            _ => false,
        }
    }

    pub fn can_match(&self, other: &Order) -> (r: bool)
        ensures
            r == self.spec_can_match(*other),
    {
        if self.side == other.side {
            return false;
        }
        if self.order_type == OrderType::Market || other.order_type == OrderType::Market {
            return true;
        }
        match self.side {
            Side::Buy => self.price >= other.price,
            Side::Sell => other.price >= self.price,
        }
    }

    /// Nanoseconds since the epoch rounded down to the millisecond, or 0 when
    /// the clock reads before the epoch.
    pub fn get_nano_timestamp() -> (r: i64)
        ensures
            r == truncate_to_millis(r as int),
            exists|t: SystemTime| r == #[trigger] timestamp_of_reading(t),
    {
        let reading = unix_nanos();
        let r = nanos_to_timestamp(reading);
        proof {
            let t = choose|t: SystemTime|
                reading == match #[trigger] epoch_offset(t) {
                    Some(d) => Some(duration_nanos(d)),
                    None => None,
                };
            assert(r == timestamp_of_reading(t));
        }
        r
    }
}

/// The timestamp of the clock reading `t`: its nanoseconds since the epoch
/// taken as an `i64` and rounded toward zero to the millisecond; 0 for a
/// reading before the epoch.
pub open spec fn timestamp_of_reading(t: SystemTime) -> int {
    match epoch_offset(t) {
        Some(d) => truncate_to_millis((duration_nanos(d) as i64) as int),
        None => 0,
    }
}

/// The timestamp kept for a clock reading: the nanoseconds taken as an `i64`
/// (as a truncating cast does) and rounded toward zero to the millisecond;
/// 0 when there is no reading.
pub fn nanos_to_timestamp(nanos: Option<u128>) -> (r: i64)
    ensures
        r == match nanos {
            Some(n) => truncate_to_millis((n as i64) as int),
            None => 0,
        },
        r == truncate_to_millis(r as int),
{
    match nanos {
        Some(n) => {
            let v: i64 = n as i64;
            let millis: i64 = v / NANOS_PER_MILLI;
            let r: i64 = millis * NANOS_PER_MILLI;
            assert(trunc_div(r as int, NANOS_PER_MILLI as int) == millis);
            r
        },
        None => 0,
    }
}

} // verus!
