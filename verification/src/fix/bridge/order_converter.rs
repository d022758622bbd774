//! Turning a FIX new order into an order of the matching engine.

use crate::fix::decimal::{saturate_u64, scaled_u64, scaled_units, FixDecimal};
use crate::fix::error::{BusinessError, FixError};
use crate::fix::messages::new_order_single::{needs_price, needs_stop_price};
use crate::fix::messages::NewOrderSingle;
use crate::fix::validation::business_validator::{business_view, BusinessIssue};
use crate::order::{Order, OrderStatus, OrderType, Side, TimeInForce};
use crate::text::{concat_text, digits_within, parse_digits};
use vstd::prelude::*;
use vstd::string::StrSliceExecFns;

verus! {

pub struct FixOrderConverter;

/// The engine side of a FIX side code.
pub open spec fn side_of(c: char) -> Option<Side> {
    if c == '1' {
        Some(Side::Buy)
    } else if c == '2' {
        Some(Side::Sell)
    } else {
        None
    }
}

/// The engine order type of a FIX order type code: market, limit, stop
/// (a stop market order) and stop limit.
pub open spec fn order_type_of(c: char) -> Option<OrderType> {
    if c == '1' {
        Some(OrderType::Market)
    } else if c == '2' {
        Some(OrderType::Limit)
    } else if c == '3' {
        Some(OrderType::StopMarket)
    } else if c == '4' {
        Some(OrderType::StopLimit)
    } else {
        None
    }
}

/// The engine time in force of a FIX code: day, good till cancel,
/// immediate or cancel, fill or kill; good till cancel when absent or
/// unknown.
pub open spec fn time_in_force_of(c: Option<char>) -> TimeInForce {
    match c {
        Some('0') => TimeInForce::Day,
        Some('3') => TimeInForce::IOC,
        Some('4') => TimeInForce::FOK,
        _ => TimeInForce::GTC,
    }
}

/// The price in units of 10^-4 that an order type needs: it must be there
/// and positive; the error carries the price in those units (zero for a
/// non-positive or absent price).
pub open spec fn price_in_units(price: Option<FixDecimal>, needed: bool) -> Result<
    Option<u64>,
    u64,
> {
    if !needed {
        Ok(None)
    } else {
        match price {
            None => Err(0),
            Some(p) => if p.mantissa <= 0 {
                Err(saturate_u64(scaled_units(p, 4)))
            } else {
                Ok(Some(saturate_u64(scaled_units(p, 4))))
            },
        }
    }
}

/// The ASCII digits among the characters of `t`, in order, as bytes.
pub open spec fn ascii_digits(t: Seq<char>) -> Seq<u8>
    decreases t.len(),
{
    if t.len() == 0 {
        Seq::empty()
    } else if '0' <= t.last() <= '9' {
        ascii_digits(t.drop_last()).push(t.last() as u8)
    } else {
        ascii_digits(t.drop_last())
    }
}

/// The user id that a party id carries: the number its digits spell, or 1
/// when it has none or they do not fit in a `u64`.
pub open spec fn user_id_of(t: Seq<char>) -> u64 {
    match digits_within(ascii_digits(t), u64::MAX as nat) {
        Some(v) => v as u64,
        None => 1,
    }
}

/// `o` is the engine order for the FIX order `f`, with the given prices.
pub open spec fn converted(f: NewOrderSingle, o: Order, price: u64, stop: Option<u64>) -> bool {
    &&& o.id == 0
    &&& o.symbol == f.symbol
    &&& Some(o.side) == side_of(f.side)
    &&& Some(o.order_type) == order_type_of(f.ord_type)
    &&& o.price == price
    &&& o.quantity == f.order_qty
    &&& o.filled_quantity == 0
    &&& o.status == OrderStatus::New
    &&& o.time_in_force == time_in_force_of(f.time_in_force)
    &&& o.stop_price == stop
    &&& o.expiration_time == 0
    &&& o.display_quantity is None
    &&& o.user_id == match f.account {
        Some(a) => if a@.len() > 0 {
            user_id_of(a@)
        } else {
            user_id_of(f.header.sender_comp_id@)
        },
        None => user_id_of(f.header.sender_comp_id@),
    }
}

/// What converting the FIX order `f` gives: a side, then an order type,
/// then the limit price and the stop price must be acceptable, in that
/// order; otherwise the engine order that `f` describes.
pub open spec fn conversion(f: NewOrderSingle, r: Result<Order, FixError>) -> bool {
    if side_of(f.side) is None {
        r matches Err(FixError::Business(BusinessError::InvalidSymbol { .. }))
    } else if order_type_of(f.ord_type) is None {
        r matches Err(FixError::Business(BusinessError::InvalidSymbol { .. }))
    } else {
        match price_in_units(f.price, needs_price(f.ord_type)) {
            Err(p) => r matches Err(FixError::Business(e)) && business_view(e)
                == BusinessIssue::InvalidPrice(p),
            Ok(limit) => match price_in_units(f.stop_px, needs_stop_price(f.ord_type)) {
                Err(p) => r matches Err(FixError::Business(e)) && business_view(e)
                    == BusinessIssue::InvalidPrice(p),
                Ok(stop) => r matches Ok(o) && converted(
                    f,
                    o,
                    match limit {
                        Some(v) => v,
                        None => 0,
                    },
                    stop,
                ),
            },
        }
    }
}

impl FixOrderConverter {
    pub fn new() -> (r: Self) {
        FixOrderConverter
    }

    /// The engine order that a FIX new order describes. Prices are taken
    /// exactly, in units of 10^-4.
    pub fn convert_new_order_single(&self, fix_order: NewOrderSingle) -> (r: Result<Order, FixError>)
        ensures
            conversion(fix_order, r),
    {
        let side = match self.convert_side(fix_order.side) {
            Ok(s) => s,
            Err(e) => {
                return Err(FixError::Business(e));
            },
        };
        let order_type = match self.convert_order_type(fix_order.ord_type) {
            Ok(t) => t,
            Err(e) => {
                return Err(FixError::Business(e));
            },
        };
        let time_in_force = self.convert_time_in_force(fix_order.time_in_force);
        let price = match self.convert_price(fix_order.price, fix_order.ord_type) {
            Ok(p) => p,
            Err(e) => {
                return Err(FixError::Business(e));
            },
        };
        let stop_price = match self.convert_stop_price(fix_order.stop_px, fix_order.ord_type) {
            Ok(p) => p,
            Err(e) => {
                return Err(FixError::Business(e));
            },
        };
        let user_id = self.extract_user_id(fix_order.header.sender_comp_id.as_str());
        let ghost f = fix_order;
        let mut order = Order::new(fix_order.symbol, side, order_type, price, fix_order.order_qty, user_id);
        order.time_in_force = time_in_force;
        order.stop_price = stop_price;
        if let Some(account) = fix_order.account {
            if !account.as_str().is_empty() {
                order.user_id = self.extract_user_id(account.as_str());
            }
        }
        proof {
            assert(converted(f, order, price, stop_price));
        }
        Ok(order)
    }

    /// The engine side of a FIX side code.
    fn convert_side(&self, fix_side: char) -> (r: Result<Side, BusinessError>)
        ensures
            match side_of(fix_side) {
                Some(s) => r == Ok::<Side, BusinessError>(s),
                None => r matches Err(BusinessError::InvalidSymbol { .. }),
            },
    {
        match fix_side {
            '1' => Ok(Side::Buy),
            '2' => Ok(Side::Sell),
            _ => Err(
                BusinessError::InvalidSymbol {
                    symbol: concat_text(
                        "Invalid side: ",
                        crate::fix::messages::char_string(fix_side).as_str(),
                    ),
                },
            ),
        }
    }

    /// The engine order type of a FIX order type code.
    fn convert_order_type(&self, fix_ord_type: char) -> (r: Result<OrderType, BusinessError>)
        ensures
            match order_type_of(fix_ord_type) {
                Some(t) => r == Ok::<OrderType, BusinessError>(t),
                None => r matches Err(BusinessError::InvalidSymbol { .. }),
            },
    {
        match fix_ord_type {
            '1' => Ok(OrderType::Market),
            '2' => Ok(OrderType::Limit),
            '3' => Ok(OrderType::StopMarket),
            '4' => Ok(OrderType::StopLimit),
            _ => Err(
                BusinessError::InvalidSymbol {
                    symbol: concat_text(
                        "Invalid order type: ",
                        crate::fix::messages::char_string(fix_ord_type).as_str(),
                    ),
                },
            ),
        }
    }

    /// The engine time in force of a FIX code.
    fn convert_time_in_force(&self, fix_tif: Option<char>) -> (r: TimeInForce)
        ensures
            r == time_in_force_of(fix_tif),
    {
        match fix_tif {
            Some('0') => TimeInForce::Day,
            Some('1') => TimeInForce::GTC,
            Some('3') => TimeInForce::IOC,
            Some('4') => TimeInForce::FOK,
            _ => TimeInForce::GTC,
        }
    }

    /// A price the order type needs, in units of 10^-4.
    /// The limit price in units of 10^-4 for a limit or stop-limit order
    /// (type 2 or 4), 0 for any other.
    fn convert_price(&self, fix_price: Option<FixDecimal>, ord_type: char) -> (r: Result<
        u64,
        BusinessError,
    >)
        ensures
            match price_in_units(fix_price, needs_price(ord_type)) {
                Ok(v) => r == Ok::<u64, BusinessError>(
                    match v {
                        Some(x) => x,
                        None => 0,
                    },
                ),
                Err(p) => r matches Err(e) && business_view(e) == BusinessIssue::InvalidPrice(p),
            },
    {
        match self.units(fix_price, ord_type == '2' || ord_type == '4') {
            Ok(Some(v)) => Ok(v),
            Ok(None) => Ok(0),
            Err(e) => Err(e),
        }
    }

    /// The stop price in units of 10^-4 for a stop or stop-limit order
    /// (type 3 or 4), none for any other.
    fn convert_stop_price(&self, fix_stop_px: Option<FixDecimal>, ord_type: char) -> (r: Result<
        Option<u64>,
        BusinessError,
    >)
        ensures
            match price_in_units(fix_stop_px, needs_stop_price(ord_type)) {
                Ok(v) => r == Ok::<Option<u64>, BusinessError>(v),
                Err(p) => r matches Err(e) && business_view(e) == BusinessIssue::InvalidPrice(p),
            },
    {
        self.units(fix_stop_px, ord_type == '3' || ord_type == '4')
    }

    /// When `needed`, the price must be given and positive; it is taken in
    /// units of 10^-4.
    fn units(&self, price: Option<FixDecimal>, needed: bool) -> (r: Result<
        Option<u64>,
        BusinessError,
    >)
        ensures
            match price_in_units(price, needed) {
                Ok(v) => r == Ok::<Option<u64>, BusinessError>(v),
                Err(p) => r matches Err(e) && business_view(e) == BusinessIssue::InvalidPrice(p),
            },
    {
        if !needed {
            return Ok(None);
        }
        match price {
            Some(p) => {
                if p.mantissa <= 0 {
                    return Err(BusinessError::InvalidPrice { price: scaled_u64(p, 4) });
                }
                Ok(Some(scaled_u64(p, 4)))
            },
            None => Err(BusinessError::InvalidPrice { price: 0 }),
        }
    }

    /// The user id that a party id carries.
    pub fn extract_user_id(&self, comp_id: &str) -> (r: u64)
        ensures
            r == user_id_of(comp_id@),
    {
        let n = comp_id.unicode_len();
        let mut digits: Vec<u8> = Vec::new();
        let mut i: usize = 0;
        while i < n
            invariant
                i <= n,
                n == comp_id@.len(),
                digits@ == ascii_digits(comp_id@.subrange(0, i as int)),
            decreases n - i,
        {
            let c = comp_id.get_char(i);
            proof {
                assert(comp_id@.subrange(0, i + 1).drop_last() =~= comp_id@.subrange(0, i as int));
            }
            if '0' <= c && c <= '9' {
                digits.push(c as u8);
            }
            i = i + 1;
        }
        assert(comp_id@.subrange(0, i as int) =~= comp_id@);
        match parse_digits(digits.as_slice(), u64::MAX) {
            Some(v) => v,
            None => 1,
        }
    }
}

} // verus!
