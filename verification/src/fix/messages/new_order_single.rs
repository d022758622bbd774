//! The new order message (type D) and the codes of its side, order type and
//! time in force.

use crate::fix::decimal::FixDecimal;
use crate::fix::error::{FixError, ValidationError};
use crate::fix::messages::header::{
    clone_bytes, clone_text, header_matches, header_outcome, header_validation, reports, same_bytes,
};
use crate::fix::messages::{
    char_field, char_string, decimal_field, fix_error_view, get_char, get_decimal, get_string,
    int_field, opt_low_u32, opt_text, required_char, required_int, required_string, text_field,
    ErrorView, Header, StandardHeader, Trailer,
};
use crate::fix::parser::field_parser::FixField;
use crate::text::{decimal_string, decimal_text};
use std::collections::HashMap;
use vstd::prelude::*;

verus! {

#[derive(Debug)]
pub struct NewOrderSingle {
    pub header: StandardHeader,
    pub cl_ord_id: String,
    pub account: Option<String>,
    pub handl_inst: char,
    pub symbol: String,
    pub side: char,
    pub transact_time: String,
    pub order_qty: u32,
    pub ord_type: char,
    pub price: Option<FixDecimal>,
    pub stop_px: Option<FixDecimal>,
    pub time_in_force: Option<char>,
    pub exec_inst: Option<String>,
    pub trailer: Trailer,
}

impl NewOrderSingle {
    /// The two messages agree field by field, the header as
    /// [`StandardHeader::same_as`] says.
    pub open spec fn same_as(self, other: NewOrderSingle) -> bool {
        &&& self.header.same_as(other.header)
        &&& other == (NewOrderSingle { header: other.header, ..self })
    }
}

impl Clone for NewOrderSingle {
    fn clone(&self) -> (r: Self)
        ensures
            r.same_as(*self),
    {
        NewOrderSingle {
            header: self.header.clone(),
            cl_ord_id: self.cl_ord_id.clone(),
            account: clone_text(&self.account),
            handl_inst: self.handl_inst,
            symbol: self.symbol.clone(),
            side: self.side,
            transact_time: self.transact_time.clone(),
            order_qty: self.order_qty,
            ord_type: self.ord_type,
            price: self.price,
            stop_px: self.stop_px,
            time_in_force: self.time_in_force,
            exec_inst: clone_text(&self.exec_inst),
            trailer: self.trailer,
        }
    }
}

/// The first field a new order needs that is absent: the header's, the
/// trailer's, then ClOrdID (11), HandlInst (21), Symbol (55), Side (54),
/// TransactTime (60), OrderQty (38) and OrdType (40).
pub open spec fn new_order_fields_outcome(m: Map<u32, FixField>) -> Result<(), ErrorView> {
    match header_outcome(m) {
        Err(v) => Err(v),
        Ok(()) => if int_field(m, 10) is None {
            Err(ErrorView::MissingRequiredField(10))
        } else if text_field(m, 11) is None {
            Err(ErrorView::MissingRequiredField(11))
        } else if char_field(m, 21) is None {
            Err(ErrorView::MissingRequiredField(21))
        } else if text_field(m, 55) is None {
            Err(ErrorView::MissingRequiredField(55))
        } else if char_field(m, 54) is None {
            Err(ErrorView::MissingRequiredField(54))
        } else if text_field(m, 60) is None {
            Err(ErrorView::MissingRequiredField(60))
        } else if int_field(m, 38) is None {
            Err(ErrorView::MissingRequiredField(38))
        } else if char_field(m, 40) is None {
            Err(ErrorView::MissingRequiredField(40))
        } else {
            Ok(())
        },
    }
}

/// `o` holds what the fields of `m` say.
pub open spec fn new_order_matches(m: Map<u32, FixField>, o: NewOrderSingle) -> bool {
    &&& header_matches(m, o.header)
    &&& o.trailer.checksum == int_field(m, 10)->0 as u8
    &&& Some(o.cl_ord_id@) == text_field(m, 11)
    &&& opt_text(o.account, text_field(m, 1))
    &&& Some(o.handl_inst) == char_field(m, 21)
    &&& Some(o.symbol@) == text_field(m, 55)
    &&& Some(o.side) == char_field(m, 54)
    &&& Some(o.transact_time@) == text_field(m, 60)
    &&& Some(o.order_qty) == opt_low_u32(int_field(m, 38))
    &&& Some(o.ord_type) == char_field(m, 40)
    &&& o.price == decimal_field(m, 44)
    &&& o.stop_px == decimal_field(m, 99)
    &&& o.time_in_force == char_field(m, 59)
    &&& opt_text(o.exec_inst, text_field(m, 18))
}

/// `c` is the code of an order type.
pub open spec fn is_ord_type_char(c: char) -> bool {
    c == '1' || c == '2' || c == '3' || c == '4'
}

/// `c` is the code of an order type that carries a limit price.
pub open spec fn needs_price(c: char) -> bool {
    c == '2' || c == '4'
}

/// `c` is the code of an order type that carries a stop price.
pub open spec fn needs_stop_price(c: char) -> bool {
    c == '3' || c == '4'
}

/// The first rule of a new order that `o` breaks: a valid header, an order
/// id and symbol that are not empty, a side of 1 or 2, a known order type, a
/// price for limit types and a stop price for stop types, and a quantity
/// that is not zero.
pub open spec fn new_order_validation(o: NewOrderSingle) -> Result<(), ErrorView> {
    match header_validation(o.header) {
        Err(v) => Err(v),
        Ok(()) => if o.cl_ord_id@.len() == 0 {
            Err(ErrorView::MissingRequiredField(11))
        } else if o.symbol@.len() == 0 {
            Err(ErrorView::MissingRequiredField(55))
        } else if !(o.side == '1' || o.side == '2') {
            Err(ErrorView::InvalidFieldValue(54, seq![o.side]))
        } else if !is_ord_type_char(o.ord_type) {
            Err(ErrorView::InvalidFieldValue(40, seq![o.ord_type]))
        } else if needs_price(o.ord_type) && o.price is None {
            Err(ErrorView::MissingRequiredField(44))
        } else if needs_stop_price(o.ord_type) && o.stop_px is None {
            Err(ErrorView::MissingRequiredField(99))
        } else if o.order_qty == 0 {
            Err(ErrorView::InvalidFieldValue(38, decimal_text(0)))
        } else {
            Ok(())
        },
    }
}

/// `r` is what reading a NewOrderSingle from the fields `m` gives: the first absent
/// field, or else the message those fields hold when it is valid and the
/// first rule it breaks when it is not.
pub open spec fn new_order_parsed(m: Map<u32, FixField>, r: Result<NewOrderSingle, FixError>) -> bool {
    match new_order_fields_outcome(m) {
        Err(v) => r matches Err(e) && fix_error_view(e) == v,
        Ok(()) => match r {
            Ok(o) => new_order_matches(m, o) && new_order_validation(o) is Ok,
            Err(e) => exists|o: NewOrderSingle|
                new_order_matches(m, o) && new_order_validation(o) == Err::<
                    (),
                    ErrorView,
                >(fix_error_view(e)),
        },
    }
}

impl NewOrderSingle {
    /// Reads a new order from the fields of a message and validates it.
    pub fn parse(fields: HashMap<u32, FixField>) -> (r: Result<NewOrderSingle, FixError>)
        ensures
            new_order_parsed(fields@, r),
    {
        let header = match Header::parse(&fields) {
            Ok(h) => h,
            Err(e) => {
                return Err(e);
            },
        };
        let trailer = match Trailer::parse(&fields) {
            Ok(t) => t,
            Err(e) => {
                return Err(e);
            },
        };
        let cl_ord_id = match required_string(&fields, 11) {
            Ok(s) => s,
            Err(e) => {
                return Err(FixError::Validation(e));
            },
        };
        let account = get_string(&fields, 1);
        let handl_inst = match required_char(&fields, 21) {
            Ok(c) => c,
            Err(e) => {
                return Err(FixError::Validation(e));
            },
        };
        let symbol = match required_string(&fields, 55) {
            Ok(s) => s,
            Err(e) => {
                return Err(FixError::Validation(e));
            },
        };
        let side = match required_char(&fields, 54) {
            Ok(c) => c,
            Err(e) => {
                return Err(FixError::Validation(e));
            },
        };
        let transact_time = match required_string(&fields, 60) {
            Ok(s) => s,
            Err(e) => {
                return Err(FixError::Validation(e));
            },
        };
        let order_qty = match required_int(&fields, 38) {
            Ok(i) => i as u32,
            Err(e) => {
                return Err(FixError::Validation(e));
            },
        };
        let ord_type = match required_char(&fields, 40) {
            Ok(c) => c,
            Err(e) => {
                return Err(FixError::Validation(e));
            },
        };
        let price = get_decimal(&fields, 44);
        let stop_px = get_decimal(&fields, 99);
        let time_in_force = get_char(&fields, 59);
        let exec_inst = get_string(&fields, 18);
        let order = NewOrderSingle {
            header,
            cl_ord_id,
            account,
            handl_inst,
            symbol,
            side,
            transact_time,
            order_qty,
            ord_type,
            price,
            stop_px,
            time_in_force,
            exec_inst,
            trailer,
        };
        match order.validate() {
            Ok(()) => Ok(order),
            Err(e) => {
                assert(new_order_matches(fields@, order));
                Err(FixError::Validation(e))
            },
        }
    }

    /// Checks the rules of a new order.
    pub fn validate(&self) -> (r: Result<(), ValidationError>)
        ensures
            reports(r, new_order_validation(*self)),
    {
        self.header.validate()?;
        self.trailer.validate()?;
        if self.cl_ord_id.as_str().is_empty() {
            return Err(ValidationError::MissingRequiredField { tag: 11 });
        }
        if self.symbol.as_str().is_empty() {
            return Err(ValidationError::MissingRequiredField { tag: 55 });
        }
        if !(self.side == '1' || self.side == '2') {
            return Err(ValidationError::InvalidFieldValue { tag: 54, value: char_string(self.side) });
        }
        if !(self.ord_type == '1' || self.ord_type == '2' || self.ord_type == '3' || self.ord_type
            == '4') {
            return Err(
                ValidationError::InvalidFieldValue { tag: 40, value: char_string(self.ord_type) },
            );
        }
        if (self.ord_type == '2' || self.ord_type == '4') && self.price.is_none() {
            return Err(ValidationError::MissingRequiredField { tag: 44 });
        }
        if (self.ord_type == '3' || self.ord_type == '4') && self.stop_px.is_none() {
            return Err(ValidationError::MissingRequiredField { tag: 99 });
        }
        if self.order_qty == 0 {
            return Err(
                ValidationError::InvalidFieldValue {
                    tag: 38,
                    value: decimal_string(self.order_qty as u64),
                },
            );
        }
        Ok(())
    }
}

/// The side of an order (tag 54).
#[derive(Debug, Clone, Copy, PartialEq, Eq, Structural)]
pub enum Side {
    Buy,
    Sell,
}

/// The character that stands for each value of `Side`.
pub open spec fn side_code(v: Side) -> char {
    match v {
        Side::Buy => '1',
        Side::Sell => '2',
    }
}

impl Side {
    /// The value that `c` stands for.
    pub fn from_char(c: char) -> (r: Option<Self>)
        ensures
            match r {
                Some(v) => side_code(v) == c,
                None => forall|v: Side| side_code(v) != c,
            },
    {
        match c {
            '1' => Some(Side::Buy),
            '2' => Some(Side::Sell),
            _ => None,
        }
    }

    /// The character that stands for this value.
    pub fn to_char(&self) -> (r: char)
        ensures
            r == side_code(*self),
    {
        match self {
            Side::Buy => '1',
            Side::Sell => '2',
        }
    }
}

/// The type of an order (tag 40).
#[derive(Debug, Clone, Copy, PartialEq, Eq, Structural)]
pub enum OrdType {
    Market,
    Limit,
    Stop,
    StopLimit,
}

/// The character that stands for each value of `OrdType`.
pub open spec fn ord_type_code(v: OrdType) -> char {
    match v {
        OrdType::Market => '1',
        OrdType::Limit => '2',
        OrdType::Stop => '3',
        OrdType::StopLimit => '4',
    }
}

impl OrdType {
    /// The value that `c` stands for.
    pub fn from_char(c: char) -> (r: Option<Self>)
        ensures
            match r {
                Some(v) => ord_type_code(v) == c,
                None => forall|v: OrdType| ord_type_code(v) != c,
            },
    {
        match c {
            '1' => Some(OrdType::Market),
            '2' => Some(OrdType::Limit),
            '3' => Some(OrdType::Stop),
            '4' => Some(OrdType::StopLimit),
            _ => None,
        }
    }

    /// The character that stands for this value.
    pub fn to_char(&self) -> (r: char)
        ensures
            r == ord_type_code(*self),
    {
        match self {
            OrdType::Market => '1',
            OrdType::Limit => '2',
            OrdType::Stop => '3',
            OrdType::StopLimit => '4',
        }
    }
}

/// How long an order lives (tag 59).
#[derive(Debug, Clone, Copy, PartialEq, Eq, Structural)]
pub enum TimeInForce {
    Day,
    GoodTillCancel,
    ImmediateOrCancel,
    FillOrKill,
}

/// The character that stands for each value of `TimeInForce`.
pub open spec fn time_in_force_code(v: TimeInForce) -> char {
    match v {
        TimeInForce::Day => '0',
        TimeInForce::GoodTillCancel => '1',
        TimeInForce::ImmediateOrCancel => '3',
        TimeInForce::FillOrKill => '4',
    }
}

impl TimeInForce {
    /// The value that `c` stands for.
    pub fn from_char(c: char) -> (r: Option<Self>)
        ensures
            match r {
                Some(v) => time_in_force_code(v) == c,
                None => forall|v: TimeInForce| time_in_force_code(v) != c,
            },
    {
        match c {
            '0' => Some(TimeInForce::Day),
            '1' => Some(TimeInForce::GoodTillCancel),
            '3' => Some(TimeInForce::ImmediateOrCancel),
            '4' => Some(TimeInForce::FillOrKill),
            _ => None,
        }
    }

    /// The character that stands for this value.
    pub fn to_char(&self) -> (r: char)
        ensures
            r == time_in_force_code(*self),
    {
        match self {
            TimeInForce::Day => '0',
            TimeInForce::GoodTillCancel => '1',
            TimeInForce::ImmediateOrCancel => '3',
            TimeInForce::FillOrKill => '4',
        }
    }
}

/// No two sides share a code, so `Side::from_char(v.to_char())` is `Some(v)`.
pub proof fn lemma_side_codes_distinct(a: Side, b: Side)
    ensures
        side_code(a) == side_code(b) ==> a == b,
{
}

/// No two order types share a code, so `OrdType::from_char(v.to_char())` is
/// `Some(v)`.
pub proof fn lemma_ord_type_codes_distinct(a: OrdType, b: OrdType)
    ensures
        ord_type_code(a) == ord_type_code(b) ==> a == b,
{
}

/// No two times in force share a code, so
/// `TimeInForce::from_char(v.to_char())` is `Some(v)`.
pub proof fn lemma_time_in_force_codes_distinct(a: TimeInForce, b: TimeInForce)
    ensures
        time_in_force_code(a) == time_in_force_code(b) ==> a == b,
{
}

/// The price fields of a new order are Price (tag 44) and StopPx (tag 99):
/// an order whose fields carry a Price is never refused for a missing price,
/// nor one carrying a StopPx for a missing stop price, and an accepted order
/// of a type that needs a price carries the Price field, one that needs a
/// stop price the StopPx field.
pub proof fn lemma_new_order_price_fields(m: Map<u32, FixField>, r: Result<NewOrderSingle, FixError>)
    requires
        new_order_parsed(m, r),
    ensures
        r matches Err(e) && fix_error_view(e) == ErrorView::MissingRequiredField(44) ==> decimal_field(
            m,
            44,
        ) is None,
        r matches Err(e) && fix_error_view(e) == ErrorView::MissingRequiredField(99) ==> decimal_field(
            m,
            99,
        ) is None,
        r matches Ok(o) ==> (o.ord_type == '2' || o.ord_type == '4' ==> decimal_field(m, 44) is Some),
        r matches Ok(o) ==> (o.ord_type == '3' || o.ord_type == '4' ==> decimal_field(m, 99) is Some),
{
}

} // verus!
