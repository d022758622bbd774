//! The order cancel request (type F).

use crate::fix::error::{FixError, ValidationError};
use crate::fix::messages::header::{
    clone_bytes, clone_text, header_matches, header_outcome, header_validation, reports, same_bytes,
};
use crate::fix::messages::{
    char_field, char_string, fix_error_view, get_int, get_string, int_field, opt_low_u32,
    opt_text, required_char, required_string, text_field, ErrorView, Header, StandardHeader,
    Trailer,
};
use crate::fix::parser::field_parser::FixField;
use std::collections::HashMap;
use vstd::prelude::*;

verus! {

#[derive(Debug)]
pub struct OrderCancelRequest {
    pub header: StandardHeader,
    pub orig_cl_ord_id: String,
    pub cl_ord_id: String,
    pub symbol: String,
    pub side: char,
    pub transact_time: String,
    pub order_qty: Option<u32>,
    pub account: Option<String>,
    pub text: Option<String>,
    pub trailer: Trailer,
}

impl OrderCancelRequest {
    /// The two messages agree field by field, the header as
    /// [`StandardHeader::same_as`] says.
    pub open spec fn same_as(self, other: OrderCancelRequest) -> bool {
        &&& self.header.same_as(other.header)
        &&& other == (OrderCancelRequest { header: other.header, ..self })
    }
}

impl Clone for OrderCancelRequest {
    fn clone(&self) -> (r: Self)
        ensures
            r.same_as(*self),
    {
        OrderCancelRequest {
            header: self.header.clone(),
            orig_cl_ord_id: self.orig_cl_ord_id.clone(),
            cl_ord_id: self.cl_ord_id.clone(),
            symbol: self.symbol.clone(),
            side: self.side,
            transact_time: self.transact_time.clone(),
            order_qty: self.order_qty,
            account: clone_text(&self.account),
            text: clone_text(&self.text),
            trailer: self.trailer,
        }
    }
}

/// The first field a cancel request needs that is absent: the header's, the
/// trailer's, then OrigClOrdID (41), ClOrdID (11), Symbol (55), Side (54)
/// and TransactTime (60).
pub open spec fn cancel_fields_outcome(m: Map<u32, FixField>) -> Result<(), ErrorView> {
    match header_outcome(m) {
        Err(v) => Err(v),
        Ok(()) => if int_field(m, 10) is None {
            Err(ErrorView::MissingRequiredField(10))
        } else if text_field(m, 41) is None {
            Err(ErrorView::MissingRequiredField(41))
        } else if text_field(m, 11) is None {
            Err(ErrorView::MissingRequiredField(11))
        } else if text_field(m, 55) is None {
            Err(ErrorView::MissingRequiredField(55))
        } else if char_field(m, 54) is None {
            Err(ErrorView::MissingRequiredField(54))
        } else if text_field(m, 60) is None {
            Err(ErrorView::MissingRequiredField(60))
        } else {
            Ok(())
        },
    }
}

/// `c` holds what the fields of `m` say.
pub open spec fn cancel_matches(m: Map<u32, FixField>, c: OrderCancelRequest) -> bool {
    &&& header_matches(m, c.header)
    &&& c.trailer.checksum == int_field(m, 10)->0 as u8
    &&& Some(c.orig_cl_ord_id@) == text_field(m, 41)
    &&& Some(c.cl_ord_id@) == text_field(m, 11)
    &&& Some(c.symbol@) == text_field(m, 55)
    &&& Some(c.side) == char_field(m, 54)
    &&& Some(c.transact_time@) == text_field(m, 60)
    &&& c.order_qty == opt_low_u32(int_field(m, 38))
    &&& opt_text(c.account, text_field(m, 1))
    &&& opt_text(c.text, text_field(m, 58))
}

/// The first rule of a cancel request that `c` breaks: a valid header, both
/// order ids and the symbol not empty, and a side of 1 or 2.
pub open spec fn cancel_validation(c: OrderCancelRequest) -> Result<(), ErrorView> {
    match header_validation(c.header) {
        Err(v) => Err(v),
        Ok(()) => if c.orig_cl_ord_id@.len() == 0 {
            Err(ErrorView::MissingRequiredField(41))
        } else if c.cl_ord_id@.len() == 0 {
            Err(ErrorView::MissingRequiredField(11))
        } else if c.symbol@.len() == 0 {
            Err(ErrorView::MissingRequiredField(55))
        } else if !(c.side == '1' || c.side == '2') {
            Err(ErrorView::InvalidFieldValue(54, seq![c.side]))
        } else {
            Ok(())
        },
    }
}

/// `r` is what reading a OrderCancelRequest from the fields `m` gives: the first absent
/// field, or else the message those fields hold when it is valid and the
/// first rule it breaks when it is not.
pub open spec fn cancel_parsed(m: Map<u32, FixField>, r: Result<OrderCancelRequest, FixError>) -> bool {
    match cancel_fields_outcome(m) {
        Err(v) => r matches Err(e) && fix_error_view(e) == v,
        Ok(()) => match r {
            Ok(c) => cancel_matches(m, c) && cancel_validation(c) is Ok,
            Err(e) => exists|c: OrderCancelRequest|
                cancel_matches(m, c) && cancel_validation(c) == Err::<
                    (),
                    ErrorView,
                >(fix_error_view(e)),
        },
    }
}

impl OrderCancelRequest {
    /// Reads a cancel request from the fields of a message and validates it.
    pub fn parse(fields: HashMap<u32, FixField>) -> (r: Result<OrderCancelRequest, FixError>)
        ensures
            cancel_parsed(fields@, r),
    {
        let header = match Header::parse(&fields) {
            Ok(h) => h,
            Err(e) => {
                return Err(e);
            },
        };
        let trailer = match Trailer::parse(&fields) {
            Ok(t) => t,
            Err(e) => {
                return Err(e);
            },
        };
        let orig_cl_ord_id = match required_string(&fields, 41) {
            Ok(s) => s,
            Err(e) => {
                return Err(FixError::Validation(e));
            },
        };
        let cl_ord_id = match required_string(&fields, 11) {
            Ok(s) => s,
            Err(e) => {
                return Err(FixError::Validation(e));
            },
        };
        let symbol = match required_string(&fields, 55) {
            Ok(s) => s,
            Err(e) => {
                return Err(FixError::Validation(e));
            },
        };
        let side = match required_char(&fields, 54) {
            Ok(c) => c,
            Err(e) => {
                return Err(FixError::Validation(e));
            },
        };
        let transact_time = match required_string(&fields, 60) {
            Ok(s) => s,
            Err(e) => {
                return Err(FixError::Validation(e));
            },
        };
        let order_qty = match get_int(&fields, 38) {
            Some(i) => Some(i as u32),
            None => None,
        };
        let account = get_string(&fields, 1);
        let text = get_string(&fields, 58);
        let cancel_request = OrderCancelRequest {
            header,
            orig_cl_ord_id,
            cl_ord_id,
            symbol,
            side,
            transact_time,
            order_qty,
            account,
            text,
            trailer,
        };
        match cancel_request.validate() {
            Ok(()) => Ok(cancel_request),
            Err(e) => {
                assert(cancel_matches(fields@, cancel_request));
                Err(FixError::Validation(e))
            },
        }
    }

    /// Checks the rules of a cancel request.
    pub fn validate(&self) -> (r: Result<(), ValidationError>)
        ensures
            reports(r, cancel_validation(*self)),
    {
        self.header.validate()?;
        self.trailer.validate()?;
        if self.orig_cl_ord_id.as_str().is_empty() {
            return Err(ValidationError::MissingRequiredField { tag: 41 });
        }
        if self.cl_ord_id.as_str().is_empty() {
            return Err(ValidationError::MissingRequiredField { tag: 11 });
        }
        if self.symbol.as_str().is_empty() {
            return Err(ValidationError::MissingRequiredField { tag: 55 });
        }
        if !(self.side == '1' || self.side == '2') {
            return Err(ValidationError::InvalidFieldValue { tag: 54, value: char_string(self.side) });
        }
        Ok(())
    }
}

} // verus!
