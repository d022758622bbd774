//! The execution report (type 8) and the codes of its execution type and
//! order status.

use crate::fix::decimal::FixDecimal;
use crate::fix::error::{FixError, ValidationError};
use crate::fix::messages::header::{
    clone_bytes, clone_text, header_matches, header_outcome, header_validation, reports, same_bytes,
};
use crate::fix::messages::new_order_single::{is_ord_type_char, new_order_matches, NewOrderSingle};
use crate::fix::messages::{
    char_field, char_string, decimal_field, fix_error_view, get_char, get_decimal, get_int,
    get_string, int_field, opt_low_u32, opt_text, required_char, required_int, required_string,
    text_field, ErrorView, Header, StandardHeader, Trailer,
};
use crate::fix::parser::field_parser::FixField;
use std::collections::HashMap;
use vstd::prelude::*;

verus! {

#[derive(Debug)]
pub struct ExecutionReport {
    pub header: StandardHeader,
    pub order_id: String,
    pub cl_ord_id: String,
    pub orig_cl_ord_id: Option<String>,
    pub exec_id: String,
    pub exec_type: char,
    pub ord_status: char,
    pub account: Option<String>,
    pub symbol: String,
    pub side: char,
    pub order_qty: u32,
    pub ord_type: char,
    pub price: Option<FixDecimal>,
    pub stop_px: Option<FixDecimal>,
    pub time_in_force: Option<char>,
    pub last_qty: Option<u32>,
    pub last_px: Option<FixDecimal>,
    pub leaves_qty: u32,
    pub cum_qty: u32,
    pub avg_px: Option<FixDecimal>,
    pub transact_time: String,
    pub text: Option<String>,
    pub trailer: Trailer,
}

impl ExecutionReport {
    /// The two messages agree field by field, the header as
    /// [`StandardHeader::same_as`] says.
    pub open spec fn same_as(self, other: ExecutionReport) -> bool {
        &&& self.header.same_as(other.header)
        &&& other == (ExecutionReport { header: other.header, ..self })
    }
}

impl Clone for ExecutionReport {
    fn clone(&self) -> (r: Self)
        ensures
            r.same_as(*self),
    {
        ExecutionReport {
            header: self.header.clone(),
            order_id: self.order_id.clone(),
            cl_ord_id: self.cl_ord_id.clone(),
            orig_cl_ord_id: clone_text(&self.orig_cl_ord_id),
            exec_id: self.exec_id.clone(),
            exec_type: self.exec_type,
            ord_status: self.ord_status,
            account: clone_text(&self.account),
            symbol: self.symbol.clone(),
            side: self.side,
            order_qty: self.order_qty,
            ord_type: self.ord_type,
            price: self.price,
            stop_px: self.stop_px,
            time_in_force: self.time_in_force,
            last_qty: self.last_qty,
            last_px: self.last_px,
            leaves_qty: self.leaves_qty,
            cum_qty: self.cum_qty,
            avg_px: self.avg_px,
            transact_time: self.transact_time.clone(),
            text: clone_text(&self.text),
            trailer: self.trailer,
        }
    }
}

/// The first field an execution report needs that is absent: the header's,
/// the trailer's, then OrderID (37), ClOrdID (11), ExecID (17), ExecType
/// (150), OrdStatus (39), Symbol (55), Side (54), OrderQty (38), OrdType
/// (40), LeavesQty (151), CumQty (14) and TransactTime (60).
pub open spec fn report_fields_outcome(m: Map<u32, FixField>) -> Result<(), ErrorView> {
    match header_outcome(m) {
        Err(v) => Err(v),
        Ok(()) => if int_field(m, 10) is None {
            Err(ErrorView::MissingRequiredField(10))
        } else if text_field(m, 37) is None {
            Err(ErrorView::MissingRequiredField(37))
        } else if text_field(m, 11) is None {
            Err(ErrorView::MissingRequiredField(11))
        } else if text_field(m, 17) is None {
            Err(ErrorView::MissingRequiredField(17))
        } else if char_field(m, 150) is None {
            Err(ErrorView::MissingRequiredField(150))
        } else if char_field(m, 39) is None {
            Err(ErrorView::MissingRequiredField(39))
        } else if text_field(m, 55) is None {
            Err(ErrorView::MissingRequiredField(55))
        } else if char_field(m, 54) is None {
            Err(ErrorView::MissingRequiredField(54))
        } else if int_field(m, 38) is None {
            Err(ErrorView::MissingRequiredField(38))
        } else if char_field(m, 40) is None {
            Err(ErrorView::MissingRequiredField(40))
        } else if int_field(m, 151) is None {
            Err(ErrorView::MissingRequiredField(151))
        } else if int_field(m, 14) is None {
            Err(ErrorView::MissingRequiredField(14))
        } else if text_field(m, 60) is None {
            Err(ErrorView::MissingRequiredField(60))
        } else {
            Ok(())
        },
    }
}

/// `x` holds what the fields of `m` say.
pub open spec fn report_matches(m: Map<u32, FixField>, x: ExecutionReport) -> bool {
    &&& header_matches(m, x.header)
    &&& x.trailer.checksum == int_field(m, 10)->0 as u8
    &&& Some(x.order_id@) == text_field(m, 37)
    &&& Some(x.cl_ord_id@) == text_field(m, 11)
    &&& opt_text(x.orig_cl_ord_id, text_field(m, 41))
    &&& Some(x.exec_id@) == text_field(m, 17)
    &&& Some(x.exec_type) == char_field(m, 150)
    &&& Some(x.ord_status) == char_field(m, 39)
    &&& opt_text(x.account, text_field(m, 1))
    &&& Some(x.symbol@) == text_field(m, 55)
    &&& Some(x.side) == char_field(m, 54)
    &&& Some(x.order_qty) == opt_low_u32(int_field(m, 38))
    &&& Some(x.ord_type) == char_field(m, 40)
    &&& x.price == decimal_field(m, 44)
    &&& x.stop_px == decimal_field(m, 99)
    &&& x.time_in_force == char_field(m, 59)
    &&& x.last_qty == opt_low_u32(int_field(m, 32))
    &&& x.last_px == decimal_field(m, 31)
    &&& Some(x.leaves_qty) == opt_low_u32(int_field(m, 151))
    &&& Some(x.cum_qty) == opt_low_u32(int_field(m, 14))
    &&& x.avg_px == decimal_field(m, 6)
    &&& Some(x.transact_time@) == text_field(m, 60)
    &&& opt_text(x.text, text_field(m, 58))
}

/// The first rule of an execution report that `x` breaks: a valid header,
/// order, client order and execution ids and a symbol that are not empty, a
/// side of 1 or 2, and a known order type.
pub open spec fn report_validation(x: ExecutionReport) -> Result<(), ErrorView> {
    match header_validation(x.header) {
        Err(v) => Err(v),
        Ok(()) => if x.order_id@.len() == 0 {
            Err(ErrorView::MissingRequiredField(37))
        } else if x.cl_ord_id@.len() == 0 {
            Err(ErrorView::MissingRequiredField(11))
        } else if x.exec_id@.len() == 0 {
            Err(ErrorView::MissingRequiredField(17))
        } else if x.symbol@.len() == 0 {
            Err(ErrorView::MissingRequiredField(55))
        } else if !(x.side == '1' || x.side == '2') {
            Err(ErrorView::InvalidFieldValue(54, seq![x.side]))
        } else if !is_ord_type_char(x.ord_type) {
            Err(ErrorView::InvalidFieldValue(40, seq![x.ord_type]))
        } else {
            Ok(())
        },
    }
}

/// `r` is what reading a ExecutionReport from the fields `m` gives: the first absent
/// field, or else the message those fields hold when it is valid and the
/// first rule it breaks when it is not.
pub open spec fn report_parsed(m: Map<u32, FixField>, r: Result<ExecutionReport, FixError>) -> bool {
    match report_fields_outcome(m) {
        Err(v) => r matches Err(e) && fix_error_view(e) == v,
        Ok(()) => match r {
            Ok(x) => report_matches(m, x) && report_validation(x) is Ok,
            Err(e) => exists|x: ExecutionReport|
                report_matches(m, x) && report_validation(x) == Err::<
                    (),
                    ErrorView,
                >(fix_error_view(e)),
        },
    }
}

impl ExecutionReport {
    /// Reads an execution report from the fields of a message and validates
    /// it.
    pub fn parse(fields: HashMap<u32, FixField>) -> (r: Result<ExecutionReport, FixError>)
        ensures
            report_parsed(fields@, r),
    {
        let header = match Header::parse(&fields) {
            Ok(h) => h,
            Err(e) => {
                return Err(e);
            },
        };
        let trailer = match Trailer::parse(&fields) {
            Ok(t) => t,
            Err(e) => {
                return Err(e);
            },
        };
        let order_id = match required_string(&fields, 37) {
            Ok(s) => s,
            Err(e) => {
                return Err(FixError::Validation(e));
            },
        };
        let cl_ord_id = match required_string(&fields, 11) {
            Ok(s) => s,
            Err(e) => {
                return Err(FixError::Validation(e));
            },
        };
        let orig_cl_ord_id = get_string(&fields, 41);
        let exec_id = match required_string(&fields, 17) {
            Ok(s) => s,
            Err(e) => {
                return Err(FixError::Validation(e));
            },
        };
        let exec_type = match required_char(&fields, 150) {
            Ok(c) => c,
            Err(e) => {
                return Err(FixError::Validation(e));
            },
        };
        let ord_status = match required_char(&fields, 39) {
            Ok(c) => c,
            Err(e) => {
                return Err(FixError::Validation(e));
            },
        };
        let account = get_string(&fields, 1);
        let symbol = match required_string(&fields, 55) {
            Ok(s) => s,
            Err(e) => {
                return Err(FixError::Validation(e));
            },
        };
        let side = match required_char(&fields, 54) {
            Ok(c) => c,
            Err(e) => {
                return Err(FixError::Validation(e));
            },
        };
        let order_qty = match required_int(&fields, 38) {
            Ok(i) => i as u32,
            Err(e) => {
                return Err(FixError::Validation(e));
            },
        };
        let ord_type = match required_char(&fields, 40) {
            Ok(c) => c,
            Err(e) => {
                return Err(FixError::Validation(e));
            },
        };
        let price = get_decimal(&fields, 44);
        let stop_px = get_decimal(&fields, 99);
        let time_in_force = get_char(&fields, 59);
        let last_qty = match get_int(&fields, 32) {
            Some(i) => Some(i as u32),
            None => None,
        };
        let last_px = get_decimal(&fields, 31);
        let leaves_qty = match required_int(&fields, 151) {
            Ok(i) => i as u32,
            Err(e) => {
                return Err(FixError::Validation(e));
            },
        };
        let cum_qty = match required_int(&fields, 14) {
            Ok(i) => i as u32,
            Err(e) => {
                return Err(FixError::Validation(e));
            },
        };
        let avg_px = get_decimal(&fields, 6);
        let transact_time = match required_string(&fields, 60) {
            Ok(s) => s,
            Err(e) => {
                return Err(FixError::Validation(e));
            },
        };
        let text = get_string(&fields, 58);
        let execution_report = ExecutionReport {
            header,
            order_id,
            cl_ord_id,
            orig_cl_ord_id,
            exec_id,
            exec_type,
            ord_status,
            account,
            symbol,
            side,
            order_qty,
            ord_type,
            price,
            stop_px,
            time_in_force,
            last_qty,
            last_px,
            leaves_qty,
            cum_qty,
            avg_px,
            transact_time,
            text,
            trailer,
        };
        match execution_report.validate() {
            Ok(()) => Ok(execution_report),
            Err(e) => {
                assert(report_matches(fields@, execution_report));
                Err(FixError::Validation(e))
            },
        }
    }

    /// Checks the rules of an execution report.
    pub fn validate(&self) -> (r: Result<(), ValidationError>)
        ensures
            reports(r, report_validation(*self)),
    {
        self.header.validate()?;
        self.trailer.validate()?;
        if self.order_id.as_str().is_empty() {
            return Err(ValidationError::MissingRequiredField { tag: 37 });
        }
        if self.cl_ord_id.as_str().is_empty() {
            return Err(ValidationError::MissingRequiredField { tag: 11 });
        }
        if self.exec_id.as_str().is_empty() {
            return Err(ValidationError::MissingRequiredField { tag: 17 });
        }
        if self.symbol.as_str().is_empty() {
            return Err(ValidationError::MissingRequiredField { tag: 55 });
        }
        if !(self.side == '1' || self.side == '2') {
            return Err(ValidationError::InvalidFieldValue { tag: 54, value: char_string(self.side) });
        }
        if !(self.ord_type == '1' || self.ord_type == '2' || self.ord_type == '3' || self.ord_type
            == '4') {
            return Err(
                ValidationError::InvalidFieldValue { tag: 40, value: char_string(self.ord_type) },
            );
        }
        Ok(())
    }
}

/// What an execution report reports (tag 150).
#[derive(Debug, Clone, Copy, PartialEq, Eq, Structural)]
pub enum ExecType {
    New,
    PartialFill,
    Fill,
    DoneForDay,
    Canceled,
    Replace,
    PendingCancel,
    Stopped,
    Rejected,
    Suspended,
    PendingNew,
    Calculated,
    Expired,
    Restated,
    PendingReplace,
    Trade,
    TradeCorrect,
    TradeCancel,
    OrderStatus,
}

/// The character that stands for each value of `ExecType`.
pub open spec fn exec_type_code(v: ExecType) -> char {
    match v {
        ExecType::New => '0',
        ExecType::PartialFill => '1',
        ExecType::Fill => '2',
        ExecType::DoneForDay => '3',
        ExecType::Canceled => '4',
        ExecType::Replace => '5',
        ExecType::PendingCancel => '6',
        ExecType::Stopped => '7',
        ExecType::Rejected => '8',
        ExecType::Suspended => '9',
        ExecType::PendingNew => 'A',
        ExecType::Calculated => 'B',
        ExecType::Expired => 'C',
        ExecType::Restated => 'D',
        ExecType::PendingReplace => 'E',
        ExecType::Trade => 'F',
        ExecType::TradeCorrect => 'G',
        ExecType::TradeCancel => 'H',
        ExecType::OrderStatus => 'I',
    }
}

impl ExecType {
    /// The value that `c` stands for.
    pub fn from_char(c: char) -> (r: Option<Self>)
        ensures
            match r {
                Some(v) => exec_type_code(v) == c,
                None => forall|v: ExecType| exec_type_code(v) != c,
            },
    {
        match c {
            '0' => Some(ExecType::New),
            '1' => Some(ExecType::PartialFill),
            '2' => Some(ExecType::Fill),
            '3' => Some(ExecType::DoneForDay),
            '4' => Some(ExecType::Canceled),
            '5' => Some(ExecType::Replace),
            '6' => Some(ExecType::PendingCancel),
            '7' => Some(ExecType::Stopped),
            '8' => Some(ExecType::Rejected),
            '9' => Some(ExecType::Suspended),
            'A' => Some(ExecType::PendingNew),
            'B' => Some(ExecType::Calculated),
            'C' => Some(ExecType::Expired),
            'D' => Some(ExecType::Restated),
            'E' => Some(ExecType::PendingReplace),
            'F' => Some(ExecType::Trade),
            'G' => Some(ExecType::TradeCorrect),
            'H' => Some(ExecType::TradeCancel),
            'I' => Some(ExecType::OrderStatus),
            _ => None,
        }
    }

    /// The character that stands for this value.
    pub fn to_char(&self) -> (r: char)
        ensures
            r == exec_type_code(*self),
    {
        match self {
            ExecType::New => '0',
            ExecType::PartialFill => '1',
            ExecType::Fill => '2',
            ExecType::DoneForDay => '3',
            ExecType::Canceled => '4',
            ExecType::Replace => '5',
            ExecType::PendingCancel => '6',
            ExecType::Stopped => '7',
            ExecType::Rejected => '8',
            ExecType::Suspended => '9',
            ExecType::PendingNew => 'A',
            ExecType::Calculated => 'B',
            ExecType::Expired => 'C',
            ExecType::Restated => 'D',
            ExecType::PendingReplace => 'E',
            ExecType::Trade => 'F',
            ExecType::TradeCorrect => 'G',
            ExecType::TradeCancel => 'H',
            ExecType::OrderStatus => 'I',
        }
    }
}

/// The state of an order in an execution report (tag 39).
#[derive(Debug, Clone, Copy, PartialEq, Eq, Structural)]
pub enum OrdStatus {
    New,
    PartiallyFilled,
    Filled,
    DoneForDay,
    Canceled,
    Replaced,
    PendingCancel,
    Stopped,
    Rejected,
    Suspended,
    PendingNew,
    Calculated,
    Expired,
    AcceptedForBidding,
    PendingReplace,
}

/// The character that stands for each value of `OrdStatus`.
pub open spec fn ord_status_code(v: OrdStatus) -> char {
    match v {
        OrdStatus::New => '0',
        OrdStatus::PartiallyFilled => '1',
        OrdStatus::Filled => '2',
        OrdStatus::DoneForDay => '3',
        OrdStatus::Canceled => '4',
        OrdStatus::Replaced => '5',
        OrdStatus::PendingCancel => '6',
        OrdStatus::Stopped => '7',
        OrdStatus::Rejected => '8',
        OrdStatus::Suspended => '9',
        OrdStatus::PendingNew => 'A',
        OrdStatus::Calculated => 'B',
        OrdStatus::Expired => 'C',
        OrdStatus::AcceptedForBidding => 'D',
        OrdStatus::PendingReplace => 'E',
    }
}

impl OrdStatus {
    /// The value that `c` stands for.
    pub fn from_char(c: char) -> (r: Option<Self>)
        ensures
            match r {
                Some(v) => ord_status_code(v) == c,
                None => forall|v: OrdStatus| ord_status_code(v) != c,
            },
    {
        match c {
            '0' => Some(OrdStatus::New),
            '1' => Some(OrdStatus::PartiallyFilled),
            '2' => Some(OrdStatus::Filled),
            '3' => Some(OrdStatus::DoneForDay),
            '4' => Some(OrdStatus::Canceled),
            '5' => Some(OrdStatus::Replaced),
            '6' => Some(OrdStatus::PendingCancel),
            '7' => Some(OrdStatus::Stopped),
            '8' => Some(OrdStatus::Rejected),
            '9' => Some(OrdStatus::Suspended),
            'A' => Some(OrdStatus::PendingNew),
            'B' => Some(OrdStatus::Calculated),
            'C' => Some(OrdStatus::Expired),
            'D' => Some(OrdStatus::AcceptedForBidding),
            'E' => Some(OrdStatus::PendingReplace),
            _ => None,
        }
    }

    /// The character that stands for this value.
    pub fn to_char(&self) -> (r: char)
        ensures
            r == ord_status_code(*self),
    {
        match self {
            OrdStatus::New => '0',
            OrdStatus::PartiallyFilled => '1',
            OrdStatus::Filled => '2',
            OrdStatus::DoneForDay => '3',
            OrdStatus::Canceled => '4',
            OrdStatus::Replaced => '5',
            OrdStatus::PendingCancel => '6',
            OrdStatus::Stopped => '7',
            OrdStatus::Rejected => '8',
            OrdStatus::Suspended => '9',
            OrdStatus::PendingNew => 'A',
            OrdStatus::Calculated => 'B',
            OrdStatus::Expired => 'C',
            OrdStatus::AcceptedForBidding => 'D',
            OrdStatus::PendingReplace => 'E',
        }
    }
}

/// No two execution types share a code, so
/// `ExecType::from_char(v.to_char())` is `Some(v)`.
pub proof fn lemma_exec_type_codes_distinct(a: ExecType, b: ExecType)
    ensures
        exec_type_code(a) == exec_type_code(b) ==> a == b,
{
}

/// No two order statuses share a code, so
/// `OrdStatus::from_char(v.to_char())` is `Some(v)`.
pub proof fn lemma_ord_status_codes_distinct(a: OrdStatus, b: OrdStatus)
    ensures
        ord_status_code(a) == ord_status_code(b) ==> a == b,
{
}

/// A new order and an execution report read from the same fields agree on
/// what both carry: the order's price (tag 44) and stop price (tag 99), its
/// client order id, symbol, side, quantity, order type and time in force.
pub proof fn lemma_new_order_and_report_agree(
    m: Map<u32, FixField>,
    o: NewOrderSingle,
    x: ExecutionReport,
)
    requires
        new_order_matches(m, o),
        report_matches(m, x),
    ensures
        o.price == x.price,
        o.stop_px == x.stop_px,
        o.cl_ord_id@ == x.cl_ord_id@,
        o.symbol@ == x.symbol@,
        o.side == x.side,
        o.order_qty == x.order_qty,
        o.ord_type == x.ord_type,
        o.time_in_force == x.time_in_force,
{
}

} // verus!
