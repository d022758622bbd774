//! The FIX messages this exchange reads and writes, and the message types
//! of the protocol.

pub mod execution_report;
pub mod header;
pub mod heartbeat;
pub mod logon;
pub mod new_order_single;
pub mod order_cancel_request;
pub mod trailer;

pub use execution_report::ExecutionReport;
pub use header::{Header, StandardHeader};
pub use heartbeat::Heartbeat;
pub use logon::Logon;
pub use new_order_single::NewOrderSingle;
pub use order_cancel_request::OrderCancelRequest;
pub use trailer::Trailer;

use crate::fix::decimal::FixDecimal;
use crate::fix::error::{FixError, ValidationError};
use crate::fix::parser::field_parser::{FieldValue, FixField};
use std::collections::HashMap;
use vstd::prelude::*;
use vstd::string::StrSliceExecFns;

verus! {

broadcast use vstd::std_specs::hash::group_hash_axioms;

/// A parsed FIX message of one of the types the exchange handles.
#[derive(Debug)]
pub enum FixMessage {
    NewOrderSingle(NewOrderSingle),
    ExecutionReport(ExecutionReport),
    OrderCancelRequest(OrderCancelRequest),
    Heartbeat(Heartbeat),
    Logon(Logon),
}

impl FixMessage {
    /// The message's header.
    pub open spec fn header_of(self) -> StandardHeader {
        match self {
            FixMessage::NewOrderSingle(m) => m.header,
            FixMessage::ExecutionReport(m) => m.header,
            FixMessage::OrderCancelRequest(m) => m.header,
            FixMessage::Heartbeat(m) => m.header,
            FixMessage::Logon(m) => m.header,
        }
    }

    /// The message's sequence number (tag 34).
    pub open spec fn seq_num(self) -> u32 {
        self.header_of().msg_seq_num
    }

    /// The two messages are of one type and agree as that type's `same_as`
    /// says.
    pub open spec fn same_as(self, other: FixMessage) -> bool {
        match (self, other) {
            (FixMessage::NewOrderSingle(a), FixMessage::NewOrderSingle(b)) => a.same_as(b),
            (FixMessage::ExecutionReport(a), FixMessage::ExecutionReport(b)) => a.same_as(b),
            (FixMessage::OrderCancelRequest(a), FixMessage::OrderCancelRequest(b)) => a.same_as(b),
            (FixMessage::Heartbeat(a), FixMessage::Heartbeat(b)) => a.same_as(b),
            (FixMessage::Logon(a), FixMessage::Logon(b)) => a.same_as(b),
            _ => false,
        }
    }
}

impl Clone for FixMessage {
    fn clone(&self) -> (r: Self)
        ensures
            r.same_as(*self),
    {
        match self {
            FixMessage::NewOrderSingle(m) => FixMessage::NewOrderSingle(m.clone()),
            FixMessage::ExecutionReport(m) => FixMessage::ExecutionReport(m.clone()),
            FixMessage::OrderCancelRequest(m) => FixMessage::OrderCancelRequest(m.clone()),
            FixMessage::Heartbeat(m) => FixMessage::Heartbeat(m.clone()),
            FixMessage::Logon(m) => FixMessage::Logon(m.clone()),
        }
    }
}

/// The message types of FIX 4.4 (tag 35).
#[derive(Debug, Clone, Copy, PartialEq, Eq, Structural)]
pub enum MessageType {
    Heartbeat,
    TestRequest,
    ResendRequest,
    Reject,
    SequenceReset,
    Logout,
    IOI,
    Advertisement,
    ExecutionReport,
    OrderCancelReject,
    Logon,
    News,
    Email,
    NewOrderSingle,
    OrderCancelRequest,
    OrderCancelReplaceRequest,
    OrderStatusRequest,
    Allocation,
    ListCancelRequest,
    ListExecute,
    ListStatusRequest,
    ListStatus,
    AllocationAck,
    DontKnowTrade,
    QuoteRequest,
    Quote,
    SettlementInstructions,
    MarketDataRequest,
    MarketDataSnapshotFullRefresh,
    MarketDataIncrementalRefresh,
    MarketDataRequestReject,
    QuoteCancel,
    QuoteStatusRequest,
    QuoteAcknowledgement,
    SecurityDefinitionRequest,
    SecurityDefinition,
    SecurityStatusRequest,
    SecurityStatus,
    TradingSessionStatusRequest,
    TradingSessionStatus,
    MassQuote,
    BusinessMessageReject,
    BidRequest,
    BidResponse,
    ListStrikePrice,
}

/// The one-character code of each message type.
pub open spec fn msg_type_code(t: MessageType) -> char {
    match t {
        MessageType::Heartbeat => '0',
        MessageType::TestRequest => '1',
        MessageType::ResendRequest => '2',
        MessageType::Reject => '3',
        MessageType::SequenceReset => '4',
        MessageType::Logout => '5',
        MessageType::IOI => '6',
        MessageType::Advertisement => '7',
        MessageType::ExecutionReport => '8',
        MessageType::OrderCancelReject => '9',
        MessageType::Logon => 'A',
        MessageType::News => 'B',
        MessageType::Email => 'C',
        MessageType::NewOrderSingle => 'D',
        MessageType::OrderCancelRequest => 'F',
        MessageType::OrderCancelReplaceRequest => 'G',
        MessageType::OrderStatusRequest => 'H',
        MessageType::Allocation => 'J',
        MessageType::ListCancelRequest => 'K',
        MessageType::ListExecute => 'L',
        MessageType::ListStatusRequest => 'M',
        MessageType::ListStatus => 'N',
        MessageType::AllocationAck => 'P',
        MessageType::DontKnowTrade => 'Q',
        MessageType::QuoteRequest => 'R',
        MessageType::Quote => 'S',
        MessageType::SettlementInstructions => 'T',
        MessageType::MarketDataRequest => 'V',
        MessageType::MarketDataSnapshotFullRefresh => 'W',
        MessageType::MarketDataIncrementalRefresh => 'X',
        MessageType::MarketDataRequestReject => 'Y',
        MessageType::QuoteCancel => 'Z',
        MessageType::QuoteStatusRequest => 'a',
        MessageType::QuoteAcknowledgement => 'b',
        MessageType::SecurityDefinitionRequest => 'c',
        MessageType::SecurityDefinition => 'd',
        MessageType::SecurityStatusRequest => 'e',
        MessageType::SecurityStatus => 'f',
        MessageType::TradingSessionStatusRequest => 'g',
        MessageType::TradingSessionStatus => 'h',
        MessageType::MassQuote => 'i',
        MessageType::BusinessMessageReject => 'j',
        MessageType::BidRequest => 'k',
        MessageType::BidResponse => 'l',
        MessageType::ListStrikePrice => 'm',
    }
}

/// The message type whose code is the text `s`.
pub open spec fn msg_type_from_text(s: Seq<char>) -> Option<MessageType> {
    if s.len() != 1 {
        None
    } else {
        match s[0] {
            '0' => Some(MessageType::Heartbeat),
            '1' => Some(MessageType::TestRequest),
            '2' => Some(MessageType::ResendRequest),
            '3' => Some(MessageType::Reject),
            '4' => Some(MessageType::SequenceReset),
            '5' => Some(MessageType::Logout),
            '6' => Some(MessageType::IOI),
            '7' => Some(MessageType::Advertisement),
            '8' => Some(MessageType::ExecutionReport),
            '9' => Some(MessageType::OrderCancelReject),
            'A' => Some(MessageType::Logon),
            'B' => Some(MessageType::News),
            'C' => Some(MessageType::Email),
            'D' => Some(MessageType::NewOrderSingle),
            'F' => Some(MessageType::OrderCancelRequest),
            'G' => Some(MessageType::OrderCancelReplaceRequest),
            'H' => Some(MessageType::OrderStatusRequest),
            'J' => Some(MessageType::Allocation),
            'K' => Some(MessageType::ListCancelRequest),
            'L' => Some(MessageType::ListExecute),
            'M' => Some(MessageType::ListStatusRequest),
            'N' => Some(MessageType::ListStatus),
            'P' => Some(MessageType::AllocationAck),
            'Q' => Some(MessageType::DontKnowTrade),
            'R' => Some(MessageType::QuoteRequest),
            'S' => Some(MessageType::Quote),
            'T' => Some(MessageType::SettlementInstructions),
            'V' => Some(MessageType::MarketDataRequest),
            'W' => Some(MessageType::MarketDataSnapshotFullRefresh),
            'X' => Some(MessageType::MarketDataIncrementalRefresh),
            'Y' => Some(MessageType::MarketDataRequestReject),
            'Z' => Some(MessageType::QuoteCancel),
            'a' => Some(MessageType::QuoteStatusRequest),
            'b' => Some(MessageType::QuoteAcknowledgement),
            'c' => Some(MessageType::SecurityDefinitionRequest),
            'd' => Some(MessageType::SecurityDefinition),
            'e' => Some(MessageType::SecurityStatusRequest),
            'f' => Some(MessageType::SecurityStatus),
            'g' => Some(MessageType::TradingSessionStatusRequest),
            'h' => Some(MessageType::TradingSessionStatus),
            'i' => Some(MessageType::MassQuote),
            'j' => Some(MessageType::BusinessMessageReject),
            'k' => Some(MessageType::BidRequest),
            'l' => Some(MessageType::BidResponse),
            'm' => Some(MessageType::ListStrikePrice),
            _ => None,
        }
    }
}

/// What a validation error says, with its text as characters.
pub enum ErrorView {
    MissingRequiredField(u32),
    InvalidMessageType(Seq<char>),
    InvalidFieldValue(u32, Seq<char>),
    Other,
}

/// What `e` says.
pub open spec fn validation_view(e: ValidationError) -> ErrorView {
    match e {
        ValidationError::MissingRequiredField { tag } => ErrorView::MissingRequiredField(tag),
        ValidationError::InvalidMessageType { msg_type } => ErrorView::InvalidMessageType(
            msg_type@,
        ),
        ValidationError::InvalidFieldValue { tag, value } => ErrorView::InvalidFieldValue(
            tag,
            value@,
        ),
        _ => ErrorView::Other,
    }
}

/// What `e` says, when it is a validation error.
pub open spec fn fix_error_view(e: FixError) -> ErrorView {
    match e {
        FixError::Validation(v) => validation_view(v),
        _ => ErrorView::Other,
    }
}

/// The text of field `tag`, when it is present and holds text.
pub open spec fn text_field(m: Map<u32, FixField>, tag: u32) -> Option<Seq<char>> {
    if m.contains_key(tag) {
        match m[tag].value {
            FieldValue::String(s) => Some(s@),
            _ => None,
        }
    } else {
        None
    }
}

/// The value of field `tag`, when it is present and holds an integer.
pub open spec fn int_field(m: Map<u32, FixField>, tag: u32) -> Option<i64> {
    if m.contains_key(tag) {
        match m[tag].value {
            FieldValue::Int(i) => Some(i),
            _ => None,
        }
    } else {
        None
    }
}

/// The value of field `tag`, when it is present and holds a decimal.
pub open spec fn decimal_field(m: Map<u32, FixField>, tag: u32) -> Option<FixDecimal> {
    if m.contains_key(tag) {
        match m[tag].value {
            FieldValue::Float(d) => Some(d),
            _ => None,
        }
    } else {
        None
    }
}

/// The value of field `tag`, when it is present and holds one character.
pub open spec fn char_field(m: Map<u32, FixField>, tag: u32) -> Option<char> {
    if m.contains_key(tag) {
        match m[tag].value {
            FieldValue::Char(c) => Some(c),
            _ => None,
        }
    } else {
        None
    }
}

/// The value of field `tag`, when it is present and holds yes or no.
pub open spec fn bool_field(m: Map<u32, FixField>, tag: u32) -> Option<bool> {
    if m.contains_key(tag) {
        match m[tag].value {
            FieldValue::Bool(b) => Some(b),
            _ => None,
        }
    } else {
        None
    }
}

/// The bytes of field `tag`, when it is present and holds raw data.
pub open spec fn data_field(m: Map<u32, FixField>, tag: u32) -> Option<Seq<u8>> {
    if m.contains_key(tag) {
        match m[tag].value {
            FieldValue::Data(d) => Some(d@),
            _ => None,
        }
    } else {
        None
    }
}

/// An optional string holds the text `t`.
pub open spec fn opt_text(o: Option<String>, t: Option<Seq<char>>) -> bool {
    match o {
        Some(s) => t == Some(s@),
        None => t is None,
    }
}

/// An optional byte vector holds the bytes `t`.
pub open spec fn opt_data(o: Option<Vec<u8>>, t: Option<Seq<u8>>) -> bool {
    match o {
        Some(v) => t == Some(v@),
        None => t is None,
    }
}

/// `n` taken modulo 2^32, as `as u32` does.
pub open spec fn low_u32(n: i64) -> u32 {
    n as u32
}

/// An optional integer truncated to `u32`.
pub open spec fn opt_low_u32(o: Option<i64>) -> Option<u32> {
    match o {
        Some(i) => Some(low_u32(i)),
        None => None,
    }
}

/// The text of field `tag`, when it holds text.
pub fn get_string(fields: &HashMap<u32, FixField>, tag: u32) -> (r: Option<String>)
    ensures
        opt_text(r, text_field(fields@, tag)),
{
    match fields.get(&tag) {
        Some(f) => match f.as_string() {
            Some(s) => Some(s.to_owned()),
            None => None,
        },
        None => None,
    }
}

/// The value of field `tag`, when it holds an integer.
pub fn get_int(fields: &HashMap<u32, FixField>, tag: u32) -> (r: Option<i64>)
    ensures
        r == int_field(fields@, tag),
{
    match fields.get(&tag) {
        Some(f) => f.as_int(),
        None => None,
    }
}

/// The value of field `tag`, when it holds a decimal.
pub fn get_decimal(fields: &HashMap<u32, FixField>, tag: u32) -> (r: Option<FixDecimal>)
    ensures
        r == decimal_field(fields@, tag),
{
    match fields.get(&tag) {
        Some(f) => f.as_float(),
        None => None,
    }
}

/// The value of field `tag`, when it holds one character.
pub fn get_char(fields: &HashMap<u32, FixField>, tag: u32) -> (r: Option<char>)
    ensures
        r == char_field(fields@, tag),
{
    match fields.get(&tag) {
        Some(f) => f.as_char(),
        None => None,
    }
}

/// The value of field `tag`, when it holds yes or no.
pub fn get_bool(fields: &HashMap<u32, FixField>, tag: u32) -> (r: Option<bool>)
    ensures
        r == bool_field(fields@, tag),
{
    match fields.get(&tag) {
        Some(f) => f.as_bool(),
        None => None,
    }
}

/// The bytes of field `tag`, when it holds raw data.
pub fn get_data(fields: &HashMap<u32, FixField>, tag: u32) -> (r: Option<Vec<u8>>)
    ensures
        opt_data(r, data_field(fields@, tag)),
{
    match fields.get(&tag) {
        Some(f) => match &f.value {
            FieldValue::Data(d) => Some(d.clone()),
            _ => None,
        },
        None => None,
    }
}

/// The text of required field `tag`; its absence is an error.
pub fn required_string(fields: &HashMap<u32, FixField>, tag: u32) -> (r: Result<
    String,
    ValidationError,
>)
    ensures
        match text_field(fields@, tag) {
            Some(t) => r matches Ok(s) && s@ == t,
            None => r matches Err(e) && validation_view(e) == ErrorView::MissingRequiredField(tag),
        },
{
    match get_string(fields, tag) {
        Some(s) => Ok(s),
        None => Err(ValidationError::MissingRequiredField { tag }),
    }
}

/// The value of required integer field `tag`; its absence is an error.
pub fn required_int(fields: &HashMap<u32, FixField>, tag: u32) -> (r: Result<i64, ValidationError>)
    ensures
        match int_field(fields@, tag) {
            Some(i) => r == Ok::<i64, ValidationError>(i),
            None => r matches Err(e) && validation_view(e) == ErrorView::MissingRequiredField(tag),
        },
{
    match get_int(fields, tag) {
        Some(i) => Ok(i),
        None => Err(ValidationError::MissingRequiredField { tag }),
    }
}

/// The value of required one-character field `tag`; its absence is an error.
pub fn required_char(fields: &HashMap<u32, FixField>, tag: u32) -> (r: Result<char, ValidationError>)
    ensures
        match char_field(fields@, tag) {
            Some(c) => r == Ok::<char, ValidationError>(c),
            None => r matches Err(e) && validation_view(e) == ErrorView::MissingRequiredField(tag),
        },
{
    match get_char(fields, tag) {
        Some(c) => Ok(c),
        None => Err(ValidationError::MissingRequiredField { tag }),
    }
}

/// The text of a one-character string.
pub fn char_string(c: char) -> (r: String)
    ensures
        r@ == seq![c],
{
    let mut s = String::new();
    crate::text::push_char(&mut s, c);
    assert(s@ =~= seq![c]);
    s
}

impl MessageType {
    /// The message type whose code is `s`.
    pub fn from_str(s: &str) -> (r: Option<Self>)
        ensures
            r == msg_type_from_text(s@),
            match r {
                Some(t) => s@ == seq![msg_type_code(t)],
                None => forall|t: MessageType| s@ != seq![msg_type_code(t)],
            },
    {
        if s.unicode_len() != 1 {
            return None;
        }
        let c = s.get_char(0);
        assert(s@ =~= seq![c]);
        match c {
            '0' => Some(MessageType::Heartbeat),
            '1' => Some(MessageType::TestRequest),
            '2' => Some(MessageType::ResendRequest),
            '3' => Some(MessageType::Reject),
            '4' => Some(MessageType::SequenceReset),
            '5' => Some(MessageType::Logout),
            '6' => Some(MessageType::IOI),
            '7' => Some(MessageType::Advertisement),
            '8' => Some(MessageType::ExecutionReport),
            '9' => Some(MessageType::OrderCancelReject),
            'A' => Some(MessageType::Logon),
            'B' => Some(MessageType::News),
            'C' => Some(MessageType::Email),
            'D' => Some(MessageType::NewOrderSingle),
            'F' => Some(MessageType::OrderCancelRequest),
            'G' => Some(MessageType::OrderCancelReplaceRequest),
            'H' => Some(MessageType::OrderStatusRequest),
            'J' => Some(MessageType::Allocation),
            'K' => Some(MessageType::ListCancelRequest),
            'L' => Some(MessageType::ListExecute),
            'M' => Some(MessageType::ListStatusRequest),
            'N' => Some(MessageType::ListStatus),
            'P' => Some(MessageType::AllocationAck),
            'Q' => Some(MessageType::DontKnowTrade),
            'R' => Some(MessageType::QuoteRequest),
            'S' => Some(MessageType::Quote),
            'T' => Some(MessageType::SettlementInstructions),
            'V' => Some(MessageType::MarketDataRequest),
            'W' => Some(MessageType::MarketDataSnapshotFullRefresh),
            'X' => Some(MessageType::MarketDataIncrementalRefresh),
            'Y' => Some(MessageType::MarketDataRequestReject),
            'Z' => Some(MessageType::QuoteCancel),
            'a' => Some(MessageType::QuoteStatusRequest),
            'b' => Some(MessageType::QuoteAcknowledgement),
            'c' => Some(MessageType::SecurityDefinitionRequest),
            'd' => Some(MessageType::SecurityDefinition),
            'e' => Some(MessageType::SecurityStatusRequest),
            'f' => Some(MessageType::SecurityStatus),
            'g' => Some(MessageType::TradingSessionStatusRequest),
            'h' => Some(MessageType::TradingSessionStatus),
            'i' => Some(MessageType::MassQuote),
            'j' => Some(MessageType::BusinessMessageReject),
            'k' => Some(MessageType::BidRequest),
            'l' => Some(MessageType::BidResponse),
            'm' => Some(MessageType::ListStrikePrice),
            _ => None,
        }
    }

    /// The code of this message type.
    pub fn as_str(&self) -> (r: &'static str)
        ensures
            r@ == seq![msg_type_code(*self)],
    {
        match self {
            MessageType::Heartbeat => {
                proof {
                    reveal_strlit("0");
                }
                "0"
            },
            MessageType::TestRequest => {
                proof {
                    reveal_strlit("1");
                }
                "1"
            },
            MessageType::ResendRequest => {
                proof {
                    reveal_strlit("2");
                }
                "2"
            },
            MessageType::Reject => {
                proof {
                    reveal_strlit("3");
                }
                "3"
            },
            MessageType::SequenceReset => {
                proof {
                    reveal_strlit("4");
                }
                "4"
            },
            MessageType::Logout => {
                proof {
                    reveal_strlit("5");
                }
                "5"
            },
            MessageType::IOI => {
                proof {
                    reveal_strlit("6");
                }
                "6"
            },
            MessageType::Advertisement => {
                proof {
                    reveal_strlit("7");
                }
                "7"
            },
            MessageType::ExecutionReport => {
                proof {
                    reveal_strlit("8");
                }
                "8"
            },
            MessageType::OrderCancelReject => {
                proof {
                    reveal_strlit("9");
                }
                "9"
            },
            MessageType::Logon => {
                proof {
                    reveal_strlit("A");
                }
                "A"
            },
            MessageType::News => {
                proof {
                    reveal_strlit("B");
                }
                "B"
            },
            MessageType::Email => {
                proof {
                    reveal_strlit("C");
                }
                "C"
            },
            MessageType::NewOrderSingle => {
                proof {
                    reveal_strlit("D");
                }
                "D"
            },
            MessageType::OrderCancelRequest => {
                proof {
                    reveal_strlit("F");
                }
                "F"
            },
            MessageType::OrderCancelReplaceRequest => {
                proof {
                    reveal_strlit("G");
                }
                "G"
            },
            MessageType::OrderStatusRequest => {
                proof {
                    reveal_strlit("H");
                }
                "H"
            },
            MessageType::Allocation => {
                proof {
                    reveal_strlit("J");
                }
                "J"
            },
            MessageType::ListCancelRequest => {
                proof {
                    reveal_strlit("K");
                }
                "K"
            },
            MessageType::ListExecute => {
                proof {
                    reveal_strlit("L");
                }
                "L"
            },
            MessageType::ListStatusRequest => {
                proof {
                    reveal_strlit("M");
                }
                "M"
            },
            MessageType::ListStatus => {
                proof {
                    reveal_strlit("N");
                }
                "N"
            },
            MessageType::AllocationAck => {
                proof {
                    reveal_strlit("P");
                }
                "P"
            },
            MessageType::DontKnowTrade => {
                proof {
                    reveal_strlit("Q");
                }
                "Q"
            },
            MessageType::QuoteRequest => {
                proof {
                    reveal_strlit("R");
                }
                "R"
            },
            MessageType::Quote => {
                proof {
                    reveal_strlit("S");
                }
                "S"
            },
            MessageType::SettlementInstructions => {
                proof {
                    reveal_strlit("T");
                }
                "T"
            },
            MessageType::MarketDataRequest => {
                proof {
                    reveal_strlit("V");
                }
                "V"
            },
            MessageType::MarketDataSnapshotFullRefresh => {
                proof {
                    reveal_strlit("W");
                }
                "W"
            },
            MessageType::MarketDataIncrementalRefresh => {
                proof {
                    reveal_strlit("X");
                }
                "X"
            },
            MessageType::MarketDataRequestReject => {
                proof {
                    reveal_strlit("Y");
                }
                "Y"
            },
            MessageType::QuoteCancel => {
                proof {
                    reveal_strlit("Z");
                }
                "Z"
            },
            MessageType::QuoteStatusRequest => {
                proof {
                    reveal_strlit("a");
                }
                "a"
            },
            MessageType::QuoteAcknowledgement => {
                proof {
                    reveal_strlit("b");
                }
                "b"
            },
            MessageType::SecurityDefinitionRequest => {
                proof {
                    reveal_strlit("c");
                }
                "c"
            },
            MessageType::SecurityDefinition => {
                proof {
                    reveal_strlit("d");
                }
                "d"
            },
            MessageType::SecurityStatusRequest => {
                proof {
                    reveal_strlit("e");
                }
                "e"
            },
            MessageType::SecurityStatus => {
                proof {
                    reveal_strlit("f");
                }
                "f"
            },
            MessageType::TradingSessionStatusRequest => {
                proof {
                    reveal_strlit("g");
                }
                "g"
            },
            MessageType::TradingSessionStatus => {
                proof {
                    reveal_strlit("h");
                }
                "h"
            },
            MessageType::MassQuote => {
                proof {
                    reveal_strlit("i");
                }
                "i"
            },
            MessageType::BusinessMessageReject => {
                proof {
                    reveal_strlit("j");
                }
                "j"
            },
            MessageType::BidRequest => {
                proof {
                    reveal_strlit("k");
                }
                "k"
            },
            MessageType::BidResponse => {
                proof {
                    reveal_strlit("l");
                }
                "l"
            },
            MessageType::ListStrikePrice => {
                proof {
                    reveal_strlit("m");
                }
                "m"
            },
        }
    }
}

/// No two message types share a code.
pub proof fn lemma_msg_type_codes_distinct(t: MessageType, u: MessageType)
    ensures
        msg_type_code(t) == msg_type_code(u) ==> t == u,
{
}

/// A message type's code reads back as that type: `MessageType::from_str`
/// of `t.as_str()` is `Some(t)`.
pub proof fn lemma_msg_type_round_trip(t: MessageType)
    ensures
        msg_type_from_text(seq![msg_type_code(t)]) == Some(t),
{
}

} // verus!
