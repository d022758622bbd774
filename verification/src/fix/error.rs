//! The errors of the FIX layer, grouped by where they arise: reading bytes,
//! checking a message's fields, running a session, and the business rules.

use crate::fix::decimal::FixDecimal;
use crate::text::{concat_text, decimal_string, decimal_text, push_char};
use vstd::prelude::*;

verus! {

/// Any error of the FIX layer.
#[derive(Debug)]
pub enum FixError {
    Parse(ParseError),
    Validation(ValidationError),
    Session(SessionError),
    Business(BusinessError),
}

/// The bytes of a message do not form a message.
#[derive(Debug)]
pub enum ParseError {
    InvalidFormat,
    InvalidChecksum { expected: u8, actual: u8 },
    InvalidBodyLength { expected: usize, actual: usize },
    MissingSoh,
    InvalidTag { tag: String },
    InvalidFieldValue { tag: u32, value: String },
    MessageTooLarge { size: usize, limit: usize },
    InvalidCharacter { position: usize, byte: u8 },
    TruncatedMessage { expected: usize, actual: usize },
    InvalidRepeatingGroup { reason: String },
}

/// A message's fields break the rules of its message type.
#[derive(Debug)]
pub enum ValidationError {
    MissingRequiredField { tag: u32 },
    InvalidMessageType { msg_type: String },
    FieldNotAllowed { tag: u32, msg_type: String },
    InvalidFieldLength { tag: u32, length: usize },
    InvalidFieldValue { tag: u32, value: String },
    ConditionalFieldMissing { tag: u32, condition: String },
    FieldOrderingViolation { tag: u32, after_tag: u32 },
    RepeatingGroupValidation { reason: String },
    DataTypeMismatch { tag: u32, expected: String, actual: String },
}

/// A session is not in the state a message needs.
#[derive(Debug, Clone, Copy, PartialEq, Eq, Structural)]
pub enum SessionError {
    InvalidSequenceNumber { expected: u32, actual: u32 },
    NotLoggedIn,
    HeartbeatTimeout,
    InvalidSessionState,
    DuplicateSession,
}

/// An order breaks a trading rule.
#[derive(Debug)]
pub enum BusinessError {
    InvalidSymbol { symbol: String },
    InvalidQuantity { quantity: u32 },
    InvalidPrice { price: u64 },
    DuplicateClOrdId { cl_ord_id: String },
    OrderNotFound { cl_ord_id: String },
    MarketClosed { symbol: String },
    InsufficientBalance { required: FixDecimal, available: FixDecimal },
    TradingHalt { symbol: String },
    PositionLimitExceeded { limit: u32 },
}

/// The lowercase hexadecimal digit of `d`.
pub open spec fn hex_digit(d: nat) -> char {
    if d < 10 {
        (d + 48) as char
    } else {
        (d - 10 + 97) as char
    }
}

/// A byte as two lowercase hexadecimal digits.
pub open spec fn hex_byte_text(b: u8) -> Seq<char> {
    seq![hex_digit((b / 16) as nat), hex_digit((b % 16) as nat)]
}

/// The message of a parse error, as its display writes it.
pub open spec fn parse_error_text(e: ParseError) -> Seq<char> {
    match e {
        ParseError::InvalidFormat => "Invalid message format"@,
        ParseError::InvalidChecksum { expected, actual } => "Invalid checksum: expected "@
            + decimal_text(expected as nat) + ", got "@ + decimal_text(actual as nat),
        ParseError::InvalidBodyLength { expected, actual } => "Invalid body length: expected "@
            + decimal_text(expected as nat) + ", got "@ + decimal_text(actual as nat),
        ParseError::MissingSoh => "Missing SOH delimiter"@,
        ParseError::InvalidTag { tag } => "Invalid tag format: "@ + tag@,
        ParseError::InvalidFieldValue { tag, value } => "Invalid field value for tag "@
            + decimal_text(tag as nat) + ": "@ + value@,
        ParseError::MessageTooLarge { size, limit } => "Message too large: "@ + decimal_text(
            size as nat,
        ) + " bytes exceeds limit "@ + decimal_text(limit as nat),
        ParseError::InvalidCharacter { position, byte } => "Invalid character at position "@
            + decimal_text(position as nat) + ": 0x"@ + hex_byte_text(byte),
        ParseError::TruncatedMessage { expected, actual } => "Truncated message: expected "@
            + decimal_text(expected as nat) + " bytes, got "@ + decimal_text(actual as nat),
        ParseError::InvalidRepeatingGroup { reason } => "Invalid repeating group: "@ + reason@,
    }
}

/// `a`, then the number `n`, then `b`.
fn text_number_text(a: &str, n: u64, b: &str) -> (r: String)
    ensures
        r@ == a@ + decimal_text(n as nat) + b@,
{
    let digits = decimal_string(n);
    let first = concat_text(a, digits.as_str());
    concat_text(first.as_str(), b)
}

impl ParseError {
    /// The message of the error, as its display writes it.
    pub fn to_text(&self) -> (r: String)
        ensures
            r@ == parse_error_text(*self),
    {
        match self {
            ParseError::InvalidFormat => "Invalid message format".to_owned(),
            ParseError::InvalidChecksum { expected, actual } => {
                let a = text_number_text("Invalid checksum: expected ", *expected as u64, ", got ");
                let d = decimal_string(*actual as u64);
                concat_text(a.as_str(), d.as_str())
            },
            ParseError::InvalidBodyLength { expected, actual } => {
                let a = text_number_text(
                    "Invalid body length: expected ",
                    *expected as u64,
                    ", got ",
                );
                let d = decimal_string(*actual as u64);
                concat_text(a.as_str(), d.as_str())
            },
            ParseError::MissingSoh => "Missing SOH delimiter".to_owned(),
            ParseError::InvalidTag { tag } => concat_text("Invalid tag format: ", tag.as_str()),
            ParseError::InvalidFieldValue { tag, value } => {
                let a = text_number_text("Invalid field value for tag ", *tag as u64, ": ");
                concat_text(a.as_str(), value.as_str())
            },
            ParseError::MessageTooLarge { size, limit } => {
                let a = text_number_text(
                    "Message too large: ",
                    *size as u64,
                    " bytes exceeds limit ",
                );
                let d = decimal_string(*limit as u64);
                concat_text(a.as_str(), d.as_str())
            },
            ParseError::InvalidCharacter { position, byte } => {
                let mut a = text_number_text(
                    "Invalid character at position ",
                    *position as u64,
                    ": 0x",
                );
                let hi: u8 = *byte / 16;
                let lo: u8 = *byte % 16;
                let c1 = if hi < 10 {
                    (hi + 48) as char
                } else {
                    (hi - 10 + 97) as char
                };
                let c2 = if lo < 10 {
                    (lo + 48) as char
                } else {
                    (lo - 10 + 97) as char
                };
                let ghost before = a@;
                push_char(&mut a, c1);
                push_char(&mut a, c2);
                assert(a@ =~= before + hex_byte_text(*byte));
                a
            },
            ParseError::TruncatedMessage { expected, actual } => {
                let a = text_number_text(
                    "Truncated message: expected ",
                    *expected as u64,
                    " bytes, got ",
                );
                let d = decimal_string(*actual as u64);
                concat_text(a.as_str(), d.as_str())
            },
            ParseError::InvalidRepeatingGroup { reason } => concat_text(
                "Invalid repeating group: ",
                reason.as_str(),
            ),
        }
    }
}

impl Clone for ParseError {
    fn clone(&self) -> (r: Self)
        ensures
            r == *self,
    {
        match self {
            ParseError::InvalidFormat => ParseError::InvalidFormat,
            ParseError::InvalidChecksum { expected, actual } => ParseError::InvalidChecksum {
                expected: *expected,
                actual: *actual,
            },
            ParseError::InvalidBodyLength { expected, actual } => ParseError::InvalidBodyLength {
                expected: *expected,
                actual: *actual,
            },
            ParseError::MissingSoh => ParseError::MissingSoh,
            ParseError::InvalidTag { tag } => ParseError::InvalidTag { tag: tag.clone() },
            ParseError::InvalidFieldValue { tag, value } => ParseError::InvalidFieldValue {
                tag: *tag,
                value: value.clone(),
            },
            ParseError::MessageTooLarge { size, limit } => ParseError::MessageTooLarge {
                size: *size,
                limit: *limit,
            },
            ParseError::InvalidCharacter { position, byte } => ParseError::InvalidCharacter {
                position: *position,
                byte: *byte,
            },
            ParseError::TruncatedMessage { expected, actual } => ParseError::TruncatedMessage {
                expected: *expected,
                actual: *actual,
            },
            ParseError::InvalidRepeatingGroup { reason } => ParseError::InvalidRepeatingGroup {
                reason: reason.clone(),
            },
        }
    }
}

impl Clone for ValidationError {
    fn clone(&self) -> (r: Self)
        ensures
            r == *self,
    {
        match self {
            ValidationError::MissingRequiredField { tag } => ValidationError::MissingRequiredField {
                tag: *tag,
            },
            ValidationError::InvalidMessageType { msg_type } => ValidationError::InvalidMessageType {
                msg_type: msg_type.clone(),
            },
            ValidationError::FieldNotAllowed { tag, msg_type } => ValidationError::FieldNotAllowed {
                tag: *tag,
                msg_type: msg_type.clone(),
            },
            ValidationError::InvalidFieldLength { tag, length } => ValidationError::InvalidFieldLength {
                tag: *tag,
                length: *length,
            },
            ValidationError::InvalidFieldValue { tag, value } => ValidationError::InvalidFieldValue {
                tag: *tag,
                value: value.clone(),
            },
            ValidationError::ConditionalFieldMissing { tag, condition } => {
                ValidationError::ConditionalFieldMissing { tag: *tag, condition: condition.clone() }
            },
            ValidationError::FieldOrderingViolation { tag, after_tag } => {
                ValidationError::FieldOrderingViolation { tag: *tag, after_tag: *after_tag }
            },
            ValidationError::RepeatingGroupValidation { reason } => {
                ValidationError::RepeatingGroupValidation { reason: reason.clone() }
            },
            ValidationError::DataTypeMismatch { tag, expected, actual } => {
                ValidationError::DataTypeMismatch {
                    tag: *tag,
                    expected: expected.clone(),
                    actual: actual.clone(),
                }
            },
        }
    }
}

impl Clone for BusinessError {
    fn clone(&self) -> (r: Self)
        ensures
            r == *self,
    {
        match self {
            BusinessError::InvalidSymbol { symbol } => BusinessError::InvalidSymbol {
                symbol: symbol.clone(),
            },
            BusinessError::InvalidQuantity { quantity } => BusinessError::InvalidQuantity {
                quantity: *quantity,
            },
            BusinessError::InvalidPrice { price } => BusinessError::InvalidPrice { price: *price },
            BusinessError::DuplicateClOrdId { cl_ord_id } => BusinessError::DuplicateClOrdId {
                cl_ord_id: cl_ord_id.clone(),
            },
            BusinessError::OrderNotFound { cl_ord_id } => BusinessError::OrderNotFound {
                cl_ord_id: cl_ord_id.clone(),
            },
            BusinessError::MarketClosed { symbol } => BusinessError::MarketClosed {
                symbol: symbol.clone(),
            },
            BusinessError::InsufficientBalance { required, available } => {
                BusinessError::InsufficientBalance { required: *required, available: *available }
            },
            BusinessError::TradingHalt { symbol } => BusinessError::TradingHalt {
                symbol: symbol.clone(),
            },
            BusinessError::PositionLimitExceeded { limit } => BusinessError::PositionLimitExceeded {
                limit: *limit,
            },
        }
    }
}

impl Clone for FixError {
    fn clone(&self) -> (r: Self)
        ensures
            r == *self,
    {
        match self {
            FixError::Parse(e) => FixError::Parse(e.clone()),
            FixError::Validation(e) => FixError::Validation(e.clone()),
            FixError::Session(e) => FixError::Session(*e),
            FixError::Business(e) => FixError::Business(e.clone()),
        }
    }
}

impl From<ParseError> for FixError {
    fn from(e: ParseError) -> (r: FixError) {
        FixError::Parse(e)
    }
}

impl vstd::std_specs::convert::FromSpecImpl<ParseError> for FixError {
    open spec fn obeys_from_spec() -> bool {
        true
    }

    open spec fn from_spec(e: ParseError) -> FixError {
        FixError::Parse(e)
    }
}

impl From<ValidationError> for FixError {
    fn from(e: ValidationError) -> (r: FixError) {
        FixError::Validation(e)
    }
}

impl vstd::std_specs::convert::FromSpecImpl<ValidationError> for FixError {
    open spec fn obeys_from_spec() -> bool {
        true
    }

    open spec fn from_spec(e: ValidationError) -> FixError {
        FixError::Validation(e)
    }
}

impl From<SessionError> for FixError {
    fn from(e: SessionError) -> (r: FixError) {
        FixError::Session(e)
    }
}

impl vstd::std_specs::convert::FromSpecImpl<SessionError> for FixError {
    open spec fn obeys_from_spec() -> bool {
        true
    }

    open spec fn from_spec(e: SessionError) -> FixError {
        FixError::Session(e)
    }
}

impl From<BusinessError> for FixError {
    fn from(e: BusinessError) -> (r: FixError) {
        FixError::Business(e)
    }
}

impl vstd::std_specs::convert::FromSpecImpl<BusinessError> for FixError {
    open spec fn obeys_from_spec() -> bool {
        true
    }

    open spec fn from_spec(e: BusinessError) -> FixError {
        FixError::Business(e)
    }
}

} // verus!
