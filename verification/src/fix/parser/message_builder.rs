//! Building a typed message from the fields of a parsed message.

use crate::fix::error::{FixError, ValidationError};
use crate::fix::messages::execution_report::report_parsed;
use crate::fix::messages::heartbeat::heartbeat_parsed;
use crate::fix::messages::logon::logon_parsed;
use crate::fix::messages::new_order_single::new_order_parsed;
use crate::fix::messages::order_cancel_request::cancel_parsed;
use crate::fix::messages::{
    fix_error_view, msg_type_from_text, text_field, ErrorView, ExecutionReport, FixMessage,
    Heartbeat, Logon, MessageType, NewOrderSingle, OrderCancelRequest,
};
use crate::fix::parser::field_parser::{debug_text, value_debug_text, FieldValue, FixField};
use std::collections::HashMap;
use vstd::prelude::*;

verus! {

broadcast use vstd::std_specs::hash::group_hash_axioms;

pub struct MessageBuilder;


/// `r` is what building a message from the fields `m` gives: the message
/// type (35) must be present as text and be one of the five types that have
/// a message struct, and the rest is read as that type reads it.
pub open spec fn message_built(m: Map<u32, FixField>, r: Result<FixMessage, FixError>) -> bool {
    if !m.contains_key(35) {
        r matches Err(e) && fix_error_view(e) == ErrorView::MissingRequiredField(35)
    } else if text_field(m, 35) is None {
        r matches Err(e) && fix_error_view(e) == ErrorView::InvalidFieldValue(
            35,
            value_debug_text(m[35].value),
        )
    } else {
        let text = text_field(m, 35)->0;
        match msg_type_from_text(text) {
            Some(MessageType::NewOrderSingle) => match r {
                Ok(FixMessage::NewOrderSingle(o)) => new_order_parsed(m, Ok(o)),
                Err(e) => new_order_parsed(m, Err(e)),
                _ => false,
            },
            Some(MessageType::ExecutionReport) => match r {
                Ok(FixMessage::ExecutionReport(x)) => report_parsed(m, Ok(x)),
                Err(e) => report_parsed(m, Err(e)),
                _ => false,
            },
            Some(MessageType::OrderCancelRequest) => match r {
                Ok(FixMessage::OrderCancelRequest(c)) => cancel_parsed(m, Ok(c)),
                Err(e) => cancel_parsed(m, Err(e)),
                _ => false,
            },
            Some(MessageType::Heartbeat) => match r {
                Ok(FixMessage::Heartbeat(h)) => heartbeat_parsed(m, Ok(h)),
                Err(e) => heartbeat_parsed(m, Err(e)),
                _ => false,
            },
            Some(MessageType::Logon) => match r {
                Ok(FixMessage::Logon(l)) => logon_parsed(m, Ok(l)),
                Err(e) => logon_parsed(m, Err(e)),
                _ => false,
            },
            _ => r matches Err(e) && fix_error_view(e) == ErrorView::InvalidMessageType(text),
        }
    }
}

impl MessageBuilder {
    pub fn new() -> (r: Self) {
        MessageBuilder
    }

    /// Builds the typed message that the fields hold.
    pub fn build_message(&self, fields: HashMap<u32, FixField>) -> (r: Result<FixMessage, FixError>)
        ensures
            message_built(fields@, r),
    {
        let msg_type_field = match fields.get(&35) {
            Some(f) => f,
            None => {
                return Err(FixError::Validation(ValidationError::MissingRequiredField { tag: 35 }));
            },
        };
        let msg_type_str = match msg_type_field.as_string() {
            Some(s) => s.to_owned(),
            None => {
                return Err(
                    FixError::Validation(
                        ValidationError::InvalidFieldValue {
                            tag: 35,
                            value: debug_text(&msg_type_field.value),
                        },
                    ),
                );
            },
        };
        let msg_type = match MessageType::from_str(msg_type_str.as_str()) {
            Some(t) => t,
            None => {
                return Err(
                    FixError::Validation(ValidationError::InvalidMessageType { msg_type: msg_type_str }),
                );
            },
        };
        match msg_type {
            MessageType::NewOrderSingle => match NewOrderSingle::parse(fields) {
                Ok(o) => Ok(FixMessage::NewOrderSingle(o)),
                Err(e) => Err(e),
            },
            MessageType::ExecutionReport => match ExecutionReport::parse(fields) {
                Ok(x) => Ok(FixMessage::ExecutionReport(x)),
                Err(e) => Err(e),
            },
            MessageType::OrderCancelRequest => match OrderCancelRequest::parse(fields) {
                Ok(c) => Ok(FixMessage::OrderCancelRequest(c)),
                Err(e) => Err(e),
            },
            MessageType::Heartbeat => match Heartbeat::parse(fields) {
                Ok(h) => Ok(FixMessage::Heartbeat(h)),
                Err(e) => Err(e),
            },
            MessageType::Logon => match Logon::parse(fields) {
                Ok(l) => Ok(FixMessage::Logon(l)),
                Err(e) => Err(e),
            },
            _ => Err(
                FixError::Validation(ValidationError::InvalidMessageType { msg_type: msg_type_str }),
            ),
        }
    }
}

} // verus!
