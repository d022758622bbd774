//! The fields that each message type requires and allows.

use crate::fix::error::ValidationError;
use crate::fix::messages::header::{reports, StandardHeader};
use crate::fix::messages::new_order_single::{needs_price, needs_stop_price};
use crate::fix::messages::{
    msg_type_code, validation_view, ErrorView, FixMessage, Logon, MessageType, NewOrderSingle,
};
use crate::fix::parser::field_parser::FixField;
use crate::text::{decimal_string, decimal_text};
use std::collections::HashMap;
use vstd::prelude::*;

verus! {

broadcast use vstd::std_specs::hash::group_hash_axioms;

pub struct MessageValidator;

/// The tags of the standard header and trailer that every message requires.
pub open spec fn common_required() -> Seq<u32> {
    seq![8u32, 9, 35, 49, 56, 34, 52, 10]
}

/// The tags that a message of type `t` requires, in the order they are
/// checked.
pub open spec fn required_fields_of(t: MessageType) -> Seq<u32> {
    common_required() + match t {
        MessageType::NewOrderSingle => seq![11u32, 21, 55, 54, 60, 38, 40],
        MessageType::ExecutionReport => seq![37u32, 11, 17, 150, 39, 55, 54, 38, 40, 151, 14, 60],
        MessageType::OrderCancelRequest => seq![41u32, 11, 55, 54, 60],
        MessageType::Logon => seq![98u32, 108],
        _ => Seq::empty(),
    }
}

/// The tags of the standard header and trailer that every message allows.
pub open spec fn common_allowed() -> Seq<u32> {
    seq![8u32, 9, 35, 49, 56, 34, 52, 43, 97, 90, 91, 10]
}

/// The tags that a message of type `t` may carry.
pub open spec fn allowed_fields_of(t: MessageType) -> Seq<u32> {
    common_allowed() + match t {
        MessageType::NewOrderSingle => seq![11u32, 1, 21, 55, 54, 60, 38, 40, 44, 99, 59, 18],
        MessageType::ExecutionReport => seq![
            37u32,
            11,
            41,
            17,
            150,
            39,
            1,
            55,
            54,
            38,
            40,
            44,
            99,
            59,
            32,
            31,
            151,
            14,
            6,
            60,
            58,
        ],
        MessageType::OrderCancelRequest => seq![41u32, 11, 55, 54, 60, 38, 1, 58],
        MessageType::Heartbeat => seq![112u32],
        MessageType::Logon => seq![98u32, 108, 95, 96, 141, 789, 553, 554],
        _ => Seq::empty(),
    }
}

/// Every tag that a message type requires it also allows: a message with
/// its required fields passes the presence check for each of them.
pub proof fn lemma_required_fields_allowed(t: MessageType, tag: u32)
    requires
        required_fields_of(t).contains(tag),
    ensures
        allowed_fields_of(t).contains(tag),
{
    let r = required_fields_of(t);
    let a = allowed_fields_of(t);
    let k = choose|k: int| 0 <= k < r.len() && r[k] == tag;
    match t {
        MessageType::NewOrderSingle => {
            if k == 0 {
                assert(a[0] == r[0]);
            } else if k == 1 {
                assert(a[1] == r[1]);
            } else if k == 2 {
                assert(a[2] == r[2]);
            } else if k == 3 {
                assert(a[3] == r[3]);
            } else if k == 4 {
                assert(a[4] == r[4]);
            } else if k == 5 {
                assert(a[5] == r[5]);
            } else if k == 6 {
                assert(a[6] == r[6]);
            } else if k == 7 {
                assert(a[11] == r[7]);
            } else if k == 8 {
                assert(a[12] == r[8]);
            } else if k == 9 {
                assert(a[14] == r[9]);
            } else if k == 10 {
                assert(a[15] == r[10]);
            } else if k == 11 {
                assert(a[16] == r[11]);
            } else if k == 12 {
                assert(a[17] == r[12]);
            } else if k == 13 {
                assert(a[18] == r[13]);
            } else if k == 14 {
                assert(a[19] == r[14]);
            }
        },
        MessageType::ExecutionReport => {
            if k == 0 {
                assert(a[0] == r[0]);
            } else if k == 1 {
                assert(a[1] == r[1]);
            } else if k == 2 {
                assert(a[2] == r[2]);
            } else if k == 3 {
                assert(a[3] == r[3]);
            } else if k == 4 {
                assert(a[4] == r[4]);
            } else if k == 5 {
                assert(a[5] == r[5]);
            } else if k == 6 {
                assert(a[6] == r[6]);
            } else if k == 7 {
                assert(a[11] == r[7]);
            } else if k == 8 {
                assert(a[12] == r[8]);
            } else if k == 9 {
                assert(a[13] == r[9]);
            } else if k == 10 {
                assert(a[15] == r[10]);
            } else if k == 11 {
                assert(a[16] == r[11]);
            } else if k == 12 {
                assert(a[17] == r[12]);
            } else if k == 13 {
                assert(a[19] == r[13]);
            } else if k == 14 {
                assert(a[20] == r[14]);
            } else if k == 15 {
                assert(a[21] == r[15]);
            } else if k == 16 {
                assert(a[22] == r[16]);
            } else if k == 17 {
                assert(a[28] == r[17]);
            } else if k == 18 {
                assert(a[29] == r[18]);
            } else if k == 19 {
                assert(a[31] == r[19]);
            }
        },
        MessageType::OrderCancelRequest => {
            if k == 0 {
                assert(a[0] == r[0]);
            } else if k == 1 {
                assert(a[1] == r[1]);
            } else if k == 2 {
                assert(a[2] == r[2]);
            } else if k == 3 {
                assert(a[3] == r[3]);
            } else if k == 4 {
                assert(a[4] == r[4]);
            } else if k == 5 {
                assert(a[5] == r[5]);
            } else if k == 6 {
                assert(a[6] == r[6]);
            } else if k == 7 {
                assert(a[11] == r[7]);
            } else if k == 8 {
                assert(a[12] == r[8]);
            } else if k == 9 {
                assert(a[13] == r[9]);
            } else if k == 10 {
                assert(a[14] == r[10]);
            } else if k == 11 {
                assert(a[15] == r[11]);
            } else if k == 12 {
                assert(a[16] == r[12]);
            }
        },
        MessageType::Logon => {
            if k == 0 {
                assert(a[0] == r[0]);
            } else if k == 1 {
                assert(a[1] == r[1]);
            } else if k == 2 {
                assert(a[2] == r[2]);
            } else if k == 3 {
                assert(a[3] == r[3]);
            } else if k == 4 {
                assert(a[4] == r[4]);
            } else if k == 5 {
                assert(a[5] == r[5]);
            } else if k == 6 {
                assert(a[6] == r[6]);
            } else if k == 7 {
                assert(a[11] == r[7]);
            } else if k == 8 {
                assert(a[12] == r[8]);
            } else if k == 9 {
                assert(a[13] == r[9]);
            }
        },
        _ => {
            if k == 0 {
                assert(a[0] == r[0]);
            } else if k == 1 {
                assert(a[1] == r[1]);
            } else if k == 2 {
                assert(a[2] == r[2]);
            } else if k == 3 {
                assert(a[3] == r[3]);
            } else if k == 4 {
                assert(a[4] == r[4]);
            } else if k == 5 {
                assert(a[5] == r[5]);
            } else if k == 6 {
                assert(a[6] == r[6]);
            } else if k == 7 {
                assert(a[11] == r[7]);
            }
        },
    }
}

/// The rules a whole message is checked against: a limit order needs a
/// price, a stop order a stop price, and a logon a heartbeat interval.
pub open spec fn message_check(m: FixMessage) -> Result<(), ErrorView> {
    match m {
        FixMessage::NewOrderSingle(o) => if needs_price(o.ord_type) && o.price is None {
            Err(ErrorView::MissingRequiredField(44))
        } else if needs_stop_price(o.ord_type) && o.stop_px is None {
            Err(ErrorView::MissingRequiredField(99))
        } else {
            Ok(())
        },
        FixMessage::Logon(l) => if l.heart_bt_int == 0 {
            Err(ErrorView::InvalidFieldValue(108, decimal_text(0)))
        } else {
            Ok(())
        },
        _ => Ok(()),
    }
}

/// `i` is the first required tag that `m` lacks.
pub open spec fn first_missing(req: Seq<u32>, m: Map<u32, FixField>, i: int) -> bool {
    &&& 0 <= i < req.len()
    &&& !m.contains_key(req[i])
    &&& forall|j: int| 0 <= j < i ==> m.contains_key(#[trigger] req[j])
}

/// A vector holding the given tags.
fn tags_vec(tags: &[u32]) -> (r: Vec<u32>)
    ensures
        r@ == tags@,
{
    vstd::slice::slice_to_vec(tags)
}

impl MessageValidator {
    pub fn new() -> (r: Self) {
        MessageValidator
    }

    /// Checks the rules of a whole message.
    pub fn validate_message(&self, message: &FixMessage) -> (r: Result<(), ValidationError>)
        ensures
            reports(r, message_check(*message)),
    {
        match message {
            FixMessage::NewOrderSingle(order) => self.validate_new_order_single_fields(order),
            FixMessage::Logon(logon) => self.validate_logon_fields(logon),
            _ => Ok(()),
        }
    }

    /// Checks that every tag that the message type requires is present.
    pub fn validate_required_fields(
        &self,
        msg_type: &MessageType,
        fields: &HashMap<u32, FixField>,
    ) -> (r: Result<(), ValidationError>)
        ensures
            r is Ok <==> forall|i: int|
                0 <= i < required_fields_of(*msg_type).len() ==> fields@.contains_key(
                    #[trigger] required_fields_of(*msg_type)[i],
                ),
            r matches Err(e) ==> exists|i: int|
                first_missing(required_fields_of(*msg_type), fields@, i) && validation_view(e)
                    == ErrorView::MissingRequiredField(required_fields_of(*msg_type)[i]),
    {
        let required = self.get_required_fields(msg_type);
        let mut i: usize = 0;
        while i < required.len()
            invariant
                i <= required@.len(),
                required@ == required_fields_of(*msg_type),
                forall|j: int| 0 <= j < i ==> fields@.contains_key(#[trigger] required@[j]),
            decreases required.len() - i,
        {
            let tag = required[i];
            if !fields.contains_key(&tag) {
                assert(first_missing(required@, fields@, i as int));
                return Err(ValidationError::MissingRequiredField { tag });
            }
            i = i + 1;
        }
        Ok(())
    }

    /// Checks that the message type allows the tag.
    pub fn validate_field_presence(&self, msg_type: &MessageType, tag: u32) -> (r: Result<
        (),
        ValidationError,
    >)
        ensures
            r is Ok <==> allowed_fields_of(*msg_type).contains(tag),
            r matches Err(e) ==> e matches ValidationError::FieldNotAllowed { tag: t, msg_type: m }
                && t == tag && m@ == seq![msg_type_code(*msg_type)],
    {
        let allowed = self.get_allowed_fields(msg_type);
        let mut i: usize = 0;
        while i < allowed.len()
            invariant
                i <= allowed@.len(),
                allowed@ == allowed_fields_of(*msg_type),
                forall|j: int| 0 <= j < i ==> allowed@[j] != tag,
            decreases allowed.len() - i,
        {
            if allowed[i] == tag {
                assert(allowed@[i as int] == tag);
                return Ok(());
            }
            i = i + 1;
        }
        Err(ValidationError::FieldNotAllowed { tag, msg_type: msg_type.as_str().to_owned() })
    }

    /// The tags that a message type requires.
    pub fn get_required_fields(&self, msg_type: &MessageType) -> (r: Vec<u32>)
        ensures
            r@ == required_fields_of(*msg_type),
    {
        let mut required = tags_vec(&[8, 9, 35, 49, 56, 34, 52, 10]);
        let extra = match msg_type {
            MessageType::NewOrderSingle => tags_vec(&[11, 21, 55, 54, 60, 38, 40]),
            MessageType::ExecutionReport => tags_vec(
                &[37, 11, 17, 150, 39, 55, 54, 38, 40, 151, 14, 60],
            ),
            MessageType::OrderCancelRequest => tags_vec(&[41, 11, 55, 54, 60]),
            MessageType::Logon => tags_vec(&[98, 108]),
            _ => Vec::new(),
        };
        let mut extra = extra;
        required.append(&mut extra);
        assert(required@ =~= required_fields_of(*msg_type));
        required
    }

    /// The tags that a message type allows.
    pub fn get_allowed_fields(&self, msg_type: &MessageType) -> (r: Vec<u32>)
        ensures
            r@ == allowed_fields_of(*msg_type),
    {
        let mut allowed = tags_vec(&[8, 9, 35, 49, 56, 34, 52, 43, 97, 90, 91, 10]);
        let extra = match msg_type {
            MessageType::NewOrderSingle => tags_vec(&[11, 1, 21, 55, 54, 60, 38, 40, 44, 99, 59, 18]),
            MessageType::ExecutionReport => tags_vec(
                &[37, 11, 41, 17, 150, 39, 1, 55, 54, 38, 40, 44, 99, 59, 32, 31, 151, 14, 6, 60, 58],
            ),
            MessageType::OrderCancelRequest => tags_vec(&[41, 11, 55, 54, 60, 38, 1, 58]),
            MessageType::Heartbeat => tags_vec(&[112]),
            MessageType::Logon => tags_vec(&[98, 108, 95, 96, 141, 789, 553, 554]),
            _ => Vec::new(),
        };
        let mut extra = extra;
        allowed.append(&mut extra);
        assert(allowed@ =~= allowed_fields_of(*msg_type));
        allowed
    }

    /// A limit order needs a price and a stop order a stop price.
    fn validate_new_order_single_fields(&self, order: &NewOrderSingle) -> (r: Result<
        (),
        ValidationError,
    >)
        ensures
            reports(r, message_check(FixMessage::NewOrderSingle(*order))),
    {
        if (order.ord_type == '2' || order.ord_type == '4') && order.price.is_none() {
            return Err(ValidationError::MissingRequiredField { tag: 44 });
        }
        if (order.ord_type == '3' || order.ord_type == '4') && order.stop_px.is_none() {
            return Err(ValidationError::MissingRequiredField { tag: 99 });
        }
        Ok(())
    }

    /// A logon needs a heartbeat interval that is not zero.
    fn validate_logon_fields(&self, logon: &Logon) -> (r: Result<(), ValidationError>)
        ensures
            reports(r, message_check(FixMessage::Logon(*logon))),
    {
        if logon.heart_bt_int == 0 {
            return Err(
                ValidationError::InvalidFieldValue {
                    tag: 108,
                    value: decimal_string(logon.heart_bt_int as u64),
                },
            );
        }
        Ok(())
    }
}

} // verus!
