//! The standard header that every FIX message begins with.

use crate::fix::error::{FixError, ValidationError};
use crate::fix::messages::{
    bool_field, data_field, fix_error_view, get_bool, get_data, get_int, int_field,
    msg_type_from_text, opt_data, opt_low_u32, required_int, required_string, text_field,
    validation_view, ErrorView, MessageType,
};
use crate::fix::parser::field_parser::FixField;
use std::collections::HashMap;
use vstd::prelude::*;

verus! {

#[derive(Debug)]
pub struct StandardHeader {
    pub begin_string: String,
    pub body_length: u32,
    pub msg_type: MessageType,
    pub sender_comp_id: String,
    pub target_comp_id: String,
    pub msg_seq_num: u32,
    pub sending_time: String,
    pub poss_dup_flag: Option<bool>,
    pub poss_resend: Option<bool>,
    pub secure_data_len: Option<u32>,
    pub secure_data: Option<Vec<u8>>,
}

pub struct Header;

/// Two optional byte strings with the same bytes.
pub open spec fn same_bytes(a: Option<Vec<u8>>, b: Option<Vec<u8>>) -> bool {
    match (a, b) {
        (Some(x), Some(y)) => x@ == y@,
        (None, None) => true,
        _ => false,
    }
}

/// A copy of optional bytes.
pub fn clone_bytes(o: &Option<Vec<u8>>) -> (r: Option<Vec<u8>>)
    ensures
        same_bytes(*o, r),
{
    match o {
        Some(v) => {
            let c = v.clone();
            assert(c@ =~= v@);
            Some(c)
        },
        None => None,
    }
}

/// A copy of an optional text.
pub fn clone_text(o: &Option<String>) -> (r: Option<String>)
    ensures
        r == *o,
{
    match o {
        Some(s) => Some(s.clone()),
        None => None,
    }
}

impl StandardHeader {
    /// The two headers agree field by field, the secure data by its bytes.
    pub open spec fn same_as(self, other: StandardHeader) -> bool {
        &&& self.begin_string == other.begin_string
        &&& self.body_length == other.body_length
        &&& self.msg_type == other.msg_type
        &&& self.sender_comp_id == other.sender_comp_id
        &&& self.target_comp_id == other.target_comp_id
        &&& self.msg_seq_num == other.msg_seq_num
        &&& self.sending_time == other.sending_time
        &&& self.poss_dup_flag == other.poss_dup_flag
        &&& self.poss_resend == other.poss_resend
        &&& self.secure_data_len == other.secure_data_len
        &&& same_bytes(self.secure_data, other.secure_data)
    }
}

impl Clone for StandardHeader {
    fn clone(&self) -> (r: Self)
        ensures
            r.same_as(*self),
    {
        StandardHeader {
            begin_string: self.begin_string.clone(),
            body_length: self.body_length,
            msg_type: self.msg_type,
            sender_comp_id: self.sender_comp_id.clone(),
            target_comp_id: self.target_comp_id.clone(),
            msg_seq_num: self.msg_seq_num,
            sending_time: self.sending_time.clone(),
            poss_dup_flag: self.poss_dup_flag,
            poss_resend: self.poss_resend,
            secure_data_len: self.secure_data_len,
            secure_data: clone_bytes(&self.secure_data),
        }
    }
}

/// The text `FIX.4.4`.
pub open spec fn fix44_text() -> Seq<char> {
    seq!['F', 'I', 'X', '.', '4', '.', '4']
}

/// The first required header field that is absent or unreadable, checked in
/// the order 8, 9, 35 (present, then a known type), 49, 56, 34, 52.
pub open spec fn header_outcome(m: Map<u32, FixField>) -> Result<(), ErrorView> {
    if text_field(m, 8) is None {
        Err(ErrorView::MissingRequiredField(8))
    } else if int_field(m, 9) is None {
        Err(ErrorView::MissingRequiredField(9))
    } else if text_field(m, 35) is None {
        Err(ErrorView::MissingRequiredField(35))
    } else if msg_type_from_text(text_field(m, 35)->0) is None {
        Err(ErrorView::InvalidMessageType(text_field(m, 35)->0))
    } else if text_field(m, 49) is None {
        Err(ErrorView::MissingRequiredField(49))
    } else if text_field(m, 56) is None {
        Err(ErrorView::MissingRequiredField(56))
    } else if int_field(m, 34) is None {
        Err(ErrorView::MissingRequiredField(34))
    } else if text_field(m, 52) is None {
        Err(ErrorView::MissingRequiredField(52))
    } else {
        Ok(())
    }
}

/// `h` holds what the fields of `m` say.
pub open spec fn header_matches(m: Map<u32, FixField>, h: StandardHeader) -> bool {
    &&& Some(h.begin_string@) == text_field(m, 8)
    &&& Some(h.body_length) == opt_low_u32(int_field(m, 9))
    &&& Some(h.msg_type) == msg_type_from_text(text_field(m, 35)->0)
    &&& Some(h.sender_comp_id@) == text_field(m, 49)
    &&& Some(h.target_comp_id@) == text_field(m, 56)
    &&& Some(h.msg_seq_num) == opt_low_u32(int_field(m, 34))
    &&& Some(h.sending_time@) == text_field(m, 52)
    &&& h.poss_dup_flag == bool_field(m, 43)
    &&& h.poss_resend == bool_field(m, 97)
    &&& h.secure_data_len == opt_low_u32(int_field(m, 90))
    &&& opt_data(h.secure_data, data_field(m, 91))
}

/// The first rule of a header that `h` breaks: the version must be FIX 4.4,
/// both parties must be named, and the sequence number must not be zero.
pub open spec fn header_validation(h: StandardHeader) -> Result<(), ErrorView> {
    if h.begin_string@ != fix44_text() {
        Err(ErrorView::InvalidMessageType(h.begin_string@))
    } else if h.sender_comp_id@.len() == 0 {
        Err(ErrorView::MissingRequiredField(49))
    } else if h.target_comp_id@.len() == 0 {
        Err(ErrorView::MissingRequiredField(56))
    } else if h.msg_seq_num == 0 {
        Err(ErrorView::MissingRequiredField(34))
    } else {
        Ok(())
    }
}

/// The outcome of a check, told as an `ErrorView`, is the one that `r`
/// reports.
pub open spec fn reports(r: Result<(), ValidationError>, o: Result<(), ErrorView>) -> bool {
    match o {
        Ok(()) => r is Ok,
        Err(v) => r matches Err(e) && validation_view(e) == v,
    }
}

/// The text `FIX.4.4` as a string.
pub fn fix44_string() -> (r: String)
    ensures
        r@ == fix44_text(),
{
    let s = "FIX.4.4".to_owned();
    proof {
        reveal_strlit("FIX.4.4");
    }
    assert(s@ =~= fix44_text());
    s
}

impl Header {
    /// Reads the standard header from the fields of a message.
    pub fn parse(fields: &HashMap<u32, FixField>) -> (r: Result<StandardHeader, FixError>)
        ensures
            match header_outcome(fields@) {
                Ok(()) => r matches Ok(h) && header_matches(fields@, h),
                Err(v) => r matches Err(e) && fix_error_view(e) == v,
            },
    {
        let begin_string = match required_string(fields, 8) {
            Ok(s) => s,
            Err(e) => {
                return Err(FixError::Validation(e));
            },
        };
        let body_length = match required_int(fields, 9) {
            Ok(i) => i as u32,
            Err(e) => {
                return Err(FixError::Validation(e));
            },
        };
        let msg_type_str = match required_string(fields, 35) {
            Ok(s) => s,
            Err(e) => {
                return Err(FixError::Validation(e));
            },
        };
        let msg_type = match MessageType::from_str(msg_type_str.as_str()) {
            Some(t) => t,
            None => {
                return Err(
                    FixError::Validation(
                        ValidationError::InvalidMessageType { msg_type: msg_type_str.clone() },
                    ),
                );
            },
        };
        let sender_comp_id = match required_string(fields, 49) {
            Ok(s) => s,
            Err(e) => {
                return Err(FixError::Validation(e));
            },
        };
        let target_comp_id = match required_string(fields, 56) {
            Ok(s) => s,
            Err(e) => {
                return Err(FixError::Validation(e));
            },
        };
        let msg_seq_num = match required_int(fields, 34) {
            Ok(i) => i as u32,
            Err(e) => {
                return Err(FixError::Validation(e));
            },
        };
        let sending_time = match required_string(fields, 52) {
            Ok(s) => s,
            Err(e) => {
                return Err(FixError::Validation(e));
            },
        };
        let poss_dup_flag = get_bool(fields, 43);
        let poss_resend = get_bool(fields, 97);
        let secure_data_len = match get_int(fields, 90) {
            Some(i) => Some(i as u32),
            None => None,
        };
        let secure_data = get_data(fields, 91);
        Ok(
            StandardHeader {
                begin_string,
                body_length,
                msg_type,
                sender_comp_id,
                target_comp_id,
                msg_seq_num,
                sending_time,
                poss_dup_flag,
                poss_resend,
                secure_data_len,
                secure_data,
            },
        )
    }
}

impl StandardHeader {
    /// Checks the rules of a header.
    pub fn validate(&self) -> (r: Result<(), ValidationError>)
        ensures
            reports(r, header_validation(*self)),
    {
        if self.begin_string != fix44_string() {
            return Err(ValidationError::InvalidMessageType { msg_type: self.begin_string.clone() });
        }
        if self.sender_comp_id.as_str().is_empty() {
            return Err(ValidationError::MissingRequiredField { tag: 49 });
        }
        if self.target_comp_id.as_str().is_empty() {
            return Err(ValidationError::MissingRequiredField { tag: 56 });
        }
        if self.msg_seq_num == 0 {
            return Err(ValidationError::MissingRequiredField { tag: 34 });
        }
        Ok(())
    }
}

} // verus!
