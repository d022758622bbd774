//! The logon message (type A).

use crate::fix::error::{FixError, ValidationError};
use crate::fix::messages::header::{
    clone_bytes, clone_text, header_matches, header_outcome, header_validation, reports, same_bytes,
};
use crate::fix::messages::{
    bool_field, char_field, char_string, data_field, fix_error_view, get_bool, get_data,
    get_int, get_string, int_field, opt_data, opt_low_u32, opt_text, required_char,
    required_int, text_field, ErrorView, Header, StandardHeader, Trailer,
};
use crate::fix::parser::field_parser::FixField;
use crate::text::{decimal_string, decimal_text};
use std::collections::HashMap;
use vstd::prelude::*;

verus! {

#[derive(Debug)]
pub struct Logon {
    pub header: StandardHeader,
    pub encrypt_method: char,
    pub heart_bt_int: u32,
    pub raw_data_length: Option<u32>,
    pub raw_data: Option<Vec<u8>>,
    pub reset_seq_num_flag: Option<bool>,
    pub next_expected_msg_seq_num: Option<u32>,
    pub username: Option<String>,
    pub password: Option<String>,
    pub trailer: Trailer,
}

impl Logon {
    /// The two messages agree field by field, the header as
    /// [`StandardHeader::same_as`] says, and the raw data by its bytes.
    pub open spec fn same_as(self, other: Logon) -> bool {
        &&& self.header.same_as(other.header)
        &&& same_bytes(self.raw_data, other.raw_data)
        &&& other == (Logon { header: other.header, raw_data: other.raw_data, ..self })
    }
}

impl Clone for Logon {
    fn clone(&self) -> (r: Self)
        ensures
            r.same_as(*self),
    {
        Logon {
            header: self.header.clone(),
            encrypt_method: self.encrypt_method,
            heart_bt_int: self.heart_bt_int,
            raw_data_length: self.raw_data_length,
            raw_data: clone_bytes(&self.raw_data),
            reset_seq_num_flag: self.reset_seq_num_flag,
            next_expected_msg_seq_num: self.next_expected_msg_seq_num,
            username: clone_text(&self.username),
            password: clone_text(&self.password),
            trailer: self.trailer,
        }
    }
}

/// The first field a logon needs that is absent: the header's, the
/// trailer's, then EncryptMethod (98) and HeartBtInt (108).
pub open spec fn logon_fields_outcome(m: Map<u32, FixField>) -> Result<(), ErrorView> {
    match header_outcome(m) {
        Err(v) => Err(v),
        Ok(()) => if int_field(m, 10) is None {
            Err(ErrorView::MissingRequiredField(10))
        } else if char_field(m, 98) is None {
            Err(ErrorView::MissingRequiredField(98))
        } else if int_field(m, 108) is None {
            Err(ErrorView::MissingRequiredField(108))
        } else {
            Ok(())
        },
    }
}

/// `l` holds what the fields of `m` say.
pub open spec fn logon_matches(m: Map<u32, FixField>, l: Logon) -> bool {
    &&& header_matches(m, l.header)
    &&& l.trailer.checksum == int_field(m, 10)->0 as u8
    &&& Some(l.encrypt_method) == char_field(m, 98)
    &&& Some(l.heart_bt_int) == opt_low_u32(int_field(m, 108))
    &&& l.raw_data_length == opt_low_u32(int_field(m, 95))
    &&& opt_data(l.raw_data, data_field(m, 96))
    &&& l.reset_seq_num_flag == bool_field(m, 141)
    &&& l.next_expected_msg_seq_num == opt_low_u32(int_field(m, 789))
    &&& opt_text(l.username, text_field(m, 553))
    &&& opt_text(l.password, text_field(m, 554))
}

/// The first rule of a logon that `l` breaks: a valid header, an encryption
/// method from 0 to 3, and a heartbeat interval that is not zero.
pub open spec fn logon_validation(l: Logon) -> Result<(), ErrorView> {
    match header_validation(l.header) {
        Err(v) => Err(v),
        Ok(()) => if !(l.encrypt_method == '0' || l.encrypt_method == '1' || l.encrypt_method
            == '2' || l.encrypt_method == '3') {
            Err(ErrorView::InvalidFieldValue(98, seq![l.encrypt_method]))
        } else if l.heart_bt_int == 0 {
            Err(ErrorView::InvalidFieldValue(108, decimal_text(0)))
        } else {
            Ok(())
        },
    }
}

/// `r` is what reading a Logon from the fields `m` gives: the first absent
/// field, or else the message those fields hold when it is valid and the
/// first rule it breaks when it is not.
pub open spec fn logon_parsed(m: Map<u32, FixField>, r: Result<Logon, FixError>) -> bool {
    match logon_fields_outcome(m) {
        Err(v) => r matches Err(e) && fix_error_view(e) == v,
        Ok(()) => match r {
            Ok(l) => logon_matches(m, l) && logon_validation(l) is Ok,
            Err(e) => exists|l: Logon|
                logon_matches(m, l) && logon_validation(l) == Err::<(), ErrorView>(
                    fix_error_view(e),
                ),
        },
    }
}

impl Logon {
    /// Reads a logon from the fields of a message and validates it.
    pub fn parse(fields: HashMap<u32, FixField>) -> (r: Result<Logon, FixError>)
        ensures
            logon_parsed(fields@, r),
    {
        let header = match Header::parse(&fields) {
            Ok(h) => h,
            Err(e) => {
                return Err(e);
            },
        };
        let trailer = match Trailer::parse(&fields) {
            Ok(t) => t,
            Err(e) => {
                return Err(e);
            },
        };
        let encrypt_method = match required_char(&fields, 98) {
            Ok(c) => c,
            Err(e) => {
                return Err(FixError::Validation(e));
            },
        };
        let heart_bt_int = match required_int(&fields, 108) {
            Ok(i) => i as u32,
            Err(e) => {
                return Err(FixError::Validation(e));
            },
        };
        let raw_data_length = match get_int(&fields, 95) {
            Some(i) => Some(i as u32),
            None => None,
        };
        let raw_data = get_data(&fields, 96);
        let reset_seq_num_flag = get_bool(&fields, 141);
        let next_expected_msg_seq_num = match get_int(&fields, 789) {
            Some(i) => Some(i as u32),
            None => None,
        };
        let username = get_string(&fields, 553);
        let password = get_string(&fields, 554);
        let logon = Logon {
            header,
            encrypt_method,
            heart_bt_int,
            raw_data_length,
            raw_data,
            reset_seq_num_flag,
            next_expected_msg_seq_num,
            username,
            password,
            trailer,
        };
        match logon.validate() {
            Ok(()) => Ok(logon),
            Err(e) => {
                assert(logon_matches(fields@, logon));
                Err(FixError::Validation(e))
            },
        }
    }

    /// Checks the rules of a logon.
    pub fn validate(&self) -> (r: Result<(), ValidationError>)
        ensures
            reports(r, logon_validation(*self)),
    {
        self.header.validate()?;
        self.trailer.validate()?;
        if !(self.encrypt_method == '0' || self.encrypt_method == '1' || self.encrypt_method == '2'
            || self.encrypt_method == '3') {
            return Err(
                ValidationError::InvalidFieldValue {
                    tag: 98,
                    value: char_string(self.encrypt_method),
                },
            );
        }
        if self.heart_bt_int == 0 {
            return Err(
                ValidationError::InvalidFieldValue {
                    tag: 108,
                    value: decimal_string(self.heart_bt_int as u64),
                },
            );
        }
        Ok(())
    }
}

} // verus!
