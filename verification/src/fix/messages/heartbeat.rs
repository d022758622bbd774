//! The heartbeat message (type 0).

use crate::fix::error::{FixError, ValidationError};
use crate::fix::messages::header::{
    clone_bytes, clone_text, header_matches, header_outcome, header_validation, reports, same_bytes,
};
use crate::fix::messages::{
    fix_error_view, get_string, int_field, opt_text, text_field, ErrorView, Header,
    StandardHeader, Trailer,
};
use crate::fix::parser::field_parser::FixField;
use std::collections::HashMap;
use vstd::prelude::*;

verus! {

#[derive(Debug)]
pub struct Heartbeat {
    pub header: StandardHeader,
    pub test_req_id: Option<String>,
    pub trailer: Trailer,
}

impl Heartbeat {
    /// The two messages agree field by field, the header as
    /// [`StandardHeader::same_as`] says.
    pub open spec fn same_as(self, other: Heartbeat) -> bool {
        &&& self.header.same_as(other.header)
        &&& other == (Heartbeat { header: other.header, ..self })
    }
}

impl Clone for Heartbeat {
    fn clone(&self) -> (r: Self)
        ensures
            r.same_as(*self),
    {
        Heartbeat {
            header: self.header.clone(),
            test_req_id: clone_text(&self.test_req_id),
            trailer: self.trailer,
        }
    }
}

/// The first field a heartbeat needs that is absent: the header's, then the
/// trailer's.
pub open spec fn heartbeat_fields_outcome(m: Map<u32, FixField>) -> Result<(), ErrorView> {
    match header_outcome(m) {
        Err(v) => Err(v),
        Ok(()) => if int_field(m, 10) is None {
            Err(ErrorView::MissingRequiredField(10))
        } else {
            Ok(())
        },
    }
}

/// `h` holds what the fields of `m` say.
pub open spec fn heartbeat_matches(m: Map<u32, FixField>, h: Heartbeat) -> bool {
    &&& header_matches(m, h.header)
    &&& h.trailer.checksum == int_field(m, 10)->0 as u8
    &&& opt_text(h.test_req_id, text_field(m, 112))
}

/// A heartbeat is valid when its header is.
pub open spec fn heartbeat_validation(h: Heartbeat) -> Result<(), ErrorView> {
    header_validation(h.header)
}

/// `r` is what reading a Heartbeat from the fields `m` gives: the first absent
/// field, or else the message those fields hold when it is valid and the
/// first rule it breaks when it is not.
pub open spec fn heartbeat_parsed(m: Map<u32, FixField>, r: Result<Heartbeat, FixError>) -> bool {
    match heartbeat_fields_outcome(m) {
        Err(v) => r matches Err(e) && fix_error_view(e) == v,
        Ok(()) => match r {
            Ok(h) => heartbeat_matches(m, h) && heartbeat_validation(h) is Ok,
            Err(e) => exists|h: Heartbeat|
                heartbeat_matches(m, h) && heartbeat_validation(h) == Err::<
                    (),
                    ErrorView,
                >(fix_error_view(e)),
        },
    }
}

impl Heartbeat {
    /// Reads a heartbeat from the fields of a message and validates it.
    pub fn parse(fields: HashMap<u32, FixField>) -> (r: Result<Heartbeat, FixError>)
        ensures
            heartbeat_parsed(fields@, r),
    {
        let header = match Header::parse(&fields) {
            Ok(h) => h,
            Err(e) => {
                return Err(e);
            },
        };
        let trailer = match Trailer::parse(&fields) {
            Ok(t) => t,
            Err(e) => {
                return Err(e);
            },
        };
        let test_req_id = get_string(&fields, 112);
        let heartbeat = Heartbeat { header, test_req_id, trailer };
        match heartbeat.validate() {
            Ok(()) => Ok(heartbeat),
            Err(e) => {
                assert(heartbeat_matches(fields@, heartbeat));
                Err(FixError::Validation(e))
            },
        }
    }

    /// Checks the rules of a heartbeat.
    pub fn validate(&self) -> (r: Result<(), ValidationError>)
        ensures
            reports(r, heartbeat_validation(*self)),
    {
        self.header.validate()?;
        self.trailer.validate()?;
        Ok(())
    }
}

} // verus!
