//! The standard trailer: the checksum field.

use crate::fix::error::{FixError, ValidationError};
use crate::fix::messages::{fix_error_view, int_field, ErrorView, get_int};
use crate::fix::parser::field_parser::FixField;
use std::collections::HashMap;
use vstd::prelude::*;

verus! {

#[derive(Debug, Clone, Copy)]
pub struct Trailer {
    pub checksum: u8,
}

impl Trailer {
    /// Reads the trailer: tag 10, truncated to a byte.
    pub fn parse(fields: &HashMap<u32, FixField>) -> (r: Result<Trailer, FixError>)
        ensures
            match int_field(fields@, 10) {
                Some(i) => r matches Ok(t) && t.checksum == i as u8,
                None => r matches Err(e) && fix_error_view(e) == ErrorView::MissingRequiredField(10),
            },
    {
        match get_int(fields, 10) {
            Some(i) => Ok(Trailer { checksum: i as u8 }),
            None => Err(FixError::Validation(ValidationError::MissingRequiredField { tag: 10 })),
        }
    }

    /// The checksum is checked when the bytes are read, so a trailer is
    /// always valid.
    pub fn validate(&self) -> (r: Result<(), ValidationError>)
        ensures
            r is Ok,
    {
        Ok(())
    }
}

} // verus!
