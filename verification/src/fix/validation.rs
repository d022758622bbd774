//! Checking FIX messages: the business rules on orders, the values of single
//! fields, and the fields that each message type requires and allows.

pub mod business_validator;
pub mod field_validator;
pub mod message_validator;

pub use business_validator::BusinessValidator;
pub use field_validator::FieldValidator;
pub use message_validator::MessageValidator;
