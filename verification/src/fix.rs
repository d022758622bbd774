//! The FIX protocol layer: parsing and validating FIX messages, the session
//! bookkeeping, and the bridge between FIX orders and the matching engine.

pub mod decimal;
pub mod error;
pub mod parser;
pub mod messages;
pub mod validation;
pub mod session;
pub mod bridge;
