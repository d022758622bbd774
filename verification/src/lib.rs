//! A limit order book and matching engine for several symbols, with a FIX
//! 4.4 front end: parsing and validating FIX messages, running sessions,
//! and turning new orders into engine orders and trades into execution
//! reports.

pub mod clock;
pub mod text;
pub mod fix;
pub mod order;
pub mod orderbook;
pub mod matching_engine;
pub mod metrics;
pub mod optimizations;
pub mod fix_gateway;
