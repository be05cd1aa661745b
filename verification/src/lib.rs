//! A verified limit order book exchange: orders, price-time matching, an
//! order book per symbol, message routing and a scalable exchange clock.
//!
//! `book` says what an order book is and what each operation makes of it;
//! `order_book` does it. `invariants` says what holds of every book. `matching_laws`,
//! `execution_laws`, `upkeep_laws` and `clock_laws` say what can be relied on of each
//! operation, in terms of what goes in and what comes out, and `laws` what can be
//! relied on over several operations.

pub mod book;
pub mod calendar;
pub mod clock_laws;
pub mod depth;
pub mod directory;
pub mod error;
pub mod exchange;
pub mod execution_laws;
pub mod identity;
pub mod invariants;
pub mod laws;
pub mod matching_engine;
pub mod matching_laws;
pub mod model;
pub mod order_book;
pub mod queue;
pub mod router;
pub mod sums;
pub mod text;
pub mod time;
pub mod trading;
pub mod upkeep_laws;
