//! A single-instrument limit order book matching engine.
//!
//! Incoming limit orders are matched against resting liquidity under
//! price-time priority; every state change is appended to an in-memory
//! event log that mirrors the durable audit trail.

pub mod book;
pub mod clock;
pub mod event_log;
pub mod laws;
pub mod level_book;
pub mod order;
pub mod order_id;
