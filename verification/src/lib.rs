//! A price-time-priority limit-order matching engine for a multi-instrument
//! exchange.
//!
//! Every instrument has an order book made of two price ladders, an index of
//! the resting orders by id and a queue of orders that wait to be matched.
//! Prices are integer hundredths, identifiers are 128-bit integers.
pub mod config;
pub mod engine;
pub mod errors;
pub mod helpers;
pub mod orderbook;
