//! The engine: orders, price levels, order books and the exchange.
pub mod account;
pub mod book_proofs;
pub mod book_view;
pub mod engine;
pub mod exchange;
pub mod exchange_view;
pub mod execution;
pub mod iteration;
pub mod keys;
pub mod laws;
pub mod order;
pub mod orderbook;
pub mod price_level;
