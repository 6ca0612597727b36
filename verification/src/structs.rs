//! Orders, trades, updates, the book and its manager.

pub mod laws;
pub mod lifecycle;
pub mod matching;
pub mod order;
pub mod orderbook;
pub mod orderbook_sum;
pub mod orderbook_update;
pub mod orderbooks_manager;
pub mod trade;
pub mod traded;
