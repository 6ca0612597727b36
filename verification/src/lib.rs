//! A limit-order-book matching engine for a multi-symbol venue.
//!
//! Each symbol has a book with two sides of resting orders. New orders are
//! matched against the resting ones, and every change is emitted as an update
//! on one shared channel, from which typed subscriptions are filtered.
//!
//! Prices and quantities are unsigned integers (ticks and lots); the caller
//! chooses the scale. What a command does is defined over a mathematical
//! model of the book in `structs::matching`; the laws that hold of every
//! book are in `structs::laws`, `structs::lifecycle` and `structs::traded`.
//! The calls into other crates are kept in `channel`, `clock` and `ident`.

pub mod channel;
pub mod clock;
pub mod enums;
pub mod error;
pub mod heap;
pub mod ident;
pub mod structs;
pub mod text;

pub use enums::order_status::OrderStatus;
pub use enums::order_type::OrderType;
pub use enums::orderbook_update_type::OrderbookUpdateType;
pub use enums::payment_status::PaymentStatus;
pub use enums::side::OrderSide;
pub use enums::trade_status::TradeStatus;
pub use error::OrderbookError;
pub use heap::{ModifiableBinaryHeap, Prioritized, Reverse};
pub use structs::order::Order;
pub use structs::orderbook::Orderbook as OrderBook;
pub use structs::orderbook_sum::{BidAskSummarize, OrderBookSummarized};
pub use structs::orderbook_update::OrderbookUpdate;
pub use structs::orderbooks_manager::OrderbooksManager as OrderbookManager;
pub use structs::trade::Trade;
