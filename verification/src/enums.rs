//! The closed vocabularies carried by orders, trades and updates.

pub mod order_status;
pub mod order_type;
pub mod orderbook_update_type;
pub mod payment_status;
pub mod side;
pub mod trade_status;
