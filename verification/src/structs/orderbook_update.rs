//! The update that a book emits for each thing that happens to it.

use vstd::prelude::*;
use crate::enums::orderbook_update_type::OrderbookUpdateType;
use crate::structs::order::Order;
use crate::structs::trade::Trade;

verus! {

/// One event on one symbol. Which of the optional fields is filled depends on
/// the kind.
#[derive(Debug, Clone, Copy, PartialEq, Eq)]
pub struct OrderbookUpdate {
    pub symbol: u128,
    pub update_type: OrderbookUpdateType,
    pub order: Option<Order>,
    pub trade: Option<Trade>,
    pub cancel_id: Option<u128>,
    pub filled_id: Option<u128>,
}

impl OrderbookUpdate {
    /// An order was submitted.
    pub open spec fn submitted(symbol: u128, order: Order) -> OrderbookUpdate {
        OrderbookUpdate {
            symbol,
            update_type: OrderbookUpdateType::New,
            order: Some(order),
            trade: None,
            cancel_id: None,
            filled_id: None,
        }
    }

    /// A limit order was put on the book.
    pub open spec fn placed(symbol: u128, order: Order) -> OrderbookUpdate {
        OrderbookUpdate {
            symbol,
            update_type: OrderbookUpdateType::Place,
            order: Some(order),
            trade: None,
            cancel_id: None,
            filled_id: None,
        }
    }

    /// The order `id` was cancelled.
    pub open spec fn cancelled(symbol: u128, id: u128) -> OrderbookUpdate {
        OrderbookUpdate {
            symbol,
            update_type: OrderbookUpdateType::Cancel,
            order: None,
            trade: None,
            cancel_id: Some(id),
            filled_id: None,
        }
    }

    /// A resting order changed into `order`, or none was found to change.
    pub open spec fn changed(symbol: u128, order: Option<Order>) -> OrderbookUpdate {
        OrderbookUpdate {
            symbol,
            update_type: OrderbookUpdateType::Update,
            order,
            trade: None,
            cancel_id: None,
            filled_id: None,
        }
    }

    /// Two orders traded.
    pub open spec fn traded(symbol: u128, trade: Trade) -> OrderbookUpdate {
        OrderbookUpdate {
            symbol,
            update_type: OrderbookUpdateType::NewTrades,
            order: None,
            trade: Some(trade),
            cancel_id: None,
            filled_id: None,
        }
    }

    /// The resting order `id` was consumed entirely.
    pub open spec fn filled(symbol: u128, id: u128) -> OrderbookUpdate {
        OrderbookUpdate {
            symbol,
            update_type: OrderbookUpdateType::Filled,
            order: None,
            trade: None,
            cancel_id: None,
            filled_id: Some(id),
        }
    }

    /// The update is one that ends the life of an order with this `id`.
    pub open spec fn ends(self, id: u128) -> bool {
        ||| self.update_type == OrderbookUpdateType::Cancel && self.cancel_id == Some(id)
        ||| self.update_type == OrderbookUpdateType::Filled && self.filled_id == Some(id)
    }

    pub fn new_submitted(symbol: u128, order: Order) -> (u: OrderbookUpdate)
        ensures
            u == OrderbookUpdate::submitted(symbol, order),
    {
        OrderbookUpdate {
            symbol,
            update_type: OrderbookUpdateType::New,
            order: Some(order),
            trade: None,
            cancel_id: None,
            filled_id: None,
        }
    }

    pub fn new_placed(symbol: u128, order: Order) -> (u: OrderbookUpdate)
        ensures
            u == OrderbookUpdate::placed(symbol, order),
    {
        OrderbookUpdate {
            symbol,
            update_type: OrderbookUpdateType::Place,
            order: Some(order),
            trade: None,
            cancel_id: None,
            filled_id: None,
        }
    }

    pub fn new_cancelled(symbol: u128, id: u128) -> (u: OrderbookUpdate)
        ensures
            u == OrderbookUpdate::cancelled(symbol, id),
    {
        OrderbookUpdate {
            symbol,
            update_type: OrderbookUpdateType::Cancel,
            order: None,
            trade: None,
            cancel_id: Some(id),
            filled_id: None,
        }
    }

    pub fn new_changed(symbol: u128, order: Option<Order>) -> (u: OrderbookUpdate)
        ensures
            u == OrderbookUpdate::changed(symbol, order),
    {
        OrderbookUpdate {
            symbol,
            update_type: OrderbookUpdateType::Update,
            order,
            trade: None,
            cancel_id: None,
            filled_id: None,
        }
    }

    pub fn new_traded(symbol: u128, trade: Trade) -> (u: OrderbookUpdate)
        ensures
            u == OrderbookUpdate::traded(symbol, trade),
    {
        OrderbookUpdate {
            symbol,
            update_type: OrderbookUpdateType::NewTrades,
            order: None,
            trade: Some(trade),
            cancel_id: None,
            filled_id: None,
        }
    }

    pub fn new_filled(symbol: u128, id: u128) -> (u: OrderbookUpdate)
        ensures
            u == OrderbookUpdate::filled(symbol, id),
    {
        OrderbookUpdate {
            symbol,
            update_type: OrderbookUpdateType::Filled,
            order: None,
            trade: None,
            cancel_id: None,
            filled_id: Some(id),
        }
    }
}

} // verus!
