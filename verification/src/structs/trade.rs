//! A trade between a buy order and a sell order.

use vstd::prelude::*;
use crate::clock::timestamp;
use crate::enums::trade_status::TradeStatus;
use crate::ident::fresh_id;

verus! {

/// One execution. The matcher leaves `id` and the stamps empty; whoever
/// settles the trade fills them in.
#[derive(Debug, Clone, Copy, PartialEq, Eq)]
pub struct Trade {
    pub id: Option<u128>,
    pub buy_order_id: u128,
    pub sell_order_id: u128,
    pub buy_user_id: u128,
    pub sell_user_id: u128,
    /// The price in ticks.
    pub price: u64,
    /// The quantity in lots.
    pub quantity: u64,
    pub status: TradeStatus,
    pub symbol: u128,
    pub created_at: Option<u64>,
    pub updated_at: Option<u64>,
}

impl Trade {
    /// The parties, price and size of the trade are as given, it is pending,
    /// and it carries an identifier and both stamps.
    pub open spec fn is_sample(
        self,
        symbol: u128,
        buy_order_id: u128,
        sell_order_id: u128,
        buy_user_id: u128,
        sell_user_id: u128,
        price: u64,
        quantity: u64,
    ) -> bool {
        &&& self.id is Some
        &&& self.symbol == symbol
        &&& self.price == price
        &&& self.quantity == quantity
        &&& self.created_at is Some
        &&& self.updated_at is Some
        &&& self.status == TradeStatus::Pending
        &&& self.buy_order_id == buy_order_id
        &&& self.sell_order_id == sell_order_id
        &&& self.buy_user_id == buy_user_id
        &&& self.sell_user_id == sell_user_id
    }

    /// The trade that the matcher reports: no identifier, no stamps, pending.
    pub open spec fn executed(
        symbol: u128,
        buy_order_id: u128,
        sell_order_id: u128,
        buy_user_id: u128,
        sell_user_id: u128,
        price: u64,
        quantity: u64,
    ) -> Trade {
        Trade {
            id: None,
            symbol,
            price,
            quantity,
            buy_order_id,
            sell_order_id,
            buy_user_id,
            sell_user_id,
            status: TradeStatus::Pending,
            created_at: None,
            updated_at: None,
        }
    }

    fn sample(
        symbol: u128,
        buy_order_id: u128,
        sell_order_id: u128,
        buy_user_id: u128,
        sell_user_id: u128,
        price: u64,
        quantity: u64,
    ) -> (trade: Trade)
        ensures
            trade.is_sample(
                symbol,
                buy_order_id,
                sell_order_id,
                buy_user_id,
                sell_user_id,
                price,
                quantity,
            ),
    {
        Trade {
            id: Some(fresh_id()),
            symbol,
            price,
            quantity,
            created_at: Some(timestamp()),
            updated_at: Some(timestamp()),
            status: TradeStatus::Pending,
            buy_order_id,
            sell_order_id,
            buy_user_id,
            sell_user_id,
        }
    }

    /// A sample trade of 2 lots at 10 ticks between the given parties.
    pub fn get_trade_10_2(
        symbol: u128,
        buy_order_id: u128,
        sell_order_id: u128,
        buy_user_id: u128,
        sell_user_id: u128,
    ) -> (trade: Trade)
        ensures
            trade.is_sample(symbol, buy_order_id, sell_order_id, buy_user_id, sell_user_id, 10, 2),
    {
        Trade::sample(symbol, buy_order_id, sell_order_id, buy_user_id, sell_user_id, 10, 2)
    }

    /// A sample trade of 5 lots at 10 ticks between the given parties.
    pub fn get_trade_10_5(
        symbol: u128,
        buy_order_id: u128,
        sell_order_id: u128,
        buy_user_id: u128,
        sell_user_id: u128,
    ) -> (trade: Trade)
        ensures
            trade.is_sample(symbol, buy_order_id, sell_order_id, buy_user_id, sell_user_id, 10, 5),
    {
        Trade::sample(symbol, buy_order_id, sell_order_id, buy_user_id, sell_user_id, 10, 5)
    }

    /// A sample trade of 2 lots at 15 ticks between the given parties.
    pub fn get_trade_15_2(
        symbol: u128,
        buy_order_id: u128,
        sell_order_id: u128,
        buy_user_id: u128,
        sell_user_id: u128,
    ) -> (trade: Trade)
        ensures
            trade.is_sample(symbol, buy_order_id, sell_order_id, buy_user_id, sell_user_id, 15, 2),
    {
        Trade::sample(symbol, buy_order_id, sell_order_id, buy_user_id, sell_user_id, 15, 2)
    }

    /// The trade that the matcher reports for an execution.
    pub fn new_executed(
        symbol: u128,
        buy_order_id: u128,
        sell_order_id: u128,
        buy_user_id: u128,
        sell_user_id: u128,
        price: u64,
        quantity: u64,
    ) -> (trade: Trade)
        ensures
            trade == Trade::executed(
                symbol,
                buy_order_id,
                sell_order_id,
                buy_user_id,
                sell_user_id,
                price,
                quantity,
            ),
    {
        Trade {
            id: None,
            symbol,
            price,
            quantity,
            buy_order_id,
            sell_order_id,
            buy_user_id,
            sell_user_id,
            status: TradeStatus::Pending,
            created_at: None,
            updated_at: None,
        }
    }
}

impl Default for Trade {
    /// An empty pending trade between fresh identifiers, stamped but without
    /// an identifier of its own.
    fn default() -> (trade: Trade)
        ensures
            trade.id.is_none(),
            trade.price == 0,
            trade.quantity == 0,
            trade.status == TradeStatus::Pending,
            trade.created_at is Some,
            trade.updated_at is Some,
    {
        Trade {
            id: None,
            buy_order_id: fresh_id(),
            sell_order_id: fresh_id(),
            buy_user_id: fresh_id(),
            sell_user_id: fresh_id(),
            price: 0,
            quantity: 0,
            status: TradeStatus::Pending,
            symbol: fresh_id(),
            created_at: Some(timestamp()),
            updated_at: Some(timestamp()),
        }
    }
}

} // verus!
