//! An order and its rank on its side of the book.

use vstd::prelude::*;
use std::cmp::Ordering;
use crate::clock::timestamp;
use crate::enums::order_status::OrderStatus;
use crate::enums::order_type::OrderType;
use crate::enums::payment_status::PaymentStatus;
use crate::enums::side::OrderSide;
use crate::heap::Prioritized;
use crate::ident::fresh_id;

verus! {

/// An order as the engine holds it. Prices are in ticks, quantities in lots.
#[derive(Debug, Clone, Copy, PartialEq, Eq)]
pub struct Order {
    pub id: u128,
    pub user_id: u128,
    pub symbol: u128,
    pub side: OrderSide,
    /// What is left to trade.
    pub quantity: u64,
    /// The quantity at submission; the engine never changes it.
    pub non_mut_quantity: u64,
    /// The limit price; a market order needs none.
    pub price: Option<u64>,
    pub order_type: OrderType,
    pub status: OrderStatus,
    pub payment_status: PaymentStatus,
    pub created_at: u64,
    pub updated_at: u64,
}

/// A price as a rank: an absent price ranks below every price.
pub open spec fn price_rank(price: Option<u64>) -> int {
    match price {
        None => -1,
        Some(p) => p as int,
    }
}

impl Order {
    /// The order may rest on a book: it has quantity left and a price.
    pub open spec fn restable(self) -> bool {
        self.quantity > 0 && self.price is Some
    }

    /// The order may be submitted: it has quantity, and a price if it is a
    /// limit order.
    pub open spec fn acceptable(self) -> bool {
        self.quantity > 0 && (self.order_type == OrderType::Limit ==> self.price is Some)
    }

    /// The order with another quantity left.
    pub open spec fn with_quantity(self, quantity: u64) -> Order {
        Order { quantity, ..self }
    }

    /// The order with another limit price.
    pub open spec fn with_price(self, price: u64) -> Order {
        Order { price: Some(price), ..self }
    }

    /// A new order with a fresh identifier, open and awaiting payment.
    pub fn new(
        user_id: u128,
        symbol: u128,
        side: OrderSide,
        quantity: u64,
        price: Option<u64>,
        order_type: OrderType,
    ) -> (order: Order)
        ensures
            order.user_id == user_id,
            order.symbol == symbol,
            order.side == side,
            order.quantity == quantity,
            order.non_mut_quantity == quantity,
            order.price == price,
            order.order_type == order_type,
            order.status == OrderStatus::Open,
            order.payment_status == PaymentStatus::Pending,
    {
        Order {
            id: fresh_id(),
            user_id,
            symbol,
            side,
            quantity,
            price,
            order_type,
            non_mut_quantity: quantity,
            created_at: timestamp(),
            updated_at: timestamp(),
            status: OrderStatus::Open,
            payment_status: PaymentStatus::Pending,
        }
    }

    /// A limit buy of 100 lots at 100 ticks with a fresh identifier.
    pub fn get_test_order(symbol: u128, user_id: u128) -> (order: Order)
        ensures
            order.user_id == user_id,
            order.symbol == symbol,
            order.side == OrderSide::Buy,
            order.quantity == 100,
            order.non_mut_quantity == 100,
            order.price == Some(100u64),
            order.order_type == OrderType::Limit,
            order.status == OrderStatus::Open,
            order.payment_status == PaymentStatus::Pending,
    {
        Order {
            id: fresh_id(),
            symbol,
            user_id,
            side: OrderSide::Buy,
            price: Some(100),
            quantity: 100,
            order_type: OrderType::Limit,
            status: OrderStatus::Open,
            non_mut_quantity: 100,
            created_at: timestamp(),
            updated_at: timestamp(),
            payment_status: PaymentStatus::Pending,
        }
    }

    /// Whether the order may be submitted.
    pub fn is_acceptable(&self) -> (ok: bool)
        ensures
            ok == self.acceptable(),
    {
        self.quantity > 0 && (match self.order_type {
            OrderType::Limit => self.price.is_some(),
            OrderType::Market => true,
        })
    }
}

impl Default for Order {
    /// An empty limit buy with fresh identifiers.
    fn default() -> (order: Order)
        ensures
            order.side == OrderSide::Buy,
            order.quantity == 0,
            order.non_mut_quantity == 0,
            order.price.is_none(),
            order.order_type == OrderType::Limit,
            order.status == OrderStatus::Open,
            order.payment_status == PaymentStatus::Pending,
    {
        Order {
            id: fresh_id(),
            user_id: fresh_id(),
            symbol: fresh_id(),
            side: OrderSide::Buy,
            quantity: 0,
            price: None,
            non_mut_quantity: 0,
            order_type: OrderType::Limit,
            status: OrderStatus::Open,
            payment_status: PaymentStatus::Pending,
            created_at: timestamp(),
            updated_at: timestamp(),
        }
    }
}

impl Prioritized for Order {
    /// A buy ranks by its price, a sell by the negated price: the higher bid
    /// and the lower ask are the better.
    open spec fn priority(&self) -> int {
        match self.side {
            OrderSide::Buy => price_rank(self.price),
            OrderSide::Sell => -price_rank(self.price),
        }
    }

    fn priority_key(&self) -> (k: i128) {
        let rank: i128 = match self.price {
            None => -1,
            Some(p) => p as i128,
        };
        match self.side {
            OrderSide::Buy => rank,
            OrderSide::Sell => -rank,
        }
    }
}

/// How a price compares with another: an absent price is below every price.
pub open spec fn compared(mine: Option<u64>, theirs: Option<u64>) -> Ordering {
    if price_rank(mine) < price_rank(theirs) {
        Ordering::Less
    } else if price_rank(mine) > price_rank(theirs) {
        Ordering::Greater
    } else {
        Ordering::Equal
    }
}

/// How a price compares with another.
fn compare_prices(mine: Option<u64>, theirs: Option<u64>) -> (r: Ordering)
    ensures
        r == compared(mine, theirs),
{
    match mine {
        Some(a) => match theirs {
            Some(b) => if a < b {
                Ordering::Less
            } else if a > b {
                Ordering::Greater
            } else {
                Ordering::Equal
            },
            None => Ordering::Greater,
        },
        None => match theirs {
            Some(_) => Ordering::Less,
            None => Ordering::Equal,
        },
    }
}

impl PartialOrd for Order {
    /// Orders compare by price, as the side of `self` sees it: for a buy the
    /// higher price is the greater, for a sell the lower. The side of
    /// `other` is not looked at, and orders at one price are equal.
    fn partial_cmp(&self, other: &Self) -> (r: Option<Ordering>) {
        match self.side {
            OrderSide::Buy => Some(compare_prices(self.price, other.price)),
            OrderSide::Sell => Some(compare_prices(other.price, self.price)),
        }
    }
}

impl vstd::std_specs::cmp::PartialOrdSpecImpl for Order {
    open spec fn obeys_partial_cmp_spec() -> bool {
        true
    }

    open spec fn partial_cmp_spec(&self, other: &Order) -> Option<Ordering> {
        match self.side {
            OrderSide::Buy => Some(compared(self.price, other.price)),
            OrderSide::Sell => Some(compared(other.price, self.price)),
        }
    }
}

} // verus!
