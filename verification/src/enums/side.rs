//! The side of the book an order belongs to.

use vstd::prelude::*;

verus! {

/// Buy orders rest among the bids, sell orders among the asks.
#[derive(Debug, Clone, Copy, PartialEq, Eq, Structural)]
pub enum OrderSide {
    Buy,
    Sell,
}

impl Default for OrderSide {
    fn default() -> (s: Self)
        ensures
            s == OrderSide::Buy,
    {
        OrderSide::Buy
    }
}

impl OrderSide {
    /// The upper-case name of the side, as text.
    pub open spec fn name(self) -> Seq<char> {
        match self {
            OrderSide::Buy => "BUY"@,
            OrderSide::Sell => "SELL"@,
        }
    }

    /// The position of the side in its declaration.
    pub open spec fn ordinal(self) -> int {
        match self {
            OrderSide::Buy => 0,
            OrderSide::Sell => 1,
        }
    }

    /// The side that trades against this one.
    pub open spec fn opposite(self) -> OrderSide {
        match self {
            OrderSide::Buy => OrderSide::Sell,
            OrderSide::Sell => OrderSide::Buy,
        }
    }

    /// The name of the side.
    pub fn to_string(&self) -> (s: String)
        ensures
            s@ == self.name(),
    {
        match self {
            OrderSide::Buy => "BUY".to_string(),
            OrderSide::Sell => "SELL".to_string(),
        }
    }

}

impl From<OrderSide> for i32 {
    /// The position of the value in its declaration.
    fn from(value: OrderSide) -> (n: i32) {
        match value {
            OrderSide::Buy => 0,
            OrderSide::Sell => 1,
        }
    }
}

impl vstd::std_specs::convert::FromSpecImpl<OrderSide> for i32 {
    open spec fn obeys_from_spec() -> bool {
        true
    }

    open spec fn from_spec(value: OrderSide) -> i32 {
        value.ordinal() as i32
    }
}

} // verus!
