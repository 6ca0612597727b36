//! Whether an order rests at a limit price or executes at market.

use vstd::prelude::*;
use crate::text::str_eq;

verus! {

/// The two order types the engine knows.
#[derive(Debug, Clone, Copy, PartialEq, Eq, Structural)]
pub enum OrderType {
    /// Rests on the book at its limit price when it does not cross.
    Limit,
    /// Executes against the best resting prices and never rests.
    Market,
}

impl Default for OrderType {
    fn default() -> (t: Self)
        ensures
            t == OrderType::Limit,
    {
        OrderType::Limit
    }
}

impl OrderType {
    /// The upper-case name of the type, as text.
    pub open spec fn name(self) -> Seq<char> {
        match self {
            OrderType::Limit => "LIMIT"@,
            OrderType::Market => "MARKET"@,
        }
    }

    /// The type that a text names; any text other than `MARKET` is a limit.
    pub open spec fn named(s: Seq<char>) -> OrderType {
        if s == "MARKET"@ {
            OrderType::Market
        } else {
            OrderType::Limit
        }
    }

    /// The position of the type in its declaration.
    pub open spec fn ordinal(self) -> int {
        match self {
            OrderType::Limit => 0,
            OrderType::Market => 1,
        }
    }

    pub fn to_string(&self) -> (s: String)
        ensures
            s@ == self.name(),
    {
        match self {
            OrderType::Market => "MARKET".to_string(),
            OrderType::Limit => "LIMIT".to_string(),
        }
    }

    pub fn from_string(s: &str) -> (t: OrderType)
        ensures
            t == OrderType::named(s@),
    {
        if str_eq(s, "MARKET") {
            OrderType::Market
        } else {
            OrderType::Limit
        }
    }
}

/// Reading back the name of a type gives the type.
pub proof fn lemma_order_type_name_round_trip(t: OrderType)
    ensures
        OrderType::named(t.name()) == t,
{
    reveal_strlit("LIMIT");
    reveal_strlit("MARKET");
    if t == OrderType::Limit {
        assert("LIMIT"@.len() != "MARKET"@.len());
    }
}

impl From<OrderType> for i32 {
    /// The position of the value in its declaration.
    fn from(value: OrderType) -> (n: i32) {
        match value {
            OrderType::Limit => 0,
            OrderType::Market => 1,
        }
    }
}

impl vstd::std_specs::convert::FromSpecImpl<OrderType> for i32 {
    open spec fn obeys_from_spec() -> bool {
        true
    }

    open spec fn from_spec(value: OrderType) -> i32 {
        value.ordinal() as i32
    }
}

} // verus!
