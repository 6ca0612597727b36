//! The life-cycle status carried by an order. The engine never reads it.

use vstd::prelude::*;
use crate::text::str_eq;

verus! {

#[derive(Debug, Clone, Copy, PartialEq, Eq, Structural)]
pub enum OrderStatus {
    Open,
    Closed,
    Cancelled,
    Pending,
    PartiallyFilled,
    Filled,
}

impl Default for OrderStatus {
    fn default() -> (s: Self)
        ensures
            s == OrderStatus::Open,
    {
        OrderStatus::Open
    }
}

impl OrderStatus {
    /// The name of the status, as text.
    pub open spec fn name(self) -> Seq<char> {
        match self {
            OrderStatus::Open => "Open"@,
            OrderStatus::Closed => "Closed"@,
            OrderStatus::Cancelled => "Cancelled"@,
            OrderStatus::Pending => "Pending"@,
            OrderStatus::PartiallyFilled => "PartiallyFilled"@,
            OrderStatus::Filled => "Filled"@,
        }
    }

    /// The status that a text names; an unknown text is read as open.
    pub open spec fn named(s: Seq<char>) -> OrderStatus {
        if s == "Closed"@ {
            OrderStatus::Closed
        } else if s == "Cancelled"@ {
            OrderStatus::Cancelled
        } else if s == "Pending"@ {
            OrderStatus::Pending
        } else if s == "PartiallyFilled"@ {
            OrderStatus::PartiallyFilled
        } else if s == "Filled"@ {
            OrderStatus::Filled
        } else {
            OrderStatus::Open
        }
    }

    /// The position of the status in its declaration.
    pub open spec fn ordinal(self) -> int {
        match self {
            OrderStatus::Open => 0,
            OrderStatus::Closed => 1,
            OrderStatus::Cancelled => 2,
            OrderStatus::Pending => 3,
            OrderStatus::PartiallyFilled => 4,
            OrderStatus::Filled => 5,
        }
    }

    pub fn to_string(&self) -> (s: String)
        ensures
            s@ == self.name(),
    {
        match self {
            OrderStatus::Open => "Open".to_string(),
            OrderStatus::Closed => "Closed".to_string(),
            OrderStatus::Cancelled => "Cancelled".to_string(),
            OrderStatus::Pending => "Pending".to_string(),
            OrderStatus::PartiallyFilled => "PartiallyFilled".to_string(),
            OrderStatus::Filled => "Filled".to_string(),
        }
    }

    pub fn from_string(s: &str) -> (t: OrderStatus)
        ensures
            t == OrderStatus::named(s@),
    {
        if str_eq(s, "Closed") {
            OrderStatus::Closed
        } else if str_eq(s, "Cancelled") {
            OrderStatus::Cancelled
        } else if str_eq(s, "Pending") {
            OrderStatus::Pending
        } else if str_eq(s, "PartiallyFilled") {
            OrderStatus::PartiallyFilled
        } else if str_eq(s, "Filled") {
            OrderStatus::Filled
        } else {
            OrderStatus::Open
        }
    }
}

/// Reading back the name of a status gives the status.
pub proof fn lemma_order_status_name_round_trip(t: OrderStatus)
    ensures
        OrderStatus::named(t.name()) == t,
{
    reveal_strlit("Open");
    reveal_strlit("Closed");
    reveal_strlit("Cancelled");
    reveal_strlit("Pending");
    reveal_strlit("PartiallyFilled");
    reveal_strlit("Filled");
    assert("Closed"@[0] != "Filled"@[0]);
    assert("Open"@.len() == 4 && "Closed"@.len() == 6 && "Cancelled"@.len() == 9);
    assert("Pending"@.len() == 7 && "PartiallyFilled"@.len() == 15 && "Filled"@.len() == 6);
}

impl From<OrderStatus> for i32 {
    /// The position of the value in its declaration.
    fn from(value: OrderStatus) -> (n: i32) {
        match value {
            OrderStatus::Open => 0,
            OrderStatus::Closed => 1,
            OrderStatus::Cancelled => 2,
            OrderStatus::Pending => 3,
            OrderStatus::PartiallyFilled => 4,
            OrderStatus::Filled => 5,
        }
    }
}

impl vstd::std_specs::convert::FromSpecImpl<OrderStatus> for i32 {
    open spec fn obeys_from_spec() -> bool {
        true
    }

    open spec fn from_spec(value: OrderStatus) -> i32 {
        value.ordinal() as i32
    }
}

} // verus!
