//! The kind of an update that a book emits.

use vstd::prelude::*;

verus! {

#[derive(Debug, Clone, Copy, PartialEq, Eq, Structural)]
pub enum OrderbookUpdateType {
    /// An order was submitted.
    New,
    /// A limit order was put on the book.
    Place,
    /// An order was cancelled.
    Cancel,
    /// A resting order changed.
    Update,
    /// Two orders traded.
    NewTrades,
    /// A resting order was consumed entirely.
    Filled,
}

impl Default for OrderbookUpdateType {
    fn default() -> (t: Self)
        ensures
            t == OrderbookUpdateType::New,
    {
        OrderbookUpdateType::New
    }
}

impl OrderbookUpdateType {
    /// The name of the kind, as text.
    pub open spec fn name(self) -> Seq<char> {
        match self {
            OrderbookUpdateType::New => "New"@,
            OrderbookUpdateType::Place => "Place"@,
            OrderbookUpdateType::Cancel => "Cancel"@,
            OrderbookUpdateType::Update => "Update"@,
            OrderbookUpdateType::NewTrades => "NewTrades"@,
            OrderbookUpdateType::Filled => "Filled"@,
        }
    }

    /// The position of the kind in its declaration.
    pub open spec fn ordinal(self) -> int {
        match self {
            OrderbookUpdateType::New => 0,
            OrderbookUpdateType::Place => 1,
            OrderbookUpdateType::Cancel => 2,
            OrderbookUpdateType::Update => 3,
            OrderbookUpdateType::NewTrades => 4,
            OrderbookUpdateType::Filled => 5,
        }
    }

    /// The name of the kind.
    pub fn to_string(&self) -> (s: String)
        ensures
            s@ == self.name(),
    {
        match self {
            OrderbookUpdateType::New => "New".to_string(),
            OrderbookUpdateType::Place => "Place".to_string(),
            OrderbookUpdateType::Cancel => "Cancel".to_string(),
            OrderbookUpdateType::Update => "Update".to_string(),
            OrderbookUpdateType::NewTrades => "NewTrades".to_string(),
            OrderbookUpdateType::Filled => "Filled".to_string(),
        }
    }

}

impl From<OrderbookUpdateType> for i32 {
    /// The position of the value in its declaration.
    fn from(value: OrderbookUpdateType) -> (n: i32) {
        match value {
            OrderbookUpdateType::New => 0,
            OrderbookUpdateType::Place => 1,
            OrderbookUpdateType::Cancel => 2,
            OrderbookUpdateType::Update => 3,
            OrderbookUpdateType::NewTrades => 4,
            OrderbookUpdateType::Filled => 5,
        }
    }
}

impl vstd::std_specs::convert::FromSpecImpl<OrderbookUpdateType> for i32 {
    open spec fn obeys_from_spec() -> bool {
        true
    }

    open spec fn from_spec(value: OrderbookUpdateType) -> i32 {
        value.ordinal() as i32
    }
}

} // verus!
