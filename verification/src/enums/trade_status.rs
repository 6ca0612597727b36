//! The settlement status carried by a trade.

use vstd::prelude::*;
use crate::text::str_eq;

verus! {

#[derive(Debug, Clone, Copy, PartialEq, Eq, Structural)]
pub enum TradeStatus {
    Swapped,
    Pending,
    Failed,
}

impl Default for TradeStatus {
    fn default() -> (s: Self)
        ensures
            s == TradeStatus::Pending,
    {
        TradeStatus::Pending
    }
}

impl TradeStatus {
    /// The name of the status, as text.
    pub open spec fn name(self) -> Seq<char> {
        match self {
            TradeStatus::Swapped => "Swapped"@,
            TradeStatus::Pending => "Pending"@,
            TradeStatus::Failed => "Failed"@,
        }
    }

    /// The status that a text names; a text that names none is `Failed`.
    pub open spec fn named(s: Seq<char>) -> TradeStatus {
        if s == "Swapped"@ {
            TradeStatus::Swapped
        } else if s == "Pending"@ {
            TradeStatus::Pending
        } else {
            TradeStatus::Failed
        }
    }

    /// The position of the status in its declaration.
    pub open spec fn ordinal(self) -> int {
        match self {
            TradeStatus::Swapped => 0,
            TradeStatus::Pending => 1,
            TradeStatus::Failed => 2,
        }
    }

    pub fn from_string(s: &str) -> (t: TradeStatus)
        ensures
            t == TradeStatus::named(s@),
    {
        if str_eq(s, "Swapped") {
            TradeStatus::Swapped
        } else if str_eq(s, "Pending") {
            TradeStatus::Pending
        } else {
            TradeStatus::Failed
        }
    }

    pub fn to_string(&self) -> (s: String)
        ensures
            s@ == self.name(),
    {
        match self {
            TradeStatus::Swapped => "Swapped".to_string(),
            TradeStatus::Pending => "Pending".to_string(),
            TradeStatus::Failed => "Failed".to_string(),
        }
    }
}

/// Reading back the name of a status gives the status.
pub proof fn lemma_trade_status_name_round_trip(t: TradeStatus)
    ensures
        TradeStatus::named(t.name()) == t,
{
    reveal_strlit("Swapped");
    reveal_strlit("Pending");
    reveal_strlit("Failed");
    assert("Swapped"@[0] != "Pending"@[0]);
    assert("Failed"@.len() == 6 && "Swapped"@.len() == 7 && "Pending"@.len() == 7);
}

impl From<TradeStatus> for i32 {
    /// The position of the value in its declaration.
    fn from(value: TradeStatus) -> (n: i32) {
        match value {
            TradeStatus::Swapped => 0,
            TradeStatus::Pending => 1,
            TradeStatus::Failed => 2,
        }
    }
}

impl vstd::std_specs::convert::FromSpecImpl<TradeStatus> for i32 {
    open spec fn obeys_from_spec() -> bool {
        true
    }

    open spec fn from_spec(value: TradeStatus) -> i32 {
        value.ordinal() as i32
    }
}

} // verus!
