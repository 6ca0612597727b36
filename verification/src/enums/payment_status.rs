//! The settlement status carried by an order. The engine never reads it.

use vstd::prelude::*;
use crate::text::str_eq;

verus! {

#[derive(Debug, Clone, Copy, PartialEq, Eq, Structural)]
pub enum PaymentStatus {
    Pending,
    Paid,
    Failed,
    Cancelled,
    Refunded,
    Unknown,
}

impl Default for PaymentStatus {
    fn default() -> (s: Self)
        ensures
            s == PaymentStatus::Pending,
    {
        PaymentStatus::Pending
    }
}

impl PaymentStatus {
    /// The name of the status, as text.
    pub open spec fn name(self) -> Seq<char> {
        match self {
            PaymentStatus::Pending => "Pending"@,
            PaymentStatus::Paid => "Paid"@,
            PaymentStatus::Failed => "Failed"@,
            PaymentStatus::Cancelled => "Cancelled"@,
            PaymentStatus::Refunded => "Refunded"@,
            PaymentStatus::Unknown => "Unknown"@,
        }
    }

    /// The status that a text names; a text that names none is `Unknown`.
    pub open spec fn named(s: Seq<char>) -> PaymentStatus {
        if s == "Pending"@ {
            PaymentStatus::Pending
        } else if s == "Paid"@ {
            PaymentStatus::Paid
        } else if s == "Failed"@ {
            PaymentStatus::Failed
        } else if s == "Cancelled"@ {
            PaymentStatus::Cancelled
        } else if s == "Refunded"@ {
            PaymentStatus::Refunded
        } else {
            PaymentStatus::Unknown
        }
    }

    /// The position of the status in its declaration.
    pub open spec fn ordinal(self) -> int {
        match self {
            PaymentStatus::Pending => 0,
            PaymentStatus::Paid => 1,
            PaymentStatus::Failed => 2,
            PaymentStatus::Cancelled => 3,
            PaymentStatus::Refunded => 4,
            PaymentStatus::Unknown => 5,
        }
    }

    pub fn from_string(s: &str) -> (t: PaymentStatus)
        ensures
            t == PaymentStatus::named(s@),
    {
        if str_eq(s, "Pending") {
            PaymentStatus::Pending
        } else if str_eq(s, "Paid") {
            PaymentStatus::Paid
        } else if str_eq(s, "Failed") {
            PaymentStatus::Failed
        } else if str_eq(s, "Cancelled") {
            PaymentStatus::Cancelled
        } else if str_eq(s, "Refunded") {
            PaymentStatus::Refunded
        } else {
            PaymentStatus::Unknown
        }
    }

    pub fn to_string(&self) -> (s: String)
        ensures
            s@ == self.name(),
    {
        match self {
            PaymentStatus::Pending => "Pending".to_string(),
            PaymentStatus::Paid => "Paid".to_string(),
            PaymentStatus::Failed => "Failed".to_string(),
            PaymentStatus::Cancelled => "Cancelled".to_string(),
            PaymentStatus::Refunded => "Refunded".to_string(),
            PaymentStatus::Unknown => "Unknown".to_string(),
        }
    }
}

/// Reading back the name of a status gives the status.
pub proof fn lemma_payment_status_name_round_trip(t: PaymentStatus)
    ensures
        PaymentStatus::named(t.name()) == t,
{
    reveal_strlit("Pending");
    reveal_strlit("Paid");
    reveal_strlit("Failed");
    reveal_strlit("Cancelled");
    reveal_strlit("Refunded");
    reveal_strlit("Unknown");
    assert("Pending"@.len() == 7 && "Paid"@.len() == 4 && "Failed"@.len() == 6);
    assert("Cancelled"@.len() == 9 && "Refunded"@.len() == 8 && "Unknown"@.len() == 7);
    assert("Pending"@[0] != "Unknown"@[0]);
}

impl From<PaymentStatus> for i32 {
    /// The position of the value in its declaration.
    fn from(value: PaymentStatus) -> (n: i32) {
        match value {
            PaymentStatus::Pending => 0,
            PaymentStatus::Paid => 1,
            PaymentStatus::Failed => 2,
            PaymentStatus::Cancelled => 3,
            PaymentStatus::Refunded => 4,
            PaymentStatus::Unknown => 5,
        }
    }
}

impl vstd::std_specs::convert::FromSpecImpl<PaymentStatus> for i32 {
    open spec fn obeys_from_spec() -> bool {
        true
    }

    open spec fn from_spec(value: PaymentStatus) -> i32 {
        value.ordinal() as i32
    }
}

} // verus!
