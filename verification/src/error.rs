//! What a command can fail with.

use vstd::prelude::*;

verus! {

/// The failures that the engine reports to its caller.
#[derive(Debug, Clone, Copy, PartialEq, Eq, Structural)]
pub enum OrderbookError {
    /// The addressed symbol has no book.
    NotFound,
    /// The command carries a quantity of zero, a limit order without a price,
    /// or a symbol that already has a book.
    InvalidInput,
    /// The command was carried out, but the update channel has lost its
    /// receivers and did not take every update.
    ChannelClosed,
}

impl OrderbookError {
    /// The name of the failure, as text.
    pub open spec fn name(self) -> Seq<char> {
        match self {
            OrderbookError::NotFound => "Orderbook not found"@,
            OrderbookError::InvalidInput => "Invalid input"@,
            OrderbookError::ChannelClosed => "Update channel closed"@,
        }
    }

    /// The result of a command that was carried out: success, or the report
    /// that the channel did not take every update. Which of the two is for
    /// the channel to decide.
    pub open spec fn carried_out(r: Result<(), OrderbookError>) -> bool {
        r == Ok::<(), OrderbookError>(()) || r == Err::<(), OrderbookError>(
            OrderbookError::ChannelClosed,
        )
    }

    /// What a command that was carried out reports, given whether the channel
    /// took every update.
    pub open spec fn after_delivery(delivered: bool) -> Result<(), OrderbookError> {
        if delivered {
            Ok(())
        } else {
            Err(OrderbookError::ChannelClosed)
        }
    }

    /// What a command that was carried out reports, given whether the channel
    /// took every update.
    pub fn from_delivery(delivered: bool) -> (r: Result<(), OrderbookError>)
        ensures
            r == OrderbookError::after_delivery(delivered),
            OrderbookError::carried_out(r),
    {
        if delivered {
            Ok(())
        } else {
            Err(OrderbookError::ChannelClosed)
        }
    }

    /// The failure in words.
    pub fn to_string(&self) -> (s: String)
        ensures
            s@ == self.name(),
    {
        match self {
            OrderbookError::NotFound => "Orderbook not found".to_string(),
            OrderbookError::InvalidInput => "Invalid input".to_string(),
            OrderbookError::ChannelClosed => "Update channel closed".to_string(),
        }
    }
}

} // verus!
