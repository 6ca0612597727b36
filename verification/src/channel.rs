//! The shared update channel: crossbeam's unbounded channel, behind contracts.
//!
//! A channel end is shared with other threads, so nothing here says what a
//! channel holds. What a book has handed to its sender is recorded beside
//! the sender, in `UpdateSender`.

use vstd::prelude::*;
use crossbeam_channel::{Receiver, Sender};
use crate::structs::orderbook_update::OrderbookUpdate;

verus! {

/// `crossbeam_channel::Sender`, carried through as an opaque value.
#[verifier::external_type_specification]
#[verifier::external_body]
#[verifier::reject_recursive_types(T)]
pub struct ExSender<T>(Sender<T>);

/// `crossbeam_channel::Receiver`, carried through as an opaque value.
#[verifier::external_type_specification]
#[verifier::external_body]
#[verifier::reject_recursive_types(T)]
pub struct ExReceiver<T>(Receiver<T>);

/// `crossbeam_channel::unbounded` makes the two ends of a new channel that
/// holds any number of messages. Nothing is claimed of the ends.
pub assume_specification<T>[ crossbeam_channel::unbounded::<T> ]() -> (ends: (
    Sender<T>,
    Receiver<T>,
));

/// A sender of updates together with the record of what was handed to it.
///
/// The record grows only in `send`, which is the one place where the sender
/// is called: an update is in the record if and only if it was handed to
/// `Sender::send` through this value, and the record keeps the order of the
/// calls.
#[derive(Clone)]
pub struct UpdateSender {
    tx: Sender<OrderbookUpdate>,
    sent: Ghost<Seq<OrderbookUpdate>>,
}

impl View for UpdateSender {
    type V = Seq<OrderbookUpdate>;

    /// The updates that were handed to the sender, in the order of the calls.
    closed spec fn view(&self) -> Seq<OrderbookUpdate> {
        self.sent@
    }
}

impl UpdateSender {
    /// The sender that the updates are handed to.
    pub closed spec fn handle(&self) -> Sender<OrderbookUpdate> {
        self.tx
    }

    /// A sender to which nothing was handed yet. The sender should be that
    /// of an unbounded channel: on a bounded channel that is full, `send`
    /// waits for a receiver.
    pub fn new(tx: Sender<OrderbookUpdate>) -> (sender: UpdateSender)
        ensures
            sender.handle() == tx,
            sender@ == Seq::<OrderbookUpdate>::empty(),
    {
        UpdateSender { tx, sent: Ghost(Seq::empty()) }
    }

    /// The sender that the updates are handed to.
    pub fn sender(&self) -> (tx: &Sender<OrderbookUpdate>)
        ensures
            *tx == self.handle(),
    {
        &self.tx
    }

    /// Hands `update` to `Sender::send` and says whether it was taken.
    ///
    /// The body makes the call; the contract takes on trust that the call
    /// was made, by entering the update in the record, and that the sender
    /// is the same afterwards (`send` takes it by shared reference). On an
    /// unbounded channel `send` does not block; it fails only when every
    /// receiver is gone, which other threads decide. So nothing is claimed
    /// of the answer.
    #[verifier::external_body]
    pub(crate) fn send(&mut self, update: OrderbookUpdate) -> (delivered: bool)
        ensures
            final(self)@ == old(self)@.push(update),
            final(self).handle() == old(self).handle(),
    {
        self.tx.send(update).is_ok()
    }
}

/// `Clone for Sender` gives another handle on the same channel. Nothing is
/// claimed of the handle.
pub assume_specification<T>[ <Sender<T> as Clone>::clone ](tx: &Sender<T>) -> (handle: Sender<T>);

/// `Clone for Receiver` gives another handle on the same channel. Nothing is
/// claimed of the handle.
pub assume_specification<T>[ <Receiver<T> as Clone>::clone ](rx: &Receiver<T>) -> (handle:
    Receiver<T>);

} // verus!
