//! The manager: one book per symbol, all emitting on one channel, and the
//! filters that the typed subscriptions apply to each update.

use vstd::prelude::*;
use vstd::std_specs::iter::IteratorSpec;
use crossbeam_channel::{Receiver, Sender};
use std::collections::HashMap;
use crate::enums::orderbook_update_type::OrderbookUpdateType;
use crate::enums::side::OrderSide;
use crate::error::OrderbookError;
use crate::structs::matching::{
    after_add,
    after_amend_price,
    after_amend_quantity,
    after_cancel,
    crossing,
    Outcome,
};
use crate::structs::order::Order;
use crate::structs::orderbook::Orderbook;
use crate::structs::orderbook_sum::{levels, mid_price, with_shares, OrderBookSummarized};
use crate::structs::orderbook_update::OrderbookUpdate;
use crate::structs::trade::Trade;

verus! {

broadcast use vstd::std_specs::hash::group_hash_axioms;

/// The books of a venue, by symbol, and both ends of the channel on which
/// all of them emit.
///
/// The channel hands each update to one receiver only: two subscriptions that
/// read from clones of `rx` compete for the updates.
#[derive(Clone)]
pub struct OrderbooksManager {
    pub orderbooks: HashMap<u128, Orderbook>,
    pub tx: Sender<OrderbookUpdate>,
    pub rx: Receiver<OrderbookUpdate>,
}

/// The summary shows the book: the bids best first with shares and running
/// totals from the worst bid on, the asks best first with shares and running
/// totals from the best ask on, and the mid price.
pub open spec fn summarizes(summary: OrderBookSummarized, book: Orderbook) -> bool {
    &&& summary.bids@ == with_shares(levels(book.bids@.reverse()).reverse())
    &&& summary.mid_price == mid_price(book.bids@, book.asks@)
    &&& summary.asks@ == with_shares(levels(book.asks@))
}

/// The kinds of update after which a book may look different.
pub open spec fn moves_book(kind: OrderbookUpdateType) -> bool {
    ||| kind == OrderbookUpdateType::Place
    ||| kind == OrderbookUpdateType::Cancel
    ||| kind == OrderbookUpdateType::Update
    ||| kind == OrderbookUpdateType::Filled
}

/// Whether a book may look different after an update of this kind.
fn is_book_move(kind: OrderbookUpdateType) -> (moves: bool)
    ensures
        moves == moves_book(kind),
{
    match kind {
        OrderbookUpdateType::Place => true,
        OrderbookUpdateType::Cancel => true,
        OrderbookUpdateType::Update => true,
        OrderbookUpdateType::Filled => true,
        OrderbookUpdateType::New => false,
        OrderbookUpdateType::NewTrades => false,
    }
}

impl OrderbooksManager {
    /// The book is in good order, is filed under its own symbol and does
    /// not cross.
    pub open spec fn book_ok(book: Orderbook, symbol: u128) -> bool {
        &&& book.wf()
        &&& book.symbol == symbol
        &&& !crossing(book.bids@, book.asks@)
    }

    /// Every book is in good order, is filed under its own symbol and does
    /// not cross.
    pub open spec fn wf(&self) -> bool {
        forall|symbol: u128| #[trigger]
            self.orderbooks@.contains_key(symbol) ==> Self::book_ok(
                self.orderbooks@[symbol],
                symbol,
            )
    }

    /// The manager is as `before`.
    pub open spec fn same_as(&self, before: &OrderbooksManager) -> bool {
        &&& self.orderbooks@ == before.orderbooks@
        &&& self.tx == before.tx
        &&& self.rx == before.rx
    }

    /// The manager is `before` after a command on the book of `symbol` with
    /// this outcome; every other book is as it was.
    pub open spec fn follows(
        &self,
        before: &OrderbooksManager,
        symbol: u128,
        outcome: Outcome,
    ) -> bool {
        &&& self.tx == before.tx
        &&& self.rx == before.rx
        &&& self.orderbooks@.dom() == before.orderbooks@.dom()
        &&& forall|other: u128|
            other != symbol && #[trigger] before.orderbooks@.contains_key(other)
                ==> self.orderbooks@[other] == before.orderbooks@[other]
        &&& self.orderbooks@.contains_key(symbol)
        &&& before.orderbooks@.contains_key(symbol)
        &&& self.orderbooks@[symbol].follows(&before.orderbooks@[symbol], outcome)
    }

    /// Whether every book is in good order, is filed under its own symbol
    /// and does not cross. A manager that was made by `new` and changed
    /// through its commands always is.
    pub fn is_wf(&self) -> (ok: bool)
        ensures
            ok == self.wf(),
    {
        let mut ok = true;
        let ghost all = self.orderbooks.iter().remaining();
        for entry in it: self.orderbooks.iter()
            invariant
                it.seq() == all,
                ok == (forall|i: int|
                    0 <= i < it.index() ==> Self::book_ok(*(#[trigger] all[i]).1, *all[i].0)),
        {
            let (symbol, book) = entry;
            if !(book.is_wf() && book.symbol == *symbol && !book.is_crossing()) {
                ok = false;
            }
        }
        proof {
            if ok {
                assert forall|symbol: u128| #[trigger]
                    self.orderbooks@.contains_key(symbol) implies Self::book_ok(
                    self.orderbooks@[symbol],
                    symbol,
                ) by {
                    let pair = (&symbol, &self.orderbooks@[symbol]);
                    assert(all.contains(pair));
                    let i = choose|i: int| 0 <= i < all.len() && all[i] == pair;
                    assert(Self::book_ok(*all[i].1, *all[i].0));
                }
            } else {
                let i = choose|i: int|
                    0 <= i < all.len() && !Self::book_ok(*(#[trigger] all[i]).1, *all[i].0);
                assert(self.orderbooks@.contains_key(*all[i].0));
                assert(self.orderbooks@[*all[i].0] == *all[i].1);
            }
        }
        ok
    }

    /// A manager without books, on a new channel.
    pub fn new() -> (manager: OrderbooksManager)
        ensures
            manager.orderbooks@ == Map::<u128, Orderbook>::empty(),
            manager.wf(),
    {
        let (tx, rx) = crossbeam_channel::unbounded::<OrderbookUpdate>();
        OrderbooksManager { orderbooks: HashMap::new(), tx, rx }
    }

    /// Opens an empty book for `symbol`. A symbol that has a book is refused.
    pub fn new_orderbook(&mut self, symbol: u128) -> (r: Result<(), OrderbookError>)
        requires
            old(self).wf(),
        ensures
            final(self).wf(),
            final(self).tx == old(self).tx,
            final(self).rx == old(self).rx,
            old(self).orderbooks@.contains_key(symbol) ==> r == Err::<(), OrderbookError>(
                OrderbookError::InvalidInput,
            ) && final(self).orderbooks@ == old(self).orderbooks@,
            !old(self).orderbooks@.contains_key(symbol) ==> {
                &&& r == Ok::<(), OrderbookError>(())
                &&& final(self).orderbooks@.dom() == old(self).orderbooks@.dom().insert(symbol)
                &&& forall|other: u128|
                    other != symbol && #[trigger] old(self).orderbooks@.contains_key(other)
                        ==> final(self).orderbooks@[other] == old(self).orderbooks@[other]
                &&& final(self).orderbooks@[symbol].symbol == symbol
                &&& final(self).orderbooks@[symbol].bids@ == Seq::<Order>::empty()
                &&& final(self).orderbooks@[symbol].asks@ == Seq::<Order>::empty()
                &&& final(self).orderbooks@[symbol].emitted() == Seq::<OrderbookUpdate>::empty()
            },
    {
        if self.orderbooks.contains_key(&symbol) {
            return Err(OrderbookError::InvalidInput);
        }
        let orderbook = Orderbook::new(symbol, self.tx.clone());
        self.orderbooks.insert(symbol, orderbook);
        assert(final(self).orderbooks@.dom() =~= old(self).orderbooks@.dom().insert(symbol));
        Ok(())
    }

    /// Takes an order into the book of its symbol.
    pub fn add_order(&mut self, order: Order) -> (r: Result<(), OrderbookError>)
        requires
            old(self).wf(),
        ensures
            final(self).wf(),
            !old(self).orderbooks@.contains_key(order.symbol) ==> r == Err::<(), OrderbookError>(
                OrderbookError::NotFound,
            ) && final(self).same_as(old(self)),
            old(self).orderbooks@.contains_key(order.symbol) && !order.acceptable() ==> r == Err::<
                (),
                OrderbookError,
            >(OrderbookError::InvalidInput) && final(self).same_as(old(self)),
            old(self).orderbooks@.contains_key(order.symbol) && order.acceptable() ==> {
                &&& OrderbookError::carried_out(r)
                &&& final(self).follows(
                    old(self),
                    order.symbol,
                    after_add(
                        old(self).orderbooks@[order.symbol].bids@,
                        old(self).orderbooks@[order.symbol].asks@,
                        order.symbol,
                        order,
                    ),
                )
            },
    {
        if !self.orderbooks.contains_key(&order.symbol) {
            return Err(OrderbookError::NotFound);
        }
        if !order.is_acceptable() {
            return Err(OrderbookError::InvalidInput);
        }
        match self.orderbooks.remove(&order.symbol) {
            Some(mut orderbook) => {
                let r = orderbook.add_order(order);
                self.orderbooks.insert(order.symbol, orderbook);
                assert(final(self).orderbooks@.dom() =~= old(self).orderbooks@.dom());
                r
            },
            None => Err(OrderbookError::NotFound),
        }
    }

    /// Moves the orders of `side` that carry `order_id` to `price`, in the
    /// book of `symbol`.
    pub fn amend_order_price(
        &mut self,
        symbol: u128,
        order_id: u128,
        price: u64,
        side: OrderSide,
    ) -> (r: Result<(), OrderbookError>)
        requires
            old(self).wf(),
        ensures
            final(self).wf(),
            !old(self).orderbooks@.contains_key(symbol) ==> r == Err::<(), OrderbookError>(
                OrderbookError::NotFound,
            ) && final(self).same_as(old(self)),
            old(self).orderbooks@.contains_key(symbol) ==> {
                &&& OrderbookError::carried_out(r)
                &&& final(self).follows(
                    old(self),
                    symbol,
                    after_amend_price(
                        old(self).orderbooks@[symbol].bids@,
                        old(self).orderbooks@[symbol].asks@,
                        symbol,
                        order_id,
                        price,
                        side,
                    ),
                )
            },
    {
        match self.orderbooks.remove(&symbol) {
            Some(mut orderbook) => {
                let r = orderbook.amend_order_price(order_id, price, side);
                self.orderbooks.insert(symbol, orderbook);
                assert(final(self).orderbooks@.dom() =~= old(self).orderbooks@.dom());
                r
            },
            None => {
                assert(final(self).orderbooks@ =~= old(self).orderbooks@);
                Err(OrderbookError::NotFound)
            },
        }
    }

    /// Gives `quantity` to the orders of `side` that carry `order_id`, in the
    /// book of `symbol`. A quantity of zero is refused.
    pub fn amend_order_quantity(
        &mut self,
        symbol: u128,
        order_id: u128,
        quantity: u64,
        side: OrderSide,
    ) -> (r: Result<(), OrderbookError>)
        requires
            old(self).wf(),
        ensures
            final(self).wf(),
            !old(self).orderbooks@.contains_key(symbol) ==> r == Err::<(), OrderbookError>(
                OrderbookError::NotFound,
            ) && final(self).same_as(old(self)),
            old(self).orderbooks@.contains_key(symbol) && quantity == 0 ==> r == Err::<
                (),
                OrderbookError,
            >(OrderbookError::InvalidInput) && final(self).same_as(old(self)),
            old(self).orderbooks@.contains_key(symbol) && quantity > 0 ==> {
                &&& OrderbookError::carried_out(r)
                &&& final(self).follows(
                    old(self),
                    symbol,
                    after_amend_quantity(
                        old(self).orderbooks@[symbol].bids@,
                        old(self).orderbooks@[symbol].asks@,
                        symbol,
                        order_id,
                        quantity,
                        side,
                    ),
                )
            },
    {
        if !self.orderbooks.contains_key(&symbol) {
            return Err(OrderbookError::NotFound);
        }
        if quantity == 0 {
            return Err(OrderbookError::InvalidInput);
        }
        match self.orderbooks.remove(&symbol) {
            Some(mut orderbook) => {
                let r = orderbook.amend_order_quantity(order_id, quantity, side);
                self.orderbooks.insert(symbol, orderbook);
                assert(final(self).orderbooks@.dom() =~= old(self).orderbooks@.dom());
                r
            },
            None => Err(OrderbookError::NotFound),
        }
    }

    /// Cancels the orders of `side` that carry `order_id`, in the book of
    /// `symbol`.
    pub fn cancel_order(&mut self, order_id: u128, symbol: u128, side: OrderSide) -> (r: Result<
        (),
        OrderbookError,
    >)
        requires
            old(self).wf(),
        ensures
            final(self).wf(),
            !old(self).orderbooks@.contains_key(symbol) ==> r == Err::<(), OrderbookError>(
                OrderbookError::NotFound,
            ) && final(self).same_as(old(self)),
            old(self).orderbooks@.contains_key(symbol) ==> {
                &&& OrderbookError::carried_out(r)
                &&& final(self).follows(
                    old(self),
                    symbol,
                    after_cancel(
                        old(self).orderbooks@[symbol].bids@,
                        old(self).orderbooks@[symbol].asks@,
                        symbol,
                        order_id,
                        side,
                    ),
                )
            },
    {
        match self.orderbooks.remove(&symbol) {
            Some(mut orderbook) => {
                let r = orderbook.cancel_order(order_id, side);
                self.orderbooks.insert(symbol, orderbook);
                assert(final(self).orderbooks@.dom() =~= old(self).orderbooks@.dom());
                r
            },
            None => {
                assert(final(self).orderbooks@ =~= old(self).orderbooks@);
                Err(OrderbookError::NotFound)
            },
        }
    }

    /// The summary of the book of `symbol`.
    pub fn get_orderbook(&self, symbol: u128) -> (r: Result<OrderBookSummarized, OrderbookError>)
        ensures
            !self.orderbooks@.contains_key(symbol) ==> r is Err && r->Err_0
                == OrderbookError::NotFound,
            self.orderbooks@.contains_key(symbol) ==> r is Ok && summarizes(
                r->Ok_0,
                self.orderbooks@[symbol],
            ),
    {
        match self.orderbooks.get(&symbol) {
            Some(orderbook) => {
                let summary = orderbook.summarize_orderbook_per_price_level();
                Ok(OrderBookSummarized::new(summary.0, summary.1, summary.2))
            },
            None => Err(OrderbookError::NotFound),
        }
    }

    /// What the subscription to new orders yields for `update`: its order,
    /// if the update reports a submission.
    pub fn listen_new_orders(&self, update: &OrderbookUpdate) -> (yielded: Option<Order>)
        ensures
            yielded == (if update.update_type == OrderbookUpdateType::New {
                update.order
            } else {
                None
            }),
    {
        match update.update_type {
            OrderbookUpdateType::New => update.order,
            _ => None,
        }
    }

    /// What the subscription to placed orders yields for `update`: its
    /// order, if the update reports a placement.
    pub fn listen_placed_orders(&self, update: &OrderbookUpdate) -> (yielded: Option<Order>)
        ensures
            yielded == (if update.update_type == OrderbookUpdateType::Place {
                update.order
            } else {
                None
            }),
    {
        match update.update_type {
            OrderbookUpdateType::Place => update.order,
            _ => None,
        }
    }

    /// What the subscription to trades yields for `update`: its trade, if
    /// the update reports one.
    pub fn listen_new_trades(&self, update: &OrderbookUpdate) -> (yielded: Option<Trade>)
        ensures
            yielded == (if update.update_type == OrderbookUpdateType::NewTrades {
                update.trade
            } else {
                None
            }),
    {
        match update.update_type {
            OrderbookUpdateType::NewTrades => update.trade,
            _ => None,
        }
    }

    /// What the subscription to the summary of `symbol` yields for `update`:
    /// the summary of the book as it is now, if the update is for `symbol`,
    /// is of a kind after which a book may look different, and the symbol
    /// has a book.
    pub fn listen_orderbook_summary_by_symbol(&self, symbol: u128, update: &OrderbookUpdate) -> (yielded:
        Option<OrderBookSummarized>)
        ensures
            moves_book(update.update_type) && update.symbol == symbol
                && self.orderbooks@.contains_key(symbol) ==> yielded is Some && summarizes(
                yielded->0,
                self.orderbooks@[symbol],
            ),
            !(moves_book(update.update_type) && update.symbol == symbol
                && self.orderbooks@.contains_key(symbol)) ==> yielded is None,
    {
        if is_book_move(update.update_type) && update.symbol == symbol {
            match self.get_orderbook(update.symbol) {
                Ok(summary) => Some(summary),
                Err(_) => None,
            }
        } else {
            None
        }
    }

    /// What the subscription to all summaries yields for `update`: the
    /// summary of the book of its symbol as it is now, if the update is of a
    /// kind after which a book may look different and the symbol has a book.
    pub fn listen_orderbook_summary(&self, update: &OrderbookUpdate) -> (yielded: Option<
        OrderBookSummarized,
    >)
        ensures
            moves_book(update.update_type) && self.orderbooks@.contains_key(update.symbol)
                ==> yielded is Some && summarizes(yielded->0, self.orderbooks@[update.symbol]),
            !(moves_book(update.update_type) && self.orderbooks@.contains_key(update.symbol))
                ==> yielded is None,
    {
        if is_book_move(update.update_type) {
            match self.get_orderbook(update.symbol) {
                Ok(summary) => Some(summary),
                Err(_) => None,
            }
        } else {
            None
        }
    }

    /// What the subscription to changes yields for `update`: its order, if
    /// the update reports a change and carries one.
    pub fn listen_orderbook_updates(&self, update: &OrderbookUpdate) -> (yielded: Option<Order>)
        ensures
            yielded == (if update.update_type == OrderbookUpdateType::Update {
                update.order
            } else {
                None
            }),
    {
        match update.update_type {
            OrderbookUpdateType::Update => update.order,
            _ => None,
        }
    }

    /// What the subscription to cancellations yields for `update`: the
    /// cancelled identifier, if the update reports a cancellation.
    pub fn listen_orderbook_cancels(&self, update: &OrderbookUpdate) -> (yielded: Option<u128>)
        ensures
            yielded == (if update.update_type == OrderbookUpdateType::Cancel {
                update.cancel_id
            } else {
                None
            }),
    {
        match update.update_type {
            OrderbookUpdateType::Cancel => update.cancel_id,
            _ => None,
        }
    }

    /// What the subscription to fills yields for `update`: the filled
    /// identifier, if the update reports a fill.
    pub fn listen_orderbook_fills(&self, update: &OrderbookUpdate) -> (yielded: Option<u128>)
        ensures
            yielded == (if update.update_type == OrderbookUpdateType::Filled {
                update.filled_id
            } else {
                None
            }),
    {
        match update.update_type {
            OrderbookUpdateType::Filled => update.filled_id,
            _ => None,
        }
    }
}

} // verus!
