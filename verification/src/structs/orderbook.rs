//! The book of one symbol: two sides of resting orders, the commands that
//! change them, and the updates that each command emits.

use vstd::prelude::*;
use crossbeam_channel::Sender;
use crate::channel::UpdateSender;
use crate::enums::order_type::OrderType;
use crate::enums::side::OrderSide;
use crate::error::OrderbookError;
use crate::heap::{lemma_select_is_filter, select, sorted_by_priority, ModifiableBinaryHeap};
use crate::structs::matching::{
    after_add,
    after_amend_price,
    after_amend_quantity,
    after_cancel,
    after_fill,
    after_market,
    after_place,
    after_update,
    crossing,
    differs_from,
    has_id,
    last_with_id,
    lemma_insert_side_ok,
    lemma_market_keeps_uncrossed,
    lemma_removal_keeps_uncrossed,
    lemma_match_step_shrinks,
    lemma_with_price_of,
    lemma_with_quantity_of,
    lemma_without_id,
    limit_of,
    match_step,
    matched,
    repriced,
    requantified,
    side_ok,
    sweep_trade,
    swept,
    with_price_of,
    with_price_unsorted,
    with_quantity_of,
    without_id,
    Outcome,
};
use crate::structs::order::{price_rank, Order};
use crate::structs::orderbook_sum::{
    levels,
    levels_of,
    mid_price,
    reversed,
    worst_to_best,
    Level,
};
use crate::structs::orderbook_update::OrderbookUpdate;
use crate::structs::trade::Trade;

verus! {

/// The book of one symbol.
///
/// `tx` holds the sender on which the book emits, together with the record
/// of every update that the book has handed to it since it was made.
#[derive(Clone)]
pub struct Orderbook {
    pub symbol: u128,
    pub bids: ModifiableBinaryHeap<Order>,
    pub asks: ModifiableBinaryHeap<Order>,
    pub tx: UpdateSender,
}

/// The last order of `items` that carries `id`.
fn find_last(items: &Vec<Order>, id: u128) -> (found: Option<Order>)
    ensures
        found == last_with_id(items@, id),
{
    let mut i: usize = items.len();
    assert(items@.take(i as int) =~= items@);
    while i > 0
        invariant
            i <= items.len(),
            last_with_id(items@, id) == last_with_id(items@.take(i as int), id),
        decreases i,
    {
        let ghost prefix = items@.take(i as int);
        i -= 1;
        assert(prefix.last() == items@[i as int]);
        assert(prefix.drop_last() =~= items@.take(i as int));
        if items[i].id == id {
            return Some(items[i]);
        }
    }
    assert(items@.take(0).len() == 0);
    None
}

/// Mapping orders in a way that keeps identifiers maps the last order with a
/// given identifier.
proof fn lemma_last_with_id_mapped(s: Seq<Order>, f: spec_fn(Order) -> Order, id: u128)
    requires
        forall|o: Order| (#[trigger] f(o)).id == o.id,
    ensures
        last_with_id(s.map_values(f), id) == match last_with_id(s, id) {
            Some(o) => Some(f(o)),
            None => None,
        },
    decreases s.len(),
{
    if s.len() > 0 {
        assert(s.map_values(f).drop_last() =~= s.drop_last().map_values(f));
        lemma_last_with_id_mapped(s.drop_last(), f, id);
    }
}

/// Takes the orders that carry `id` off a side.
fn remove_from(side: &mut ModifiableBinaryHeap<Order>, id: u128)
    requires
        old(side).wf(),
    ensures
        final(side).wf(),
        final(side)@ == without_id(old(side)@, id),
{
    let ghost before = side@;
    let keep = |o: &Order| -> (k: bool)
        ensures
            k == (o.id != id),
        { o.id != id };
    side.retain(keep);
    proof {
        let mask = choose|mask: Seq<bool>|
            {
                &&& mask.len() == before.len()
                &&& forall|i: int|
                    0 <= i < mask.len() ==> call_ensures(keep, (&before[i],), #[trigger] mask[i])
                &&& side@ == select(before, mask)
            };
        assert forall|i: int| 0 <= i < before.len() implies mask[i] == differs_from(id)(
            before[i],
        ) by {
            assert(call_ensures(keep, (&before[i],), mask[i]));
        }
        lemma_select_is_filter(before, mask, differs_from(id));
    }
}

/// Gives `quantity` to the orders of a side that carry `id` and returns the
/// last of them.
fn requantify(side: &mut ModifiableBinaryHeap<Order>, id: u128, quantity: u64) -> (reported:
    Option<Order>)
    requires
        old(side).wf(),
    ensures
        final(side).wf(),
        final(side)@ == with_quantity_of(old(side)@, id, quantity),
        reported == last_with_id(final(side)@, id),
{
    let ghost before = side@;
    let change = |o: Order| -> (r: Order)
        ensures
            r == requantified(o, id, quantity),
        {
            if o.id == id {
                Order { quantity, ..o }
            } else {
                o
            }
        };
    side.modify(change);
    proof {
        let images = choose|images: Seq<Order>|
            {
                &&& images.len() == before.len()
                &&& forall|i: int|
                    0 <= i < images.len() ==> call_ensures(
                        change,
                        (before[i],),
                        #[trigger] images[i],
                    )
                &&& side@ == sorted_by_priority(images)
            };
        assert forall|i: int| 0 <= i < before.len() implies images[i] == requantified(
            before[i],
            id,
            quantity,
        ) by {
            assert(call_ensures(change, (before[i],), images[i]));
        }
        assert(images =~= with_quantity_of(before, id, quantity));
        lemma_with_quantity_of(before, id, quantity);
    }
    let items = side.into_vec();
    find_last(&items, id)
}

/// Moves the orders of a side that carry `id` to `price`, puts the side in
/// order again and returns the last of them by their places before the move.
fn reprice(side: &mut ModifiableBinaryHeap<Order>, id: u128, price: u64) -> (reported: Option<
    Order,
>)
    requires
        old(side).wf(),
    ensures
        final(side).wf(),
        final(side)@ == with_price_of(old(side)@, id, price),
        reported == last_with_id(with_price_unsorted(old(side)@, id, price), id),
{
    let ghost before = side@;
    let items = side.into_vec();
    let reported = match find_last(&items, id) {
        Some(o) => Some(Order { price: Some(price), ..o }),
        None => None,
    };
    proof {
        lemma_last_with_id_mapped(before, |o: Order| repriced(o, id, price), id);
        if last_with_id(before, id) is Some {
            lemma_last_with_id_carries(before, id);
        }
    }
    let change = |o: Order| -> (r: Order)
        ensures
            r == repriced(o, id, price),
        {
            if o.id == id {
                Order { price: Some(price), ..o }
            } else {
                o
            }
        };
    side.modify(change);
    proof {
        let images = choose|images: Seq<Order>|
            {
                &&& images.len() == before.len()
                &&& forall|i: int|
                    0 <= i < images.len() ==> call_ensures(
                        change,
                        (before[i],),
                        #[trigger] images[i],
                    )
                &&& side@ == sorted_by_priority(images)
            };
        assert forall|i: int| 0 <= i < before.len() implies images[i] == repriced(
            before[i],
            id,
            price,
        ) by {
            assert(call_ensures(change, (before[i],), images[i]));
        }
        assert(images =~= with_price_unsorted(before, id, price));
    }
    reported
}

/// The last order with an identifier carries it.
proof fn lemma_last_with_id_carries(s: Seq<Order>, id: u128)
    requires
        last_with_id(s, id) is Some,
    ensures
        last_with_id(s, id)->0.id == id,
    decreases s.len(),
{
    if s.len() > 0 && s.last().id != id {
        lemma_last_with_id_carries(s.drop_last(), id);
    }
}

impl Orderbook {
    /// The updates that the book has handed to its sender since it was
    /// made, in the order in which it handed them over.
    pub open spec fn emitted(&self) -> Seq<OrderbookUpdate> {
        self.tx@
    }

    /// Both sides are in good order: best first, bids among the bids and asks
    /// among the asks, each with quantity left and a price.
    pub open spec fn wf(&self) -> bool {
        &&& self.bids.wf()
        &&& self.asks.wf()
        &&& side_ok(self.bids@, OrderSide::Buy)
        &&& side_ok(self.asks@, OrderSide::Sell)
    }

    /// The book is `before` after a command with this outcome: the sides are
    /// those of the outcome, and its updates were emitted after all earlier
    /// ones, in their order.
    pub open spec fn follows(&self, before: &Orderbook, outcome: Outcome) -> bool {
        &&& self.symbol == before.symbol
        &&& self.tx.handle() == before.tx.handle()
        &&& self.bids@ == outcome.bids
        &&& self.asks@ == outcome.asks
        &&& self.emitted() == before.emitted() + outcome.events
    }

    /// The book is as `before`, and nothing was emitted.
    pub open spec fn same_as(&self, before: &Orderbook) -> bool {
        &&& self.symbol == before.symbol
        &&& self.tx.handle() == before.tx.handle()
        &&& self.bids@ == before.bids@
        &&& self.asks@ == before.asks@
        &&& self.emitted() == before.emitted()
    }

    /// An empty book for `symbol` that emits on `tx`.
    ///
    /// `tx` should be the sender of an unbounded channel. A command hands
    /// its updates to `tx` one by one before it returns; on a bounded
    /// channel that is full it waits for a receiver at each of them.
    pub fn new(symbol: u128, tx: Sender<OrderbookUpdate>) -> (book: Orderbook)
        ensures
            book.symbol == symbol,
            book.tx.handle() == tx,
            book.bids@ == Seq::<Order>::empty(),
            book.asks@ == Seq::<Order>::empty(),
            book.emitted() == Seq::<OrderbookUpdate>::empty(),
            book.wf(),
    {
        Orderbook {
            symbol,
            bids: ModifiableBinaryHeap::new(),
            asks: ModifiableBinaryHeap::new(),
            tx: UpdateSender::new(tx),
        }
    }

    /// Hands `update` to the sender and records it.
    fn emit(&mut self, update: OrderbookUpdate) -> (delivered: bool)
        ensures
            final(self).emitted() == old(self).emitted().push(update),
            final(self).bids == old(self).bids,
            final(self).asks == old(self).asks,
            final(self).symbol == old(self).symbol,
            final(self).tx.handle() == old(self).tx.handle(),
    {
        self.tx.send(update)
    }

    /// Takes the orders that carry `order_id` off `order_side` and reports a
    /// fill; says whether the channel took the update.
    fn fill(&mut self, order_id: u128, order_side: OrderSide) -> (delivered: bool)
        requires
            old(self).wf(),
        ensures
            final(self).wf(),
            final(self).follows(
                old(self),
                after_fill(
                    old(self).bids@,
                    old(self).asks@,
                    old(self).symbol,
                    order_id,
                    order_side,
                ),
            ),
    {
        proof {
            lemma_without_id(self.bids@, order_id);
            lemma_without_id(self.asks@, order_id);
        }
        match order_side {
            OrderSide::Buy => remove_from(&mut self.bids, order_id),
            OrderSide::Sell => remove_from(&mut self.asks, order_id),
        }
        let delivered = self.emit(OrderbookUpdate::new_filled(self.symbol, order_id));
        assert(final(self).emitted() =~= old(self).emitted() + seq![
            OrderbookUpdate::filled(old(self).symbol, order_id),
        ]);
        delivered
    }

    /// Gives `new_quantity` to the orders of `order_side` that carry
    /// `order_id` and reports the change; says whether the channel took the
    /// update.
    fn update(&mut self, order_id: u128, new_quantity: u64, order_side: OrderSide) -> (delivered:
        bool)
        requires
            old(self).wf(),
            new_quantity > 0,
        ensures
            final(self).wf(),
            final(self).follows(
                old(self),
                after_update(
                    old(self).bids@,
                    old(self).asks@,
                    old(self).symbol,
                    order_id,
                    new_quantity,
                    order_side,
                ),
            ),
    {
        proof {
            lemma_with_quantity_of(self.bids@, order_id, new_quantity);
            lemma_with_quantity_of(self.asks@, order_id, new_quantity);
        }
        let reported = match order_side {
            OrderSide::Buy => requantify(&mut self.bids, order_id, new_quantity),
            OrderSide::Sell => requantify(&mut self.asks, order_id, new_quantity),
        };
        let delivered = self.emit(OrderbookUpdate::new_changed(self.symbol, reported));
        assert(final(self).emitted() =~= old(self).emitted() + seq![
            OrderbookUpdate::changed(old(self).symbol, reported),
        ]);
        delivered
    }

    /// Cancels the orders of `order_side` that carry `order_id`. The
    /// cancellation is reported even when there is no such order.
    pub fn cancel_order(&mut self, order_id: u128, order_side: OrderSide) -> (r: Result<
        (),
        OrderbookError,
    >)
        requires
            old(self).wf(),
        ensures
            final(self).wf(),
            final(self).follows(
                old(self),
                after_cancel(
                    old(self).bids@,
                    old(self).asks@,
                    old(self).symbol,
                    order_id,
                    order_side,
                ),
            ),
            !crossing(old(self).bids@, old(self).asks@) ==> !crossing(
                final(self).bids@,
                final(self).asks@,
            ),
            OrderbookError::carried_out(r),
    {
        proof {
            if !crossing(self.bids@, self.asks@) {
                lemma_removal_keeps_uncrossed(
                    self.bids@,
                    self.asks@,
                    self.symbol,
                    order_id,
                    0,
                    order_side,
                );
            }
            lemma_without_id(self.bids@, order_id);
            lemma_without_id(self.asks@, order_id);
        }
        match order_side {
            OrderSide::Buy => remove_from(&mut self.bids, order_id),
            OrderSide::Sell => remove_from(&mut self.asks, order_id),
        }
        let delivered = self.emit(OrderbookUpdate::new_cancelled(self.symbol, order_id));
        assert(final(self).emitted() =~= old(self).emitted() + seq![
            OrderbookUpdate::cancelled(old(self).symbol, order_id),
        ]);
        OrderbookError::from_delivery(delivered)
    }

    /// Takes the orders of `order_side` that carry `order_id` off the book
    /// and reports them filled.
    pub fn order_filled(&mut self, order_id: u128, order_side: OrderSide) -> (r: Result<
        (),
        OrderbookError,
    >)
        requires
            old(self).wf(),
        ensures
            final(self).wf(),
            final(self).follows(
                old(self),
                after_fill(
                    old(self).bids@,
                    old(self).asks@,
                    old(self).symbol,
                    order_id,
                    order_side,
                ),
            ),
            !crossing(old(self).bids@, old(self).asks@) ==> !crossing(
                final(self).bids@,
                final(self).asks@,
            ),
            OrderbookError::carried_out(r),
    {
        proof {
            if !crossing(self.bids@, self.asks@) {
                lemma_removal_keeps_uncrossed(
                    self.bids@,
                    self.asks@,
                    self.symbol,
                    order_id,
                    0,
                    order_side,
                );
            }
        }
        let delivered = self.fill(order_id, order_side);
        OrderbookError::from_delivery(delivered)
    }

    /// Gives `new_quantity` to the orders of `order_side` that carry
    /// `order_id` and reports the last of them, or none. The book is not
    /// matched. A quantity of zero is refused and changes nothing.
    pub fn update_order(&mut self, order_id: u128, new_quantity: u64, order_side: OrderSide) -> (r:
        Result<(), OrderbookError>)
        requires
            old(self).wf(),
        ensures
            final(self).wf(),
            !crossing(old(self).bids@, old(self).asks@) ==> !crossing(
                final(self).bids@,
                final(self).asks@,
            ),
            new_quantity == 0 ==> r == Err::<(), OrderbookError>(OrderbookError::InvalidInput)
                && final(self).same_as(old(self)),
            new_quantity > 0 ==> final(self).follows(
                old(self),
                after_update(
                    old(self).bids@,
                    old(self).asks@,
                    old(self).symbol,
                    order_id,
                    new_quantity,
                    order_side,
                ),
            ) && OrderbookError::carried_out(r),
    {
        if new_quantity == 0 {
            return Err(OrderbookError::InvalidInput);
        }
        proof {
            if !crossing(self.bids@, self.asks@) {
                lemma_removal_keeps_uncrossed(
                    self.bids@,
                    self.asks@,
                    self.symbol,
                    order_id,
                    new_quantity,
                    order_side,
                );
            }
        }
        let delivered = self.update(order_id, new_quantity, order_side);
        OrderbookError::from_delivery(delivered)
    }
}

/// Whether a bid is at or above an ask.
fn crosses(bid: &Order, ask: &Order) -> (c: bool)
    ensures
        c == (price_rank(bid.price) >= price_rank(ask.price)),
{
    match bid.price {
        Some(b) => match ask.price {
            Some(a) => b >= a,
            None => true,
        },
        None => ask.price.is_none(),
    }
}

/// The limit price of an order, or 0 if it has none.
fn limit(order: &Order) -> (p: u64)
    ensures
        p == limit_of(*order),
{
    match order.price {
        Some(p) => p,
        None => 0,
    }
}

/// The orders that rest on `side`.
pub open spec fn side_of(bids: Seq<Order>, asks: Seq<Order>, side: OrderSide) -> Seq<Order> {
    match side {
        OrderSide::Buy => bids,
        OrderSide::Sell => asks,
    }
}

impl Orderbook {
    /// Matches the book: while the best bid is at or above the best ask, the
    /// two trade at the price of the ask. Afterwards the book does not cross.
    pub fn match_orders(&mut self) -> (r: Result<(), OrderbookError>)
        requires
            old(self).wf(),
        ensures
            final(self).wf(),
            final(self).follows(
                old(self),
                matched(old(self).bids@, old(self).asks@, old(self).symbol),
            ),
            !crossing(final(self).bids@, final(self).asks@),
            OrderbookError::carried_out(r),
            !crossing(old(self).bids@, old(self).asks@) ==> r == Ok::<(), OrderbookError>(()),
    {
        let delivered = self.run_matching();
        OrderbookError::from_delivery(delivered)
    }

    /// Matches the book and says whether the channel took every update.
    fn run_matching(&mut self) -> (delivered: bool)
        requires
            old(self).wf(),
        ensures
            final(self).wf(),
            final(self).follows(
                old(self),
                matched(old(self).bids@, old(self).asks@, old(self).symbol),
            ),
            !crossing(final(self).bids@, final(self).asks@),
            !crossing(old(self).bids@, old(self).asks@) ==> delivered,
    {
        let ghost bids0 = self.bids@;
        let ghost asks0 = self.asks@;
        let ghost log0 = self.emitted();
        let ghost symbol = self.symbol;
        let ghost mut events: Seq<OrderbookUpdate> = Seq::empty();
        let mut delivered = true;
        assert(log0 + events =~= log0);
        assert(events + matched(bids0, asks0, symbol).events =~= matched(
            bids0,
            asks0,
            symbol,
        ).events);
        loop
            invariant
                self.wf(),
                self.symbol == symbol,
                self.tx.handle() == old(self).tx.handle(),
                self.emitted() == log0 + events,
                events.len() == 0 ==> delivered,
                matched(bids0, asks0, symbol).bids == matched(self.bids@, self.asks@, symbol).bids,
                matched(bids0, asks0, symbol).asks == matched(self.bids@, self.asks@, symbol).asks,
                matched(bids0, asks0, symbol).events == events + matched(
                    self.bids@,
                    self.asks@,
                    symbol,
                ).events,
            ensures
                !crossing(self.bids@, self.asks@),
            decreases self.bids@.len() + self.asks@.len(),
        {
            let best_ask = self.asks.peek();
            let best_bid = self.bids.peek();
            if best_ask.is_none() || best_bid.is_none() {
                break ;
            }
            let ask = best_ask.unwrap();
            let bid = best_bid.unwrap();
            if !crosses(&bid, &ask) {
                break ;
            }
            let ghost bids1 = self.bids@;
            let ghost asks1 = self.asks@;
            let ghost log1 = self.emitted();
            proof {
                lemma_match_step_shrinks(bids1, asks1, symbol);
                assert(bid.side == OrderSide::Buy);
                assert(ask.side == OrderSide::Sell);
            }
            let price = limit(&ask);
            if ask.quantity > bid.quantity {
                let d1 = self.fill(bid.id, bid.side);
                let d2 = self.update(ask.id, ask.quantity - bid.quantity, ask.side);
                let trade = Trade::new_executed(
                    self.symbol,
                    bid.id,
                    ask.id,
                    bid.user_id,
                    ask.user_id,
                    price,
                    bid.quantity,
                );
                let d3 = self.emit(OrderbookUpdate::new_traded(self.symbol, trade));
                delivered = delivered && d1 && d2 && d3;
            } else if ask.quantity < bid.quantity {
                let d1 = self.fill(ask.id, ask.side);
                let d2 = self.update(bid.id, bid.quantity - ask.quantity, bid.side);
                let trade = Trade::new_executed(
                    self.symbol,
                    bid.id,
                    ask.id,
                    bid.user_id,
                    ask.user_id,
                    price,
                    ask.quantity,
                );
                let d3 = self.emit(OrderbookUpdate::new_traded(self.symbol, trade));
                delivered = delivered && d1 && d2 && d3;
            } else {
                let d1 = self.fill(ask.id, ask.side);
                let d2 = self.fill(bid.id, bid.side);
                let trade = Trade::new_executed(
                    self.symbol,
                    bid.id,
                    ask.id,
                    bid.user_id,
                    ask.user_id,
                    price,
                    ask.quantity,
                );
                let d3 = self.emit(OrderbookUpdate::new_traded(self.symbol, trade));
                delivered = delivered && d1 && d2 && d3;
            }
            proof {
                let step = match_step(bids1, asks1, symbol);
                assert(self.bids@ == step.bids);
                assert(self.asks@ == step.asks);
                assert(self.emitted() =~= log1 + step.events);
                let rest = matched(step.bids, step.asks, symbol);
                assert(matched(bids1, asks1, symbol).events == step.events + rest.events);
                assert(events + (step.events + rest.events) =~= (events + step.events)
                    + rest.events);
                assert(log0 + (events + step.events) =~= (log0 + events) + step.events);
                events = events + step.events;
            }
        }
        proof {
            assert(matched(self.bids@, self.asks@, symbol).events =~= Seq::<
                OrderbookUpdate,
            >::empty());
            assert(events + Seq::<OrderbookUpdate>::empty() =~= events);
        }
        delivered
    }

    /// Puts `order` on its side, reports it placed and matches the book.
    /// Says whether the channel took every update.
    fn place(&mut self, order: Order) -> (delivered: bool)
        requires
            old(self).wf(),
            order.restable(),
        ensures
            final(self).wf(),
            final(self).follows(
                old(self),
                after_place(old(self).bids@, old(self).asks@, old(self).symbol, order),
            ),
            !crossing(final(self).bids@, final(self).asks@),
    {
        proof {
            match order.side {
                OrderSide::Buy => lemma_insert_side_ok(self.bids@, order, OrderSide::Buy),
                OrderSide::Sell => lemma_insert_side_ok(self.asks@, order, OrderSide::Sell),
            }
        }
        match order.side {
            OrderSide::Buy => self.bids.push(order),
            OrderSide::Sell => self.asks.push(order),
        }
        let d1 = self.emit(OrderbookUpdate::new_placed(self.symbol, order));
        let ghost log1 = self.emitted();
        let ghost bids1 = self.bids@;
        let ghost asks1 = self.asks@;
        let d2 = self.run_matching();
        proof {
            let m = matched(bids1, asks1, self.symbol);
            let first = seq![OrderbookUpdate::placed(self.symbol, order)];
            assert(log1 =~= old(self).emitted() + first);
            assert((old(self).emitted() + first) + m.events =~= old(self).emitted() + (first
                + m.events));
        }
        d1 && d2
    }

    /// Places a limit order: it is put on its side and reported, then the
    /// book is matched. An order without quantity or without a price is
    /// refused and changes nothing.
    pub fn place_order(&mut self, order: Order) -> (r: Result<(), OrderbookError>)
        requires
            old(self).wf(),
        ensures
            final(self).wf(),
            !order.restable() ==> r == Err::<(), OrderbookError>(OrderbookError::InvalidInput)
                && final(self).same_as(old(self)),
            order.restable() ==> final(self).follows(
                old(self),
                after_place(old(self).bids@, old(self).asks@, old(self).symbol, order),
            ) && !crossing(final(self).bids@, final(self).asks@) && OrderbookError::carried_out(r),
    {
        if order.quantity == 0 || order.price.is_none() {
            return Err(OrderbookError::InvalidInput);
        }
        let delivered = self.place(order);
        OrderbookError::from_delivery(delivered)
    }

    /// Moves the orders of `order_side` that carry `order_id` to `new_price`,
    /// reports the last of them, or none, and matches the book.
    pub fn amend_order_price(&mut self, order_id: u128, new_price: u64, order_side: OrderSide) -> (r:
        Result<(), OrderbookError>)
        requires
            old(self).wf(),
        ensures
            final(self).wf(),
            final(self).follows(
                old(self),
                after_amend_price(
                    old(self).bids@,
                    old(self).asks@,
                    old(self).symbol,
                    order_id,
                    new_price,
                    order_side,
                ),
            ),
            !crossing(final(self).bids@, final(self).asks@),
            OrderbookError::carried_out(r),
    {
        proof {
            lemma_with_price_of(self.bids@, order_id, new_price, OrderSide::Buy);
            lemma_with_price_of(self.asks@, order_id, new_price, OrderSide::Sell);
        }
        let reported = match order_side {
            OrderSide::Buy => reprice(&mut self.bids, order_id, new_price),
            OrderSide::Sell => reprice(&mut self.asks, order_id, new_price),
        };
        let d1 = self.emit(OrderbookUpdate::new_changed(self.symbol, reported));
        let ghost log1 = self.emitted();
        let ghost bids1 = self.bids@;
        let ghost asks1 = self.asks@;
        let d2 = self.run_matching();
        proof {
            let m = matched(bids1, asks1, self.symbol);
            let first = seq![OrderbookUpdate::changed(self.symbol, reported)];
            assert(log1 =~= old(self).emitted() + first);
            assert((old(self).emitted() + first) + m.events =~= old(self).emitted() + (first
                + m.events));
        }
        OrderbookError::from_delivery(d1 && d2)
    }

    /// Gives `new_quantity` to the orders of `order_side` that carry
    /// `order_id`, reports the last of them, or none, and matches the book.
    /// A quantity of zero is refused and changes nothing.
    pub fn amend_order_quantity(
        &mut self,
        order_id: u128,
        new_quantity: u64,
        order_side: OrderSide,
    ) -> (r: Result<(), OrderbookError>)
        requires
            old(self).wf(),
        ensures
            final(self).wf(),
            new_quantity == 0 ==> r == Err::<(), OrderbookError>(OrderbookError::InvalidInput)
                && final(self).same_as(old(self)),
            new_quantity > 0 ==> final(self).follows(
                old(self),
                after_amend_quantity(
                    old(self).bids@,
                    old(self).asks@,
                    old(self).symbol,
                    order_id,
                    new_quantity,
                    order_side,
                ),
            ) && !crossing(final(self).bids@, final(self).asks@) && OrderbookError::carried_out(r),
    {
        if new_quantity == 0 {
            return Err(OrderbookError::InvalidInput);
        }
        let d1 = self.update(order_id, new_quantity, order_side);
        let ghost log1 = self.emitted();
        let ghost bids1 = self.bids@;
        let ghost asks1 = self.asks@;
        let d2 = self.run_matching();
        proof {
            let u = after_update(
                old(self).bids@,
                old(self).asks@,
                self.symbol,
                order_id,
                new_quantity,
                order_side,
            );
            let m = matched(bids1, asks1, self.symbol);
            assert((old(self).emitted() + u.events) + m.events =~= old(self).emitted() + (u.events
                + m.events));
        }
        OrderbookError::from_delivery(d1 && d2)
    }

    /// Runs a market order against the other side and says whether the
    /// channel took every update.
    fn sweep(&mut self, order: Order) -> (delivered: bool)
        requires
            old(self).wf(),
        ensures
            final(self).wf(),
            final(self).follows(
                old(self),
                after_market(old(self).bids@, old(self).asks@, old(self).symbol, order),
            ),
    {
        let ghost bids0 = self.bids@;
        let ghost asks0 = self.asks@;
        let ghost log0 = self.emitted();
        let ghost symbol = self.symbol;
        let ghost against = order.side.opposite();
        let ghost resting0 = side_of(bids0, asks0, against);
        let ghost mut events: Seq<OrderbookUpdate> = Seq::empty();
        let mut delivered = true;
        let mut quantity: u64 = order.quantity;
        assert(log0 + events =~= log0);
        assert(events + swept(resting0, order, quantity, symbol).1 =~= swept(
            resting0,
            order,
            quantity,
            symbol,
        ).1);
        while quantity > 0
            invariant
                self.wf(),
                self.symbol == symbol,
                self.tx.handle() == old(self).tx.handle(),
                against == order.side.opposite(),
                side_of(self.bids@, self.asks@, order.side) == side_of(bids0, asks0, order.side),
                self.emitted() == log0 + events,
                swept(resting0, order, order.quantity, symbol).0 == swept(
                    side_of(self.bids@, self.asks@, against),
                    order,
                    quantity,
                    symbol,
                ).0,
                swept(resting0, order, order.quantity, symbol).1 == events + swept(
                    side_of(self.bids@, self.asks@, against),
                    order,
                    quantity,
                    symbol,
                ).1,
            ensures
                quantity == 0 || side_of(self.bids@, self.asks@, against).len() == 0,
            decreases side_of(self.bids@, self.asks@, against).len(), quantity,
        {
            let best = match order.side {
                OrderSide::Buy => self.asks.peek(),
                OrderSide::Sell => self.bids.peek(),
            };
            if best.is_none() {
                break ;
            }
            let top = best.unwrap();
            let ghost resting1 = side_of(self.bids@, self.asks@, against);
            let ghost log1 = self.emitted();
            proof {
                assert(top == resting1[0]);
                assert(top.side == against);
                assert(has_id(resting1, top.id));
                lemma_without_id(resting1, top.id);
            }
            let price = limit(&top);
            let resting_side = match order.side {
                OrderSide::Buy => OrderSide::Sell,
                OrderSide::Sell => OrderSide::Buy,
            };
            if top.quantity <= quantity {
                let d1 = self.fill(top.id, resting_side);
                let trade = match order.side {
                    OrderSide::Buy => Trade::new_executed(
                        self.symbol,
                        order.id,
                        top.id,
                        order.user_id,
                        top.user_id,
                        price,
                        top.quantity,
                    ),
                    OrderSide::Sell => Trade::new_executed(
                        self.symbol,
                        top.id,
                        order.id,
                        top.user_id,
                        order.user_id,
                        price,
                        top.quantity,
                    ),
                };
                let d2 = self.emit(OrderbookUpdate::new_traded(self.symbol, trade));
                delivered = delivered && d1 && d2;
                proof {
                    let step = seq![
                        OrderbookUpdate::filled(symbol, top.id),
                        OrderbookUpdate::traded(
                            symbol,
                            sweep_trade(symbol, order, top, top.quantity),
                        ),
                    ];
                    let rest = swept(
                        without_id(resting1, top.id),
                        order,
                        (quantity - top.quantity) as u64,
                        symbol,
                    );
                    assert(self.emitted() =~= log1 + step);
                    assert(swept(resting1, order, quantity, symbol).1 == step + rest.1);
                    assert(events + (step + rest.1) =~= (events + step) + rest.1);
                    assert(log0 + (events + step) =~= (log0 + events) + step);
                    events = events + step;
                }
                quantity = quantity - top.quantity;
            } else {
                let d1 = self.update(top.id, top.quantity - quantity, resting_side);
                let trade = match order.side {
                    OrderSide::Buy => Trade::new_executed(
                        self.symbol,
                        order.id,
                        top.id,
                        order.user_id,
                        top.user_id,
                        price,
                        quantity,
                    ),
                    OrderSide::Sell => Trade::new_executed(
                        self.symbol,
                        top.id,
                        order.id,
                        top.user_id,
                        order.user_id,
                        price,
                        quantity,
                    ),
                };
                let d2 = self.emit(OrderbookUpdate::new_traded(self.symbol, trade));
                delivered = delivered && d1 && d2;
                proof {
                    let left = with_quantity_of(
                        resting1,
                        top.id,
                        (top.quantity - quantity) as u64,
                    );
                    let step = seq![
                        OrderbookUpdate::changed(symbol, last_with_id(left, top.id)),
                        OrderbookUpdate::traded(symbol, sweep_trade(symbol, order, top, quantity)),
                    ];
                    assert(self.emitted() =~= log1 + step);
                    assert(swept(resting1, order, quantity, symbol).1 == step);
                    assert(swept(left, order, 0, symbol).1 =~= Seq::<OrderbookUpdate>::empty());
                    assert(log0 + (events + step) =~= (log0 + events) + step);
                    events = events + step;
                    assert(events + Seq::<OrderbookUpdate>::empty() =~= events);
                }
                quantity = 0;
            }
        }
        proof {
            let rest = swept(side_of(self.bids@, self.asks@, against), order, quantity, symbol);
            assert(rest.1 =~= Seq::<OrderbookUpdate>::empty());
            assert(events + Seq::<OrderbookUpdate>::empty() =~= events);
        }
        delivered
    }

    /// Takes an order in: it is reported as new; a limit order is then
    /// placed, a market order run against the other side, where what cannot
    /// be filled is dropped. An order without quantity, or a limit order
    /// without a price, is refused and changes nothing.
    pub fn add_order(&mut self, order: Order) -> (r: Result<(), OrderbookError>)
        requires
            old(self).wf(),
        ensures
            final(self).wf(),
            !order.acceptable() ==> r == Err::<(), OrderbookError>(OrderbookError::InvalidInput)
                && final(self).same_as(old(self)),
            order.acceptable() ==> final(self).follows(
                old(self),
                after_add(old(self).bids@, old(self).asks@, old(self).symbol, order),
            ) && OrderbookError::carried_out(r),
            !crossing(old(self).bids@, old(self).asks@) ==> !crossing(
                final(self).bids@,
                final(self).asks@,
            ),
            order.acceptable() && order.order_type == OrderType::Limit ==> !crossing(
                final(self).bids@,
                final(self).asks@,
            ),
    {
        if !order.is_acceptable() {
            return Err(OrderbookError::InvalidInput);
        }
        proof {
            if !crossing(self.bids@, self.asks@) {
                lemma_market_keeps_uncrossed(self.bids@, self.asks@, self.symbol, order);
            }
        }
        let d1 = self.emit(OrderbookUpdate::new_submitted(self.symbol, order));
        let ghost log1 = self.emitted();
        let ghost first = seq![OrderbookUpdate::submitted(self.symbol, order)];
        assert(log1 =~= old(self).emitted() + first);
        let d2 = match order.order_type {
            OrderType::Limit => self.place(order),
            OrderType::Market => self.sweep(order),
        };
        proof {
            let next = match order.order_type {
                OrderType::Limit => after_place(
                    old(self).bids@,
                    old(self).asks@,
                    self.symbol,
                    order,
                ),
                OrderType::Market => after_market(
                    old(self).bids@,
                    old(self).asks@,
                    self.symbol,
                    order,
                ),
            };
            assert((old(self).emitted() + first) + next.events =~= old(self).emitted() + (first
                + next.events));
        }
        OrderbookError::from_delivery(d1 && d2)
    }
}

impl Orderbook {
    /// The lines of both sides and the mid price. The asks come best first
    /// with running totals from the best ask on; the bids come best first
    /// with running totals from the worst bid on.
    pub fn summarize_orderbook_per_price_level(&self) -> (summary: (Vec<Level>, u64, Vec<Level>))
        ensures
            summary.0@ == levels(self.bids@.reverse()).reverse(),
            summary.1 == mid_price(self.bids@, self.asks@),
            summary.2@ == levels(self.asks@),
    {
        let asks = levels_of(&self.asks.into_vec());
        let worst_first = worst_to_best(&self.bids.iter_sorted());
        let bids = reversed(&levels_of(&worst_first));
        (bids, self.get_mid_price(), asks)
    }

    /// The mean of the best bid and the best ask, rounded down; 0 when a side
    /// is empty.
    pub fn get_mid_price(&self) -> (mid: u64)
        ensures
            mid == mid_price(self.bids@, self.asks@),
    {
        let bid = self.bids.peek();
        let ask = self.asks.peek();
        match bid {
            Some(bid) => match ask {
                Some(ask) => ((limit(&bid) as u128 + limit(&ask) as u128) / 2) as u64,
                None => 0,
            },
            None => 0,
        }
    }
}

/// Whether every order of `items` is on `side`, with quantity left and a
/// price.
fn all_rest_on(items: &Vec<Order>, side: OrderSide) -> (ok: bool)
    ensures
        ok == (forall|i: int|
            0 <= i < items@.len() ==> (#[trigger] items@[i]).side == side && items@[i].restable()),
{
    let n: usize = items.len();
    let mut i: usize = 0;
    while i < n
        invariant
            i <= n,
            n == items.len(),
            forall|j: int| 0 <= j < i ==> (#[trigger] items@[j]).side == side && items@[j].restable(),
        decreases n - i,
    {
        let order: Order = items[i];
        if order.side != side || order.quantity == 0 || order.price.is_none() {
            return false;
        }
        i += 1;
    }
    true
}

impl Orderbook {
    /// Whether the best bid is at or above the best ask.
    pub fn is_crossing(&self) -> (crossed: bool)
        ensures
            crossed == crossing(self.bids@, self.asks@),
    {
        match self.bids.peek() {
            Some(bid) => match self.asks.peek() {
                Some(ask) => crosses(&bid, &ask),
                None => false,
            },
            None => false,
        }
    }

    /// Whether both sides are in good order. A book that was made by `new`
    /// and changed through its commands always is; a caller that has put
    /// orders on a side by hand can ask before it gives a command.
    pub fn is_wf(&self) -> (ok: bool)
        ensures
            ok == self.wf(),
    {
        self.bids.is_wf() && self.asks.is_wf() && all_rest_on(
            &self.bids.into_vec(),
            OrderSide::Buy,
        ) && all_rest_on(&self.asks.into_vec(), OrderSide::Sell)
    }
}

} // verus!
