//! What holds of every book: laws about the commands, over their
//! definitions.

use vstd::prelude::*;
use crate::enums::side::OrderSide;
use crate::heap::{
    is_sorted,
    lemma_sorted_is_fixed,
    lemma_sorted_keeps_all,
    sorted_by_priority,
};
use crate::structs::matching::{
    after_amend_price,
    after_cancel,
    crossing,
    lemma_matched,
    lemma_matched_keeps,
    lemma_with_price_of,
    lemma_without_id,
    limit_of,
    match_step,
    match_trade,
    matched,
    side_ok,
    with_price_of,
    with_price_unsorted,
    without_id,
};
use crate::structs::order::Order;
use crate::structs::orderbook::{side_of, Orderbook};
use crate::structs::orderbook_update::OrderbookUpdate;

verus! {

/// Every order that rests on a book in good order has quantity left.
pub proof fn lemma_resting_orders_have_quantity(book: Orderbook, side: OrderSide, i: int)
    requires
        book.wf(),
        0 <= i < side_of(book.bids@, book.asks@, side).len(),
    ensures
        side_of(book.bids@, book.asks@, side)[i].quantity > 0,
{
}

/// After matching, a side is empty or the best bid is below the best ask.
pub proof fn lemma_matched_book_does_not_cross(bids: Seq<Order>, asks: Seq<Order>, symbol: u128)
    requires
        side_ok(bids, OrderSide::Buy),
        side_ok(asks, OrderSide::Sell),
    ensures
        ({
            let after = matched(bids, asks, symbol);
            after.bids.len() == 0 || after.asks.len() == 0 || limit_of(after.bids[0]) < limit_of(
                after.asks[0],
            )
        }),
{
    lemma_matched(bids, asks, symbol);
}

/// Cancelling the same identifier a second time changes nothing on the book;
/// it only reports the cancellation again.
pub proof fn lemma_cancel_twice(
    bids: Seq<Order>,
    asks: Seq<Order>,
    symbol: u128,
    id: u128,
    side: OrderSide,
)
    ensures
        ({
            let once = after_cancel(bids, asks, symbol, id, side);
            let twice = after_cancel(once.bids, once.asks, symbol, id, side);
            &&& twice.bids == once.bids
            &&& twice.asks == once.asks
            &&& twice.events == seq![OrderbookUpdate::cancelled(symbol, id)]
        }),
{
    lemma_without_id(bids, id);
    lemma_without_id(asks, id);
    lemma_without_id(without_id(bids, id), id);
    lemma_without_id(without_id(asks, id), id);
}

/// The test that an order that carries `id` stands at `price`.
pub open spec fn priced_if_carries(id: u128, price: u64) -> spec_fn(Order) -> bool {
    |o: Order| o.id == id ==> o.price == Some(price)
}

/// A side on which every order that carries `id` stands at `price` is left
/// as it is when those orders are moved to `price`.
proof fn lemma_reprice_is_idle(s: Seq<Order>, id: u128, price: u64)
    requires
        is_sorted(s),
        forall|i: int| 0 <= i < s.len() ==> priced_if_carries(id, price)(#[trigger] s[i]),
    ensures
        with_price_unsorted(s, id, price) == s,
        with_price_of(s, id, price) == s,
{
    let moved = with_price_unsorted(s, id, price);
    assert forall|i: int| 0 <= i < s.len() implies moved[i] == s[i] by {
        assert(priced_if_carries(id, price)(s[i]));
    }
    assert(moved =~= s);
    lemma_sorted_is_fixed(s);
}

/// Amending the price of the same identifier to the same price a second time
/// changes nothing on the book.
pub proof fn lemma_amend_price_twice(
    bids: Seq<Order>,
    asks: Seq<Order>,
    symbol: u128,
    id: u128,
    price: u64,
    side: OrderSide,
)
    requires
        side_ok(bids, OrderSide::Buy),
        side_ok(asks, OrderSide::Sell),
    ensures
        ({
            let once = after_amend_price(bids, asks, symbol, id, price, side);
            let twice = after_amend_price(once.bids, once.asks, symbol, id, price, side);
            &&& twice.bids == once.bids
            &&& twice.asks == once.asks
        }),
{
    let pred = priced_if_carries(id, price);
    let once = after_amend_price(bids, asks, symbol, id, price, side);
    assert forall|o: Order, q: u64| pred(o) implies #[trigger] pred(o.with_quantity(q)) by {}
    match side {
        OrderSide::Buy => {
            let moved = with_price_unsorted(bids, id, price);
            assert forall|i: int| 0 <= i < moved.len() implies pred(#[trigger] moved[i]) by {}
            lemma_sorted_keeps_all(moved, pred);
            lemma_with_price_of(bids, id, price, OrderSide::Buy);
            let sorted = sorted_by_priority(moved);
            lemma_matched_keeps(sorted, asks, symbol, pred);
            lemma_matched(sorted, asks, symbol);
            lemma_reprice_is_idle(once.bids, id, price);
        },
        OrderSide::Sell => {
            let moved = with_price_unsorted(asks, id, price);
            assert forall|i: int| 0 <= i < moved.len() implies pred(#[trigger] moved[i]) by {}
            lemma_sorted_keeps_all(moved, pred);
            lemma_with_price_of(asks, id, price, OrderSide::Sell);
            let sorted = sorted_by_priority(moved);
            lemma_matched_keeps(bids, sorted, symbol, pred);
            lemma_matched(bids, sorted, symbol);
            lemma_reprice_is_idle(once.asks, id, price);
        },
    }
}

/// The test that an order is an order of `s` with, at most, another
/// quantity left.
pub open spec fn from_side(s: Seq<Order>) -> spec_fn(Order) -> bool {
    |o: Order| exists|i: int| 0 <= i < s.len() && (#[trigger] s[i]).with_quantity(o.quantity) == o
}

/// Matching adds no order and changes nothing of an order but the quantity
/// that is left: every order that rests afterwards rested before, on the
/// same side, with every other field as it was.
pub proof fn lemma_matching_changes_quantities_only(
    bids: Seq<Order>,
    asks: Seq<Order>,
    symbol: u128,
)
    ensures
        forall|k: int|
            0 <= k < matched(bids, asks, symbol).bids.len() ==> from_side(bids)(
                #[trigger] matched(bids, asks, symbol).bids[k],
            ),
        forall|k: int|
            0 <= k < matched(bids, asks, symbol).asks.len() ==> from_side(asks)(
                #[trigger] matched(bids, asks, symbol).asks[k],
            ),
{
    let of_bids = from_side(bids);
    assert forall|o: Order, q: u64| of_bids(o) implies #[trigger] of_bids(o.with_quantity(q)) by {
        let i = choose|i: int|
            0 <= i < bids.len() && (#[trigger] bids[i]).with_quantity(o.quantity) == o;
        assert(bids[i].with_quantity(q) == o.with_quantity(q));
    }
    assert forall|i: int| 0 <= i < bids.len() implies of_bids(#[trigger] bids[i]) by {
        assert(bids[i].with_quantity(bids[i].quantity) == bids[i]);
    }
    lemma_matched_keeps(bids, asks, symbol, of_bids);
    let of_asks = from_side(asks);
    assert forall|o: Order, q: u64| of_asks(o) implies #[trigger] of_asks(o.with_quantity(q)) by {
        let i = choose|i: int|
            0 <= i < asks.len() && (#[trigger] asks[i]).with_quantity(o.quantity) == o;
        assert(asks[i].with_quantity(q) == o.with_quantity(q));
    }
    assert forall|i: int| 0 <= i < asks.len() implies of_asks(#[trigger] asks[i]) by {
        assert(asks[i].with_quantity(asks[i].quantity) == asks[i]);
    }
    lemma_matched_keeps(bids, asks, symbol, of_asks);
}

/// On a book that crosses, the first trade is between the best bid and the
/// best ask, for the smaller of their quantities, at the price of the ask;
/// it is the third update, after the fill and the change or second fill.
/// The trades that follow are the first trades of the book that each round
/// leaves.
pub proof fn lemma_trade_pairs_the_best(bids: Seq<Order>, asks: Seq<Order>, symbol: u128)
    requires
        crossing(bids, asks),
    ensures
        matched(bids, asks, symbol).events.len() >= 3,
        matched(bids, asks, symbol).events[2] == OrderbookUpdate::traded(
            symbol,
            match_trade(symbol, bids[0], asks[0]),
        ),
        matched(bids, asks, symbol).events == match_step(bids, asks, symbol).events + matched(
            match_step(bids, asks, symbol).bids,
            match_step(bids, asks, symbol).asks,
            symbol,
        ).events,
{
    let step = match_step(bids, asks, symbol);
    assert(step.events.len() == 3);
    assert(step.events[2] == OrderbookUpdate::traded(
        symbol,
        match_trade(symbol, bids[0], asks[0]),
    ));
}

} // verus!
