//! The end of an order's life: whenever the orders that carry an identifier
//! leave a side, the command that took them off reports it exactly once.

use vstd::prelude::*;
use crate::enums::order_type::OrderType;
use crate::enums::side::OrderSide;
use crate::structs::matching::{
    after_add,
    after_amend_price,
    after_amend_quantity,
    after_cancel,
    after_market,
    after_update,
    crossing,
    has_id,
    last_with_id,
    lemma_match_step_shrinks,
    lemma_with_quantity_of,
    lemma_without_id,
    match_step,
    match_trade,
    matched,
    rested,
    sweep_trade,
    swept,
    with_price_of,
    with_price_unsorted,
    with_quantity_of,
    without_id,
};
use crate::structs::order::Order;
use crate::structs::orderbook_update::OrderbookUpdate;

verus! {

/// The test that an update ends the life of an order that carries `id`.
pub open spec fn ending(id: u128) -> spec_fn(OrderbookUpdate) -> bool {
    |u: OrderbookUpdate| u.ends(id)
}

/// How many of the updates report a cancellation or a fill of `id`.
pub open spec fn ends_count(events: Seq<OrderbookUpdate>, id: u128) -> nat {
    events.filter(ending(id)).len()
}

/// 1 if `id` rested on the side before and does not rest on it after, else 0.
pub open spec fn left(before: Seq<Order>, after: Seq<Order>, id: u128) -> nat {
    if has_id(before, id) && !has_id(after, id) {
        1
    } else {
        0
    }
}

/// The count over two runs of updates is the sum of the counts.
pub proof fn lemma_ends_count_add(a: Seq<OrderbookUpdate>, b: Seq<OrderbookUpdate>, id: u128)
    ensures
        ends_count(a + b, id) == ends_count(a, id) + ends_count(b, id),
{
    Seq::filter_distributes_over_add(a, b, ending(id));
}

/// No update, no end.
pub proof fn lemma_ends_count_none(id: u128)
    ensures
        ends_count(Seq::empty(), id) == 0,
{
    reveal_with_fuel(Seq::filter, 1);
    assert(Seq::<OrderbookUpdate>::empty().filter(ending(id)).len() == 0);
}

/// The count over one update is 1 if it ends `id`, else 0.
pub proof fn lemma_ends_count_one(u: OrderbookUpdate, id: u128)
    ensures
        ends_count(seq![u], id) == (if u.ends(id) {
            1nat
        } else {
            0nat
        }),
{
    reveal_with_fuel(Seq::filter, 2);
    let s = seq![u];
    assert(s.drop_last() =~= Seq::<OrderbookUpdate>::empty());
    assert(s.last() == u);
    assert(Seq::<OrderbookUpdate>::empty().filter(ending(id)).len() == 0);
}

/// The count over three updates.
proof fn lemma_ends_count_three(a: OrderbookUpdate, b: OrderbookUpdate, c: OrderbookUpdate, id: u128)
    ensures
        ends_count(seq![a, b, c], id) == ends_count(seq![a], id) + ends_count(seq![b], id)
            + ends_count(seq![c], id),
{
    assert(seq![a, b, c] =~= (seq![a] + seq![b]) + seq![c]);
    lemma_ends_count_add(seq![a] + seq![b], seq![c], id);
    lemma_ends_count_add(seq![a], seq![b], id);
}

/// The count over two updates.
proof fn lemma_ends_count_two(a: OrderbookUpdate, b: OrderbookUpdate, id: u128)
    ensures
        ends_count(seq![a, b], id) == ends_count(seq![a], id) + ends_count(seq![b], id),
{
    assert(seq![a, b] =~= seq![a] + seq![b]);
    lemma_ends_count_add(seq![a], seq![b], id);
}

/// Matching brings no identifier onto a side.
pub proof fn lemma_matched_ids(bids: Seq<Order>, asks: Seq<Order>, symbol: u128, id: u128)
    ensures
        has_id(matched(bids, asks, symbol).bids, id) ==> has_id(bids, id),
        has_id(matched(bids, asks, symbol).asks, id) ==> has_id(asks, id),
    decreases bids.len() + asks.len(),
{
    if crossing(bids, asks) {
        lemma_match_step_shrinks(bids, asks, symbol);
        let step = match_step(bids, asks, symbol);
        let bid = bids[0];
        let ask = asks[0];
        lemma_without_id(bids, bid.id);
        lemma_without_id(asks, ask.id);
        lemma_with_quantity_of(asks, ask.id, (ask.quantity - bid.quantity) as u64);
        lemma_with_quantity_of(bids, bid.id, (bid.quantity - ask.quantity) as u64);
        lemma_matched_ids(step.bids, step.asks, symbol, id);
    }
}

/// A market order brings no identifier onto the side it runs against.
pub proof fn lemma_swept_ids(resting: Seq<Order>, taker: Order, remaining: u64, symbol: u128, id: u128)
    ensures
        has_id(swept(resting, taker, remaining, symbol).0, id) ==> has_id(resting, id),
    decreases resting.len(),
{
    if remaining == 0 || resting.len() == 0 {
    } else {
        let top = resting[0];
        assert(has_id(resting, top.id));
        lemma_without_id(resting, top.id);
        if top.quantity <= remaining {
            lemma_swept_ids(
                without_id(resting, top.id),
                taker,
                (remaining - top.quantity) as u64,
                symbol,
                id,
            );
        } else {
            lemma_with_quantity_of(resting, top.id, (top.quantity - remaining) as u64);
        }
    }
}

/// Matching reports the end of `id` once for each side that `id` leaves, and
/// never otherwise.
pub proof fn lemma_matched_ends_each_life_once(
    bids: Seq<Order>,
    asks: Seq<Order>,
    symbol: u128,
    id: u128,
)
    ensures
        ends_count(matched(bids, asks, symbol).events, id) == left(
            bids,
            matched(bids, asks, symbol).bids,
            id,
        ) + left(asks, matched(bids, asks, symbol).asks, id),
    decreases bids.len() + asks.len(),
{
    if !crossing(bids, asks) {
        lemma_ends_count_none(id);
    } else {
        lemma_match_step_shrinks(bids, asks, symbol);
        let step = match_step(bids, asks, symbol);
        let rest = matched(step.bids, step.asks, symbol);
        let bid = bids[0];
        let ask = asks[0];
        assert(has_id(bids, bid.id));
        assert(has_id(asks, ask.id));
        lemma_without_id(bids, bid.id);
        lemma_without_id(asks, ask.id);
        lemma_with_quantity_of(asks, ask.id, (ask.quantity - bid.quantity) as u64);
        lemma_with_quantity_of(bids, bid.id, (bid.quantity - ask.quantity) as u64);
        lemma_matched_ids(step.bids, step.asks, symbol, id);
        lemma_matched_ends_each_life_once(step.bids, step.asks, symbol, id);
        lemma_ends_count_add(step.events, rest.events, id);
        let trade = OrderbookUpdate::traded(symbol, match_trade(symbol, bid, ask));
        let fill_bid = OrderbookUpdate::filled(symbol, bid.id);
        let fill_ask = OrderbookUpdate::filled(symbol, ask.id);
        lemma_ends_count_one(trade, id);
        lemma_ends_count_one(fill_bid, id);
        lemma_ends_count_one(fill_ask, id);
        if ask.quantity > bid.quantity {
            let change = OrderbookUpdate::changed(symbol, last_with_id(step.asks, ask.id));
            lemma_ends_count_one(change, id);
            lemma_ends_count_three(fill_bid, change, trade, id);
        } else if ask.quantity < bid.quantity {
            let change = OrderbookUpdate::changed(symbol, last_with_id(step.bids, bid.id));
            lemma_ends_count_one(change, id);
            lemma_ends_count_three(fill_ask, change, trade, id);
        } else {
            lemma_ends_count_three(fill_ask, fill_bid, trade, id);
        }
    }
}

/// A market order reports the end of `id` once if `id` leaves the side it
/// runs against, and never otherwise.
pub proof fn lemma_swept_ends_each_life_once(
    resting: Seq<Order>,
    taker: Order,
    remaining: u64,
    symbol: u128,
    id: u128,
)
    ensures
        ends_count(swept(resting, taker, remaining, symbol).1, id) == left(
            resting,
            swept(resting, taker, remaining, symbol).0,
            id,
        ),
    decreases resting.len(),
{
    if remaining == 0 || resting.len() == 0 {
        lemma_ends_count_none(id);
    } else {
        let top = resting[0];
        assert(has_id(resting, top.id));
        lemma_without_id(resting, top.id);
        if top.quantity <= remaining {
            let next = without_id(resting, top.id);
            let left_over = (remaining - top.quantity) as u64;
            let rest = swept(next, taker, left_over, symbol);
            lemma_swept_ids(next, taker, left_over, symbol, id);
            lemma_swept_ends_each_life_once(next, taker, left_over, symbol, id);
            let fill = OrderbookUpdate::filled(symbol, top.id);
            let trade = OrderbookUpdate::traded(
                symbol,
                sweep_trade(symbol, taker, top, top.quantity),
            );
            lemma_ends_count_one(fill, id);
            lemma_ends_count_one(trade, id);
            lemma_ends_count_two(fill, trade, id);
            lemma_ends_count_add(seq![fill, trade], rest.1, id);
        } else {
            let next = with_quantity_of(resting, top.id, (top.quantity - remaining) as u64);
            lemma_with_quantity_of(resting, top.id, (top.quantity - remaining) as u64);
            let change = OrderbookUpdate::changed(symbol, last_with_id(next, top.id));
            let trade = OrderbookUpdate::traded(symbol, sweep_trade(symbol, taker, top, remaining));
            lemma_ends_count_one(change, id);
            lemma_ends_count_one(trade, id);
            lemma_ends_count_two(change, trade, id);
        }
    }
}

/// A cancellation reports the end of the cancelled identifier exactly once,
/// and of no other.
pub proof fn lemma_cancel_ends_one_life(
    bids: Seq<Order>,
    asks: Seq<Order>,
    symbol: u128,
    id: u128,
    side: OrderSide,
    other: u128,
)
    ensures
        ends_count(after_cancel(bids, asks, symbol, id, side).events, id) == 1,
        other != id ==> ends_count(after_cancel(bids, asks, symbol, id, side).events, other) == 0,
        !has_id(after_cancel(bids, asks, symbol, id, side).bids, id) || side != OrderSide::Buy,
        !has_id(after_cancel(bids, asks, symbol, id, side).asks, id) || side != OrderSide::Sell,
{
    lemma_ends_count_one(OrderbookUpdate::cancelled(symbol, id), id);
    lemma_ends_count_one(OrderbookUpdate::cancelled(symbol, id), other);
    lemma_without_id(bids, id);
    lemma_without_id(asks, id);
}

/// Taking an order in reports the end of `id` once for each side that `id`
/// leaves, and never otherwise. For a limit order the sides are taken with
/// the order already on its side, so that an order that is filled on entry
/// counts as having rested.
pub proof fn lemma_add_ends_each_life_once(
    bids: Seq<Order>,
    asks: Seq<Order>,
    symbol: u128,
    order: Order,
    id: u128,
)
    ensures
        ({
            let after = after_add(bids, asks, symbol, order);
            let start = match order.order_type {
                OrderType::Limit => rested(bids, asks, order),
                OrderType::Market => (bids, asks),
            };
            ends_count(after.events, id) == left(start.0, after.bids, id) + left(
                start.1,
                after.asks,
                id,
            )
        }),
{
    let new = OrderbookUpdate::submitted(symbol, order);
    lemma_ends_count_one(new, id);
    match order.order_type {
        OrderType::Limit => {
            let sides = rested(bids, asks, order);
            let m = matched(sides.0, sides.1, symbol);
            let place = OrderbookUpdate::placed(symbol, order);
            lemma_ends_count_one(place, id);
            lemma_matched_ends_each_life_once(sides.0, sides.1, symbol, id);
            lemma_ends_count_add(seq![place], m.events, id);
            lemma_ends_count_add(seq![new], seq![place] + m.events, id);
        },
        OrderType::Market => {
            let next = after_market(bids, asks, symbol, order);
            match order.side {
                OrderSide::Buy => {
                    lemma_swept_ends_each_life_once(asks, order, order.quantity, symbol, id);
                },
                OrderSide::Sell => {
                    lemma_swept_ends_each_life_once(bids, order, order.quantity, symbol, id);
                },
            }
            lemma_ends_count_add(seq![new], next.events, id);
        },
    }
}

/// Amending a price or a quantity reports the end of `id` once for each side
/// that `id` leaves in the matching that follows, and never otherwise. The
/// sides are taken as the amendment leaves them, before they are matched.
pub proof fn lemma_amend_ends_each_life_once(
    bids: Seq<Order>,
    asks: Seq<Order>,
    symbol: u128,
    target: u128,
    price: u64,
    quantity: u64,
    side: OrderSide,
    id: u128,
)
    ensures
        ({
            let after = after_amend_price(bids, asks, symbol, target, price, side);
            let start = match side {
                OrderSide::Buy => (with_price_of(bids, target, price), asks),
                OrderSide::Sell => (bids, with_price_of(asks, target, price)),
            };
            ends_count(after.events, id) == left(start.0, after.bids, id) + left(
                start.1,
                after.asks,
                id,
            )
        }),
        ({
            let after = after_amend_quantity(bids, asks, symbol, target, quantity, side);
            let start = after_update(bids, asks, symbol, target, quantity, side);
            ends_count(after.events, id) == left(start.bids, after.bids, id) + left(
                start.asks,
                after.asks,
                id,
            )
        }),
{
    let moved = match side {
        OrderSide::Buy => with_price_unsorted(bids, target, price),
        OrderSide::Sell => with_price_unsorted(asks, target, price),
    };
    let repriced = OrderbookUpdate::changed(symbol, last_with_id(moved, target));
    let start = match side {
        OrderSide::Buy => (with_price_of(bids, target, price), asks),
        OrderSide::Sell => (bids, with_price_of(asks, target, price)),
    };
    lemma_ends_count_one(repriced, id);
    lemma_matched_ends_each_life_once(start.0, start.1, symbol, id);
    lemma_ends_count_add(seq![repriced], matched(start.0, start.1, symbol).events, id);

    let updated = after_update(bids, asks, symbol, target, quantity, side);
    let changed = updated.events[0];
    assert(updated.events =~= seq![changed]);
    lemma_ends_count_one(changed, id);
    lemma_matched_ends_each_life_once(updated.bids, updated.asks, symbol, id);
    lemma_ends_count_add(updated.events, matched(updated.bids, updated.asks, symbol).events, id);
}

} // verus!
