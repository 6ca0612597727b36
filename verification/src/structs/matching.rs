//! The book as mathematics: what each command does to the two sides of a
//! book, and which updates it emits, in which order.
//!
//! A side is a sequence of orders, best first. Orders are addressed by their
//! identifier; nothing keeps two orders from sharing one, and a command that
//! names an identifier acts on every order of the side that carries it.

use vstd::prelude::*;
use crate::enums::order_type::OrderType;
use crate::enums::side::OrderSide;
use crate::heap::{
    insert_by_priority,
    insertion_point,
    is_sorted,
    lemma_insert_keeps_sorted,
    lemma_insertion_point,
    lemma_select_is_filter,
    lemma_select_keeps_sorted,
    lemma_select_sources,
    lemma_sorted_by_priority,
    lemma_sorted_is_fixed,
    lemma_sorted_keeps_all,
    select,
    sorted_by_priority,
    Prioritized,
};
use crate::structs::order::{price_rank, Order};
use crate::structs::orderbook_update::OrderbookUpdate;
use crate::structs::trade::Trade;

verus! {

/// The two sides of a book after a command, and the updates it emitted.
pub struct Outcome {
    pub bids: Seq<Order>,
    pub asks: Seq<Order>,
    pub events: Seq<OrderbookUpdate>,
}

/// A side in good order: best first, every order on `side`, with quantity
/// left and a price.
pub open spec fn side_ok(s: Seq<Order>, side: OrderSide) -> bool {
    &&& is_sorted(s)
    &&& forall|i: int| 0 <= i < s.len() ==> (#[trigger] s[i]).side == side && s[i].restable()
}

/// The test that an order does not carry `id`.
pub open spec fn differs_from(id: u128) -> spec_fn(Order) -> bool {
    |o: Order| o.id != id
}

/// The side without the orders that carry `id`.
pub open spec fn without_id(s: Seq<Order>, id: u128) -> Seq<Order> {
    s.filter(differs_from(id))
}

/// The order with `quantity` left if it carries `id`, else unchanged.
pub open spec fn requantified(o: Order, id: u128, quantity: u64) -> Order {
    if o.id == id {
        o.with_quantity(quantity)
    } else {
        o
    }
}

/// The order at `price` if it carries `id`, else unchanged.
pub open spec fn repriced(o: Order, id: u128, price: u64) -> Order {
    if o.id == id {
        o.with_price(price)
    } else {
        o
    }
}

/// The side with `quantity` left on the orders that carry `id`.
pub open spec fn with_quantity_of(s: Seq<Order>, id: u128, quantity: u64) -> Seq<Order> {
    s.map_values(|o: Order| requantified(o, id, quantity))
}

/// The orders of the side, those that carry `id` moved to `price`, each still
/// at its old place.
pub open spec fn with_price_unsorted(s: Seq<Order>, id: u128, price: u64) -> Seq<Order> {
    s.map_values(|o: Order| repriced(o, id, price))
}

/// The side with the orders that carry `id` moved to `price`, in order again.
pub open spec fn with_price_of(s: Seq<Order>, id: u128, price: u64) -> Seq<Order> {
    sorted_by_priority(with_price_unsorted(s, id, price))
}

/// The last order of the sequence that carries `id`, if any does.
pub open spec fn last_with_id(s: Seq<Order>, id: u128) -> Option<Order>
    decreases s.len(),
{
    if s.len() == 0 {
        None
    } else if s.last().id == id {
        Some(s.last())
    } else {
        last_with_id(s.drop_last(), id)
    }
}

/// Some order of the sequence carries `id`.
pub open spec fn has_id(s: Seq<Order>, id: u128) -> bool {
    exists|i: int| 0 <= i < s.len() && (#[trigger] s[i]).id == id
}

/// No two orders of the sequence share an identifier.
pub open spec fn distinct_ids(s: Seq<Order>) -> bool {
    forall|i: int, j: int| 0 <= i < j < s.len() ==> (#[trigger] s[i]).id != (#[trigger] s[j]).id
}

/// The quantity left on all orders of the sequence together.
pub open spec fn total_quantity(s: Seq<Order>) -> nat
    decreases s.len(),
{
    if s.len() == 0 {
        0
    } else {
        total_quantity(s.drop_last()) + s.last().quantity as nat
    }
}

/// The limit price of an order; an order without one counts as 0.
pub open spec fn limit_of(o: Order) -> u64 {
    match o.price {
        Some(p) => p,
        None => 0,
    }
}

/// The best bid is at or above the best ask.
pub open spec fn crossing(bids: Seq<Order>, asks: Seq<Order>) -> bool {
    bids.len() > 0 && asks.len() > 0 && price_rank(bids[0].price) >= price_rank(asks[0].price)
}

/// The smaller of two quantities.
pub open spec fn lesser(a: u64, b: u64) -> u64 {
    if a <= b {
        a
    } else {
        b
    }
}

/// The trade between the best bid and the best ask: the smaller of the two
/// quantities, at the price of the ask.
pub open spec fn match_trade(symbol: u128, bid: Order, ask: Order) -> Trade {
    Trade::executed(
        symbol,
        bid.id,
        ask.id,
        bid.user_id,
        ask.user_id,
        limit_of(ask),
        lesser(ask.quantity, bid.quantity),
    )
}

/// One round of matching on a crossing book: the smaller of the two best
/// orders is filled, the larger keeps the difference, and the trade is
/// reported last. Equal orders are both filled, the ask first.
pub open spec fn match_step(bids: Seq<Order>, asks: Seq<Order>, symbol: u128) -> Outcome {
    let bid = bids[0];
    let ask = asks[0];
    let trade = OrderbookUpdate::traded(symbol, match_trade(symbol, bid, ask));
    if ask.quantity > bid.quantity {
        let left = with_quantity_of(asks, ask.id, (ask.quantity - bid.quantity) as u64);
        Outcome {
            bids: without_id(bids, bid.id),
            asks: left,
            events: seq![
                OrderbookUpdate::filled(symbol, bid.id),
                OrderbookUpdate::changed(symbol, last_with_id(left, ask.id)),
                trade,
            ],
        }
    } else if ask.quantity < bid.quantity {
        let left = with_quantity_of(bids, bid.id, (bid.quantity - ask.quantity) as u64);
        Outcome {
            bids: left,
            asks: without_id(asks, ask.id),
            events: seq![
                OrderbookUpdate::filled(symbol, ask.id),
                OrderbookUpdate::changed(symbol, last_with_id(left, bid.id)),
                trade,
            ],
        }
    } else {
        Outcome {
            bids: without_id(bids, bid.id),
            asks: without_id(asks, ask.id),
            events: seq![
                OrderbookUpdate::filled(symbol, ask.id),
                OrderbookUpdate::filled(symbol, bid.id),
                trade,
            ],
        }
    }
}

/// Matching: rounds are played until the book no longer crosses.
pub open spec fn matched(bids: Seq<Order>, asks: Seq<Order>, symbol: u128) -> Outcome
    decreases bids.len() + asks.len(),
    via matched_decreases
{
    if !crossing(bids, asks) {
        Outcome { bids, asks, events: Seq::empty() }
    } else {
        let step = match_step(bids, asks, symbol);
        let rest = matched(step.bids, step.asks, symbol);
        Outcome { bids: rest.bids, asks: rest.asks, events: step.events + rest.events }
    }
}

#[via_fn]
proof fn matched_decreases(bids: Seq<Order>, asks: Seq<Order>, symbol: u128) {
    if crossing(bids, asks) {
        lemma_match_step_shrinks(bids, asks, symbol);
    }
}

/// The trade of a market order against a resting order: at the price of the
/// resting order.
pub open spec fn sweep_trade(symbol: u128, taker: Order, resting: Order, quantity: u64) -> Trade {
    match taker.side {
        OrderSide::Buy => Trade::executed(
            symbol,
            taker.id,
            resting.id,
            taker.user_id,
            resting.user_id,
            limit_of(resting),
            quantity,
        ),
        OrderSide::Sell => Trade::executed(
            symbol,
            resting.id,
            taker.id,
            resting.user_id,
            taker.user_id,
            limit_of(resting),
            quantity,
        ),
    }
}

/// What a market order leaves of the side it runs against, and the updates of
/// its run. While it has quantity left and the side has orders, it takes the
/// best: a best order that it can take whole is filled, a larger one keeps the
/// difference and ends the run. What the side cannot fill is dropped.
pub open spec fn swept(resting: Seq<Order>, taker: Order, remaining: u64, symbol: u128) -> (
    Seq<Order>,
    Seq<OrderbookUpdate>,
)
    decreases resting.len(),
    via swept_decreases
{
    if remaining == 0 || resting.len() == 0 {
        (resting, Seq::empty())
    } else {
        let top = resting[0];
        if top.quantity <= remaining {
            let rest = swept(
                without_id(resting, top.id),
                taker,
                (remaining - top.quantity) as u64,
                symbol,
            );
            (
                rest.0,
                seq![
                    OrderbookUpdate::filled(symbol, top.id),
                    OrderbookUpdate::traded(symbol, sweep_trade(symbol, taker, top, top.quantity)),
                ] + rest.1,
            )
        } else {
            let left = with_quantity_of(resting, top.id, (top.quantity - remaining) as u64);
            (
                left,
                seq![
                    OrderbookUpdate::changed(symbol, last_with_id(left, top.id)),
                    OrderbookUpdate::traded(symbol, sweep_trade(symbol, taker, top, remaining)),
                ],
            )
        }
    }
}

#[via_fn]
proof fn swept_decreases(resting: Seq<Order>, taker: Order, remaining: u64, symbol: u128) {
    if resting.len() > 0 {
        lemma_without_id(resting, resting[0].id);
    }
}

/// The side of `order` with the order put on it.
pub open spec fn rested(bids: Seq<Order>, asks: Seq<Order>, order: Order) -> (
    Seq<Order>,
    Seq<Order>,
) {
    match order.side {
        OrderSide::Buy => (insert_by_priority(bids, order), asks),
        OrderSide::Sell => (bids, insert_by_priority(asks, order)),
    }
}

/// Placing a limit order: it is put on its side and reported, then the book
/// is matched.
pub open spec fn after_place(bids: Seq<Order>, asks: Seq<Order>, symbol: u128, order: Order) -> Outcome {
    let sides = rested(bids, asks, order);
    let m = matched(sides.0, sides.1, symbol);
    Outcome {
        bids: m.bids,
        asks: m.asks,
        events: seq![OrderbookUpdate::placed(symbol, order)] + m.events,
    }
}

/// Cancelling: the orders of `side` that carry `id` leave, and the
/// cancellation is reported whether or not there was one.
pub open spec fn after_cancel(
    bids: Seq<Order>,
    asks: Seq<Order>,
    symbol: u128,
    id: u128,
    side: OrderSide,
) -> Outcome {
    let events = seq![OrderbookUpdate::cancelled(symbol, id)];
    match side {
        OrderSide::Buy => Outcome { bids: without_id(bids, id), asks, events },
        OrderSide::Sell => Outcome { bids, asks: without_id(asks, id), events },
    }
}

/// Filling: the orders of `side` that carry `id` leave, and the fill is
/// reported.
pub open spec fn after_fill(
    bids: Seq<Order>,
    asks: Seq<Order>,
    symbol: u128,
    id: u128,
    side: OrderSide,
) -> Outcome {
    let events = seq![OrderbookUpdate::filled(symbol, id)];
    match side {
        OrderSide::Buy => Outcome { bids: without_id(bids, id), asks, events },
        OrderSide::Sell => Outcome { bids, asks: without_id(asks, id), events },
    }
}

/// Updating: the orders of `side` that carry `id` get `quantity`, and the
/// last of them is reported, or none if there is none. The book is not
/// matched.
pub open spec fn after_update(
    bids: Seq<Order>,
    asks: Seq<Order>,
    symbol: u128,
    id: u128,
    quantity: u64,
    side: OrderSide,
) -> Outcome {
    match side {
        OrderSide::Buy => {
            let left = with_quantity_of(bids, id, quantity);
            Outcome {
                bids: left,
                asks,
                events: seq![OrderbookUpdate::changed(symbol, last_with_id(left, id))],
            }
        },
        OrderSide::Sell => {
            let left = with_quantity_of(asks, id, quantity);
            Outcome {
                bids,
                asks: left,
                events: seq![OrderbookUpdate::changed(symbol, last_with_id(left, id))],
            }
        },
    }
}

/// Amending a quantity: an update, then the book is matched.
pub open spec fn after_amend_quantity(
    bids: Seq<Order>,
    asks: Seq<Order>,
    symbol: u128,
    id: u128,
    quantity: u64,
    side: OrderSide,
) -> Outcome {
    let u = after_update(bids, asks, symbol, id, quantity, side);
    let m = matched(u.bids, u.asks, symbol);
    Outcome { bids: m.bids, asks: m.asks, events: u.events + m.events }
}

/// Amending a price: the orders of `side` that carry `id` move to `price` and
/// the side is put in order again; the last of them, by their places before
/// the move, is reported, or none; then the book is matched.
pub open spec fn after_amend_price(
    bids: Seq<Order>,
    asks: Seq<Order>,
    symbol: u128,
    id: u128,
    price: u64,
    side: OrderSide,
) -> Outcome {
    let moved = match side {
        OrderSide::Buy => with_price_unsorted(bids, id, price),
        OrderSide::Sell => with_price_unsorted(asks, id, price),
    };
    let event = OrderbookUpdate::changed(symbol, last_with_id(moved, id));
    let m = match side {
        OrderSide::Buy => matched(sorted_by_priority(moved), asks, symbol),
        OrderSide::Sell => matched(bids, sorted_by_priority(moved), symbol),
    };
    Outcome { bids: m.bids, asks: m.asks, events: seq![event] + m.events }
}

/// Running a market order: it sweeps the other side and never rests.
pub open spec fn after_market(bids: Seq<Order>, asks: Seq<Order>, symbol: u128, order: Order) -> Outcome {
    match order.side {
        OrderSide::Buy => {
            let s = swept(asks, order, order.quantity, symbol);
            Outcome { bids, asks: s.0, events: s.1 }
        },
        OrderSide::Sell => {
            let s = swept(bids, order, order.quantity, symbol);
            Outcome { bids: s.0, asks, events: s.1 }
        },
    }
}

/// Submitting an order: it is reported as new, then placed if it is a limit
/// order and run if it is a market order.
pub open spec fn after_add(bids: Seq<Order>, asks: Seq<Order>, symbol: u128, order: Order) -> Outcome {
    let next = match order.order_type {
        OrderType::Limit => after_place(bids, asks, symbol, order),
        OrderType::Market => after_market(bids, asks, symbol, order),
    };
    Outcome {
        bids: next.bids,
        asks: next.asks,
        events: seq![OrderbookUpdate::submitted(symbol, order)] + next.events,
    }
}

/// Removing by identifier keeps a side in good order, never makes it longer,
/// leaves no order with that identifier, and makes it shorter if there was
/// one.
pub proof fn lemma_without_id(s: Seq<Order>, id: u128)
    ensures
        without_id(s, id).len() <= s.len(),
        has_id(s, id) ==> without_id(s, id).len() < s.len(),
        !has_id(s, id) ==> without_id(s, id) == s,
        !has_id(without_id(s, id), id),
        forall|other: u128| other != id ==> (has_id(without_id(s, id), other) <==> has_id(s, other)),
        forall|k: int|
            0 <= k < without_id(s, id).len() ==> exists|i: int|
                0 <= i < s.len() && s[i] == #[trigger] without_id(s, id)[k],
        forall|side: OrderSide| side_ok(s, side) ==> side_ok(without_id(s, id), side),
{
    let mask = Seq::new(s.len(), |i: int| s[i].id != id);
    lemma_select_is_filter(s, mask, differs_from(id));
    let src = lemma_select_sources(s, mask);
    let r = without_id(s, id);
    assert(r == select(s, mask));
    if has_id(s, id) {
        let i = choose|i: int| 0 <= i < s.len() && (#[trigger] s[i]).id == id;
        lemma_strictly_increasing_misses(src, s.len() as int, i);
    } else {
        lemma_select_all(s, mask);
    }
    assert(!has_id(r, id)) by {
        if has_id(r, id) {
            let k = choose|k: int| 0 <= k < r.len() && (#[trigger] r[k]).id == id;
            assert(r[k] == s[src[k]]);
        }
    }
    assert forall|other: u128| other != id implies (has_id(r, other) <==> has_id(s, other)) by {
        if has_id(r, other) {
            let k = choose|k: int| 0 <= k < r.len() && (#[trigger] r[k]).id == other;
            assert(r[k] == s[src[k]]);
            assert(s[src[k]].id == other);
        }
        if has_id(s, other) {
            let i = choose|i: int| 0 <= i < s.len() && (#[trigger] s[i]).id == other;
            lemma_select_keeps(s, mask, i);
            let k = choose|k: int| 0 <= k < r.len() && r[k] == s[i];
            assert(r[k].id == other);
        }
    }
    assert forall|k: int| 0 <= k < r.len() implies exists|i: int|
        0 <= i < s.len() && s[i] == #[trigger] r[k] by {
        assert(r[k] == s[src[k]]);
    }
    assert forall|side: OrderSide| side_ok(s, side) implies side_ok(r, side) by {
        lemma_select_keeps_sorted(s, mask);
        assert forall|k: int| 0 <= k < r.len() implies (#[trigger] r[k]).side == side
            && r[k].restable() by {
            assert(r[k] == s[src[k]]);
        }
    }
}

/// A strictly increasing sequence of places below `n` that misses one of them
/// is shorter than `n`.
proof fn lemma_strictly_increasing_misses(src: Seq<int>, n: int, missing: int)
    requires
        0 <= missing < n,
        forall|k: int| 0 <= k < src.len() ==> 0 <= #[trigger] src[k] < n && src[k] != missing,
        forall|k: int, l: int| 0 <= k < l < src.len() ==> src[k] < src[l],
    ensures
        src.len() < n,
    decreases n,
{
    if src.len() > 0 {
        let last = src.last();
        let rest = src.drop_last();
        if last > missing {
            assert forall|k: int| 0 <= k < rest.len() implies 0 <= #[trigger] rest[k] < last
                && rest[k] != missing by {
                assert(rest[k] == src[k]);
                assert(src[k] < src[src.len() - 1]);
            }
            lemma_strictly_increasing_misses(rest, last, missing);
        } else {
            assert forall|k: int| 0 <= k < src.len() implies 0 <= #[trigger] src[k] < missing by {
                if k < src.len() - 1 {
                    assert(src[k] < src[src.len() - 1]);
                }
            }
            lemma_strictly_increasing_bounded(src, missing);
        }
    }
}

/// A strictly increasing sequence of places below `n` has at most `n` places.
proof fn lemma_strictly_increasing_bounded(src: Seq<int>, n: int)
    requires
        0 <= n,
        forall|k: int| 0 <= k < src.len() ==> 0 <= #[trigger] src[k] < n,
        forall|k: int, l: int| 0 <= k < l < src.len() ==> src[k] < src[l],
    ensures
        src.len() <= n,
    decreases src.len(),
{
    if src.len() > 0 {
        let last = src.last();
        let rest = src.drop_last();
        assert forall|k: int| 0 <= k < rest.len() implies 0 <= #[trigger] rest[k] < last by {
            assert(rest[k] == src[k]);
            assert(src[k] < src[src.len() - 1]);
        }
        lemma_strictly_increasing_bounded(rest, last);
    }
}

/// A mask that keeps everything selects everything.
proof fn lemma_select_all<T>(s: Seq<T>, mask: Seq<bool>)
    requires
        mask.len() == s.len(),
        forall|i: int| 0 <= i < s.len() ==> mask[i],
    ensures
        select(s, mask) == s,
    decreases s.len(),
{
    if s.len() > 0 {
        lemma_select_all(s.drop_last(), mask.drop_last());
        assert(s.drop_last().push(s.last()) =~= s);
    } else {
        assert(select(s, mask) =~= s);
    }
}

/// An item that the mask keeps is in the selection.
proof fn lemma_select_keeps<T>(s: Seq<T>, mask: Seq<bool>, i: int)
    requires
        mask.len() == s.len(),
        0 <= i < s.len(),
        mask[i],
    ensures
        exists|k: int| 0 <= k < select(s, mask).len() && select(s, mask)[k] == s[i],
    decreases s.len(),
{
    let r = select(s, mask);
    let rest = select(s.drop_last(), mask.drop_last());
    if i == s.len() - 1 {
        assert(r == rest.push(s.last()));
        assert(r[rest.len() as int] == s[i]);
    } else {
        lemma_select_keeps(s.drop_last(), mask.drop_last(), i);
        let k = choose|k: int| 0 <= k < rest.len() && rest[k] == s.drop_last()[i];
        if mask.last() {
            assert(r[k] == rest[k]);
        } else {
            assert(r[k] == rest[k]);
        }
    }
}

/// Changing a quantity by identifier keeps places, identifiers and prices, and
/// keeps a side in good order when the quantity is not zero.
pub proof fn lemma_with_quantity_of(s: Seq<Order>, id: u128, quantity: u64)
    ensures
        with_quantity_of(s, id, quantity).len() == s.len(),
        forall|i: int|
            0 <= i < s.len() ==> #[trigger] with_quantity_of(s, id, quantity)[i] == requantified(
                s[i],
                id,
                quantity,
            ),
        forall|other: u128| has_id(with_quantity_of(s, id, quantity), other) <==> has_id(s, other),
        is_sorted(s) ==> sorted_by_priority(with_quantity_of(s, id, quantity)) == with_quantity_of(
            s,
            id,
            quantity,
        ),
        forall|side: OrderSide|
            quantity > 0 && side_ok(s, side) ==> side_ok(with_quantity_of(s, id, quantity), side),
{
    let r = with_quantity_of(s, id, quantity);
    assert forall|other: u128| has_id(r, other) <==> has_id(s, other) by {
        if has_id(r, other) {
            let k = choose|k: int| 0 <= k < r.len() && (#[trigger] r[k]).id == other;
            assert(s[k].id == other);
        }
        if has_id(s, other) {
            let k = choose|k: int| 0 <= k < s.len() && (#[trigger] s[k]).id == other;
            assert(r[k].id == other);
        }
    }
    if is_sorted(s) {
        assert(is_sorted(r)) by {
            assert forall|i: int, j: int| 0 <= i < j < r.len() implies r[i].priority()
                >= r[j].priority() by {
                assert(r[i].priority() == s[i].priority());
                assert(r[j].priority() == s[j].priority());
            }
        }
        lemma_sorted_is_fixed(r);
    }
    assert forall|side: OrderSide| quantity > 0 && side_ok(s, side) implies side_ok(r, side) by {
        assert forall|i: int| 0 <= i < r.len() implies (#[trigger] r[i]).side == side
            && r[i].restable() by {
            assert(s[i].side == side && s[i].restable());
        }
    }
}

/// Moving orders to a price and sorting keeps a side in good order.
pub proof fn lemma_with_price_of(s: Seq<Order>, id: u128, price: u64, side: OrderSide)
    requires
        side_ok(s, side),
    ensures
        side_ok(with_price_of(s, id, price), side),
        with_price_of(s, id, price).len() == s.len(),
{
    let moved = with_price_unsorted(s, id, price);
    lemma_sorted_by_priority(moved);
    let pred = |o: Order| o.side == side && o.restable();
    assert forall|i: int| 0 <= i < moved.len() implies pred(#[trigger] moved[i]) by {
        assert(s[i].side == side && s[i].restable());
    }
    lemma_sorted_keeps_all(moved, pred);
    let r = with_price_of(s, id, price);
    assert forall|k: int| 0 <= k < r.len() implies (#[trigger] r[k]).side == side
        && r[k].restable() by {
        assert(pred(r[k]));
    }
}

/// Putting an order on its side keeps the side in good order.
pub proof fn lemma_insert_side_ok(s: Seq<Order>, order: Order, side: OrderSide)
    requires
        side_ok(s, side),
        order.side == side,
        order.restable(),
    ensures
        side_ok(insert_by_priority(s, order), side),
{
    lemma_insert_keeps_sorted(s, order);
    lemma_insertion_point(s, order);
    let p = insertion_point(s, order);
    let r = insert_by_priority(s, order);
    assert forall|k: int| 0 <= k < r.len() implies (#[trigger] r[k]).side == side
        && r[k].restable() by {
        if k < p {
            assert(r[k] == s[k]);
        } else if k == p {
        } else {
            assert(r[k] == s[k - 1]);
        }
    }
}

/// A round of matching takes at least one order off the book and keeps both
/// sides in good order.
pub proof fn lemma_match_step_shrinks(bids: Seq<Order>, asks: Seq<Order>, symbol: u128)
    requires
        crossing(bids, asks),
    ensures
        match_step(bids, asks, symbol).bids.len() + match_step(bids, asks, symbol).asks.len()
            < bids.len() + asks.len(),
        side_ok(bids, OrderSide::Buy) && side_ok(asks, OrderSide::Sell) ==> side_ok(
            match_step(bids, asks, symbol).bids,
            OrderSide::Buy,
        ) && side_ok(match_step(bids, asks, symbol).asks, OrderSide::Sell),
{
    let bid = bids[0];
    let ask = asks[0];
    assert(has_id(bids, bid.id));
    assert(has_id(asks, ask.id));
    lemma_without_id(bids, bid.id);
    lemma_without_id(asks, ask.id);
    if ask.quantity > bid.quantity {
        lemma_with_quantity_of(asks, ask.id, (ask.quantity - bid.quantity) as u64);
    } else if ask.quantity < bid.quantity {
        lemma_with_quantity_of(bids, bid.id, (bid.quantity - ask.quantity) as u64);
    }
}

/// Matching keeps both sides in good order and leaves a book that does not
/// cross.
pub proof fn lemma_matched(bids: Seq<Order>, asks: Seq<Order>, symbol: u128)
    ensures
        !crossing(matched(bids, asks, symbol).bids, matched(bids, asks, symbol).asks),
        side_ok(bids, OrderSide::Buy) && side_ok(asks, OrderSide::Sell) ==> side_ok(
            matched(bids, asks, symbol).bids,
            OrderSide::Buy,
        ) && side_ok(matched(bids, asks, symbol).asks, OrderSide::Sell),
    decreases bids.len() + asks.len(),
{
    if crossing(bids, asks) {
        lemma_match_step_shrinks(bids, asks, symbol);
        let step = match_step(bids, asks, symbol);
        lemma_matched(step.bids, step.asks, symbol);
    }
}

/// A market order leaves the side it ran against in good order.
pub proof fn lemma_swept(resting: Seq<Order>, taker: Order, remaining: u64, symbol: u128, side: OrderSide)
    requires
        side_ok(resting, side),
    ensures
        side_ok(swept(resting, taker, remaining, symbol).0, side),
    decreases resting.len(),
{
    if remaining == 0 || resting.len() == 0 {
    } else {
        let top = resting[0];
        assert(has_id(resting, top.id));
        lemma_without_id(resting, top.id);
        if top.quantity <= remaining {
            lemma_swept(
                without_id(resting, top.id),
                taker,
                (remaining - top.quantity) as u64,
                symbol,
                side,
            );
        } else {
            lemma_with_quantity_of(resting, top.id, (top.quantity - remaining) as u64);
        }
    }
}

/// What holds of every bid and does not depend on its quantity holds of
/// every bid after matching, and so for the asks.
pub proof fn lemma_matched_keeps(
    bids: Seq<Order>,
    asks: Seq<Order>,
    symbol: u128,
    pred: spec_fn(Order) -> bool,
)
    requires
        forall|o: Order, q: u64| pred(o) ==> #[trigger] pred(o.with_quantity(q)),
    ensures
        (forall|i: int| 0 <= i < bids.len() ==> pred(#[trigger] bids[i])) ==> (forall|k: int|
            0 <= k < matched(bids, asks, symbol).bids.len() ==> pred(
                #[trigger] matched(bids, asks, symbol).bids[k],
            )),
        (forall|i: int| 0 <= i < asks.len() ==> pred(#[trigger] asks[i])) ==> (forall|k: int|
            0 <= k < matched(bids, asks, symbol).asks.len() ==> pred(
                #[trigger] matched(bids, asks, symbol).asks[k],
            )),
    decreases bids.len() + asks.len(),
{
    if crossing(bids, asks) {
        lemma_match_step_shrinks(bids, asks, symbol);
        let step = match_step(bids, asks, symbol);
        let after = matched(bids, asks, symbol);
        let rest = matched(step.bids, step.asks, symbol);
        assert(after.bids == rest.bids && after.asks == rest.asks);
        lemma_step_keeps(bids, asks, symbol, pred);
        lemma_matched_keeps(step.bids, step.asks, symbol, pred);
        if forall|i: int| 0 <= i < bids.len() ==> pred(#[trigger] bids[i]) {
            assert(forall|k: int| 0 <= k < step.bids.len() ==> pred(#[trigger] step.bids[k]));
            assert(forall|k: int| 0 <= k < rest.bids.len() ==> pred(#[trigger] rest.bids[k]));
        }
        if forall|i: int| 0 <= i < asks.len() ==> pred(#[trigger] asks[i]) {
            assert(forall|k: int| 0 <= k < step.asks.len() ==> pred(#[trigger] step.asks[k]));
            assert(forall|k: int| 0 <= k < rest.asks.len() ==> pred(#[trigger] rest.asks[k]));
        }
    }
}

/// What holds of every order of a side and does not depend on its quantity
/// still holds after orders were removed by identifier or given a quantity.
pub proof fn lemma_side_keeps(s: Seq<Order>, id: u128, quantity: u64, pred: spec_fn(Order) -> bool)
    requires
        forall|o: Order, q: u64| pred(o) ==> #[trigger] pred(o.with_quantity(q)),
        forall|i: int| 0 <= i < s.len() ==> pred(#[trigger] s[i]),
    ensures
        forall|k: int| 0 <= k < without_id(s, id).len() ==> pred(#[trigger] without_id(s, id)[k]),
        forall|k: int|
            0 <= k < with_quantity_of(s, id, quantity).len() ==> pred(
                #[trigger] with_quantity_of(s, id, quantity)[k],
            ),
{
    lemma_without_id(s, id);
    lemma_with_quantity_of(s, id, quantity);
    let r = without_id(s, id);
    assert forall|k: int| 0 <= k < r.len() implies pred(#[trigger] r[k]) by {
        let i = choose|i: int| 0 <= i < s.len() && s[i] == r[k];
        assert(pred(s[i]));
    }
    let w = with_quantity_of(s, id, quantity);
    assert forall|k: int| 0 <= k < w.len() implies pred(#[trigger] w[k]) by {
        assert(pred(s[k]));
        assert(pred(s[k].with_quantity(quantity)));
    }
}

/// One round of matching keeps what holds of every order of a side and does
/// not depend on its quantity.
pub proof fn lemma_step_keeps(
    bids: Seq<Order>,
    asks: Seq<Order>,
    symbol: u128,
    pred: spec_fn(Order) -> bool,
)
    requires
        crossing(bids, asks),
        forall|o: Order, q: u64| pred(o) ==> #[trigger] pred(o.with_quantity(q)),
    ensures
        (forall|i: int| 0 <= i < bids.len() ==> pred(#[trigger] bids[i])) ==> (forall|k: int|
            0 <= k < match_step(bids, asks, symbol).bids.len() ==> pred(
                #[trigger] match_step(bids, asks, symbol).bids[k],
            )),
        (forall|i: int| 0 <= i < asks.len() ==> pred(#[trigger] asks[i])) ==> (forall|k: int|
            0 <= k < match_step(bids, asks, symbol).asks.len() ==> pred(
                #[trigger] match_step(bids, asks, symbol).asks[k],
            )),
{
    let bid = bids[0];
    let ask = asks[0];
    if forall|i: int| 0 <= i < bids.len() ==> pred(#[trigger] bids[i]) {
        if ask.quantity < bid.quantity {
            lemma_side_keeps(bids, bid.id, (bid.quantity - ask.quantity) as u64, pred);
        } else {
            lemma_side_keeps(bids, bid.id, 0, pred);
        }
    }
    if forall|i: int| 0 <= i < asks.len() ==> pred(#[trigger] asks[i]) {
        if ask.quantity > bid.quantity {
            lemma_side_keeps(asks, ask.id, (ask.quantity - bid.quantity) as u64, pred);
        } else {
            lemma_side_keeps(asks, ask.id, 0, pred);
        }
    }
}

/// What holds of every order of a side and does not depend on its quantity
/// still holds after a market order ran against the side.
pub proof fn lemma_swept_keeps(
    resting: Seq<Order>,
    taker: Order,
    remaining: u64,
    symbol: u128,
    pred: spec_fn(Order) -> bool,
)
    requires
        forall|o: Order, q: u64| pred(o) ==> #[trigger] pred(o.with_quantity(q)),
        forall|i: int| 0 <= i < resting.len() ==> pred(#[trigger] resting[i]),
    ensures
        forall|k: int|
            0 <= k < swept(resting, taker, remaining, symbol).0.len() ==> pred(
                #[trigger] swept(resting, taker, remaining, symbol).0[k],
            ),
    decreases resting.len(),
{
    if remaining == 0 || resting.len() == 0 {
    } else {
        let top = resting[0];
        assert(has_id(resting, top.id));
        lemma_without_id(resting, top.id);
        let after = swept(resting, taker, remaining, symbol).0;
        if top.quantity <= remaining {
            let next = without_id(resting, top.id);
            lemma_side_keeps(resting, top.id, 0, pred);
            assert(forall|k: int| 0 <= k < next.len() ==> pred(#[trigger] next[k]));
            lemma_swept_keeps(next, taker, (remaining - top.quantity) as u64, symbol, pred);
            assert(after == swept(next, taker, (remaining - top.quantity) as u64, symbol).0);
        } else {
            let next = with_quantity_of(resting, top.id, (top.quantity - remaining) as u64);
            lemma_side_keeps(resting, top.id, (top.quantity - remaining) as u64, pred);
            assert(after == next);
            assert(forall|k: int| 0 <= k < next.len() ==> pred(#[trigger] next[k]));
        }
    }
}

/// The test that an order stands at the price of some order of `s`.
pub open spec fn priced_like(s: Seq<Order>) -> spec_fn(Order) -> bool {
    |o: Order| exists|i: int| 0 <= i < s.len() && (#[trigger] s[i]).price == o.price
}

/// Every order of `after` stands at the price of some order of `before`.
pub open spec fn prices_from(after: Seq<Order>, before: Seq<Order>) -> bool {
    forall|k: int| 0 <= k < after.len() ==> priced_like(before)(#[trigger] after[k])
}

/// A book that does not cross still does not cross when its sides were
/// changed without bringing in a price.
pub proof fn lemma_no_new_price_no_cross(
    bids: Seq<Order>,
    asks: Seq<Order>,
    bids_after: Seq<Order>,
    asks_after: Seq<Order>,
)
    requires
        side_ok(bids, OrderSide::Buy),
        side_ok(asks, OrderSide::Sell),
        !crossing(bids, asks),
        prices_from(bids_after, bids),
        prices_from(asks_after, asks),
    ensures
        !crossing(bids_after, asks_after),
{
    if bids_after.len() > 0 && asks_after.len() > 0 {
        assert(priced_like(bids)(bids_after[0]));
        assert(priced_like(asks)(asks_after[0]));
        let i = choose|i: int| 0 <= i < bids.len() && (#[trigger] bids[i]).price
            == bids_after[0].price;
        let j = choose|j: int| 0 <= j < asks.len() && (#[trigger] asks[j]).price
            == asks_after[0].price;
        assert(bids[0].side == OrderSide::Buy && bids[i].side == OrderSide::Buy);
        assert(asks[0].side == OrderSide::Sell && asks[j].side == OrderSide::Sell);
        if i > 0 {
            assert(bids[0].priority() >= bids[i].priority());
        }
        if j > 0 {
            assert(asks[0].priority() >= asks[j].priority());
        }
    }
}

/// A side holds the prices of itself, and keeps holding only prices of
/// itself when orders are removed by identifier or given a quantity.
pub proof fn lemma_prices_stay(s: Seq<Order>, id: u128, quantity: u64)
    ensures
        prices_from(s, s),
        prices_from(without_id(s, id), s),
        prices_from(with_quantity_of(s, id, quantity), s),
{
    let pred = priced_like(s);
    assert forall|i: int| 0 <= i < s.len() implies pred(#[trigger] s[i]) by {}
    assert forall|o: Order, q: u64| pred(o) implies #[trigger] pred(o.with_quantity(q)) by {
        let i = choose|i: int| 0 <= i < s.len() && (#[trigger] s[i]).price == o.price;
        assert(s[i].price == o.with_quantity(q).price);
    }
    lemma_side_keeps(s, id, quantity, pred);
}

/// A book that does not cross still does not cross after a market order.
pub proof fn lemma_market_keeps_uncrossed(
    bids: Seq<Order>,
    asks: Seq<Order>,
    symbol: u128,
    order: Order,
)
    requires
        side_ok(bids, OrderSide::Buy),
        side_ok(asks, OrderSide::Sell),
        !crossing(bids, asks),
    ensures
        !crossing(
            after_market(bids, asks, symbol, order).bids,
            after_market(bids, asks, symbol, order).asks,
        ),
{
    let after = after_market(bids, asks, symbol, order);
    lemma_prices_stay(bids, 0, 0);
    lemma_prices_stay(asks, 0, 0);
    match order.side {
        OrderSide::Buy => {
            let pred = priced_like(asks);
            assert forall|o: Order, q: u64| pred(o) implies #[trigger] pred(
                o.with_quantity(q),
            ) by {
                let i = choose|i: int| 0 <= i < asks.len() && (#[trigger] asks[i]).price == o.price;
                assert(asks[i].price == o.with_quantity(q).price);
            }
            lemma_swept_keeps(asks, order, order.quantity, symbol, pred);
        },
        OrderSide::Sell => {
            let pred = priced_like(bids);
            assert forall|o: Order, q: u64| pred(o) implies #[trigger] pred(
                o.with_quantity(q),
            ) by {
                let i = choose|i: int| 0 <= i < bids.len() && (#[trigger] bids[i]).price == o.price;
                assert(bids[i].price == o.with_quantity(q).price);
            }
            lemma_swept_keeps(bids, order, order.quantity, symbol, pred);
        },
    }
    lemma_no_new_price_no_cross(bids, asks, after.bids, after.asks);
}

/// A book that does not cross still does not cross after orders were
/// cancelled, filled or given a quantity.
pub proof fn lemma_removal_keeps_uncrossed(
    bids: Seq<Order>,
    asks: Seq<Order>,
    symbol: u128,
    id: u128,
    quantity: u64,
    side: OrderSide,
)
    requires
        side_ok(bids, OrderSide::Buy),
        side_ok(asks, OrderSide::Sell),
        !crossing(bids, asks),
    ensures
        !crossing(
            after_cancel(bids, asks, symbol, id, side).bids,
            after_cancel(bids, asks, symbol, id, side).asks,
        ),
        !crossing(
            after_fill(bids, asks, symbol, id, side).bids,
            after_fill(bids, asks, symbol, id, side).asks,
        ),
        !crossing(
            after_update(bids, asks, symbol, id, quantity, side).bids,
            after_update(bids, asks, symbol, id, quantity, side).asks,
        ),
{
    lemma_prices_stay(bids, id, quantity);
    lemma_prices_stay(asks, id, quantity);
    let c = after_cancel(bids, asks, symbol, id, side);
    let u = after_update(bids, asks, symbol, id, quantity, side);
    lemma_no_new_price_no_cross(bids, asks, c.bids, c.asks);
    lemma_no_new_price_no_cross(bids, asks, u.bids, u.asks);
}

} // verus!
