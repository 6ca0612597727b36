//! How much an incoming order trades: the smaller of its own quantity and
//! the quantity that rests at prices it accepts.
//!
//! The law needs the resting orders it trades against to carry distinct
//! identifiers: a fill takes every order with the identifier of the filled
//! one off the side, whether it traded or not.

use vstd::prelude::*;
use crate::enums::order_type::OrderType;
use crate::enums::orderbook_update_type::OrderbookUpdateType;
use crate::enums::side::OrderSide;
use crate::heap::{
    insertion_point,
    is_sorted,
    lemma_insertion_point,
    lemma_insertion_point_is,
    Prioritized,
};
use crate::structs::matching::{
    after_add,
    after_market,
    after_place,
    crossing,
    differs_from,
    distinct_ids,
    has_id,
    last_with_id,
    lemma_with_quantity_of,
    lemma_without_id,
    match_step,
    match_trade,
    matched,
    rested,
    side_ok,
    sweep_trade,
    swept,
    total_quantity,
    with_quantity_of,
    without_id,
};
use crate::structs::order::{price_rank, Order};
use crate::structs::orderbook_update::OrderbookUpdate;

verus! {

/// The quantity that an update reports as traded: that of its trade, if it
/// reports one.
pub open spec fn traded_in(u: OrderbookUpdate) -> nat {
    if u.update_type == OrderbookUpdateType::NewTrades {
        match u.trade {
            Some(t) => t.quantity as nat,
            None => 0,
        }
    } else {
        0
    }
}

/// The quantity that a run of updates reports as traded.
pub open spec fn traded_quantity(events: Seq<OrderbookUpdate>) -> nat
    decreases events.len(),
{
    if events.len() == 0 {
        0
    } else {
        traded_quantity(events.drop_last()) + traded_in(events.last())
    }
}

/// The smaller of two numbers.
pub open spec fn smaller(a: nat, b: nat) -> nat {
    if a <= b {
        a
    } else {
        b
    }
}

/// An order on `side` at `price` accepts the price of `resting`: a buy
/// accepts an ask at or below its price, a sell a bid at or above it.
pub open spec fn accepts(side: OrderSide, price: Option<u64>, resting: Order) -> bool {
    match side {
        OrderSide::Buy => price_rank(price) >= price_rank(resting.price),
        OrderSide::Sell => price_rank(resting.price) >= price_rank(price),
    }
}

/// The quantity that rests at prices which an order on `side` at `price`
/// accepts.
pub open spec fn marketable_quantity(resting: Seq<Order>, side: OrderSide, price: Option<u64>) -> nat
    decreases resting.len(),
{
    if resting.len() == 0 {
        0
    } else {
        (if accepts(side, price, resting[0]) {
            resting[0].quantity as nat
        } else {
            0
        }) + marketable_quantity(resting.drop_first(), side, price)
    }
}

/// The traded quantity of two runs of updates is the sum of both.
pub proof fn lemma_traded_add(a: Seq<OrderbookUpdate>, b: Seq<OrderbookUpdate>)
    ensures
        traded_quantity(a + b) == traded_quantity(a) + traded_quantity(b),
    decreases b.len(),
{
    if b.len() == 0 {
        assert(a + b =~= a);
    } else {
        assert((a + b).drop_last() =~= a + b.drop_last());
        assert((a + b).last() == b.last());
        lemma_traded_add(a, b.drop_last());
    }
}

/// The traded quantity of one update.
proof fn lemma_traded_one(u: OrderbookUpdate)
    ensures
        traded_quantity(seq![u]) == traded_in(u),
{
    let s = seq![u];
    assert(s.drop_last() =~= Seq::<OrderbookUpdate>::empty());
    assert(s.last() == u);
    assert(traded_quantity(s.drop_last()) == 0);
}

/// The traded quantity of two updates.
proof fn lemma_traded_two(a: OrderbookUpdate, b: OrderbookUpdate)
    ensures
        traded_quantity(seq![a, b]) == traded_in(a) + traded_in(b),
{
    assert(seq![a, b] =~= seq![a] + seq![b]);
    lemma_traded_add(seq![a], seq![b]);
    lemma_traded_one(a);
    lemma_traded_one(b);
}

/// The traded quantity of three updates.
proof fn lemma_traded_three(a: OrderbookUpdate, b: OrderbookUpdate, c: OrderbookUpdate)
    ensures
        traded_quantity(seq![a, b, c]) == traded_in(a) + traded_in(b) + traded_in(c),
{
    assert(seq![a, b, c] =~= seq![a, b] + seq![c]);
    lemma_traded_add(seq![a, b], seq![c]);
    lemma_traded_two(a, b);
    lemma_traded_one(c);
}

/// The quantity of a sequence is that of its first order and of the rest.
pub proof fn lemma_total_quantity_front(s: Seq<Order>)
    requires
        s.len() > 0,
    ensures
        total_quantity(s) == s[0].quantity + total_quantity(s.drop_first()),
    decreases s.len(),
{
    if s.len() == 1 {
        assert(s.drop_last() =~= Seq::<Order>::empty());
        assert(s.drop_first() =~= Seq::<Order>::empty());
        assert(total_quantity(s.drop_last()) == 0);
    } else {
        lemma_total_quantity_front(s.drop_last());
        assert(s.drop_last().drop_first() =~= s.drop_first().drop_last());
        assert(s.drop_first().last() == s.last());
        assert(s.drop_last()[0] == s[0]);
    }
}

/// On a side with distinct identifiers, removing the identifier of the best
/// order removes the best order and nothing else, and giving it a quantity
/// changes the best order and nothing else.
pub proof fn lemma_distinct_top(s: Seq<Order>, quantity: u64)
    requires
        distinct_ids(s),
        s.len() > 0,
    ensures
        without_id(s, s[0].id) == s.drop_first(),
        with_quantity_of(s, s[0].id, quantity) == s.update(0, s[0].with_quantity(quantity)),
        distinct_ids(s.drop_first()),
        distinct_ids(s.update(0, s[0].with_quantity(quantity))),
{
    let id = s[0].id;
    let rest = s.drop_first();
    assert(!has_id(rest, id)) by {
        if has_id(rest, id) {
            let k = choose|k: int| 0 <= k < rest.len() && (#[trigger] rest[k]).id == id;
            assert(rest[k] == s[k + 1]);
            assert(s[0].id != s[k + 1].id);
        }
    }
    lemma_without_id(rest, id);
    let first = seq![s[0]];
    assert(s =~= first + rest);
    Seq::filter_distributes_over_add(first, rest, differs_from(id));
    assert(first.filter(differs_from(id)) =~= Seq::<Order>::empty()) by {
        reveal_with_fuel(Seq::filter, 2);
        assert(first.drop_last() =~= Seq::<Order>::empty());
    }
    assert(Seq::<Order>::empty() + rest =~= rest);
    let changed = with_quantity_of(s, id, quantity);
    let updated = s.update(0, s[0].with_quantity(quantity));
    assert forall|i: int| 0 <= i < s.len() implies changed[i] == updated[i] by {
        if i > 0 {
            assert(s[0].id != s[i].id);
        }
    }
    assert(changed =~= updated);
    assert forall|i: int, j: int| 0 <= i < j < rest.len() implies (#[trigger] rest[i]).id != (
    #[trigger] rest[j]).id by {
        assert(rest[i] == s[i + 1] && rest[j] == s[j + 1]);
    }
    assert forall|i: int, j: int| 0 <= i < j < updated.len() implies (#[trigger] updated[i]).id
        != (#[trigger] updated[j]).id by {
        assert(updated[i].id == s[i].id && updated[j].id == s[j].id);
    }
}

/// A market order trades the smaller of its quantity and the quantity that
/// rests on the side it runs against.
pub proof fn lemma_market_order_trades_what_it_can(
    resting: Seq<Order>,
    taker: Order,
    remaining: u64,
    symbol: u128,
)
    requires
        distinct_ids(resting),
    ensures
        traded_quantity(swept(resting, taker, remaining, symbol).1) == smaller(
            remaining as nat,
            total_quantity(resting),
        ),
    decreases resting.len(),
{
    if remaining == 0 || resting.len() == 0 {
    } else {
        let top = resting[0];
        lemma_total_quantity_front(resting);
        if top.quantity <= remaining {
            lemma_distinct_top(resting, 0);
            let next = without_id(resting, top.id);
            let left_over = (remaining - top.quantity) as u64;
            let rest = swept(next, taker, left_over, symbol);
            lemma_market_order_trades_what_it_can(next, taker, left_over, symbol);
            let fill = OrderbookUpdate::filled(symbol, top.id);
            let trade = OrderbookUpdate::traded(
                symbol,
                sweep_trade(symbol, taker, top, top.quantity),
            );
            lemma_traded_two(fill, trade);
            lemma_traded_add(seq![fill, trade], rest.1);
        } else {
            let next = with_quantity_of(resting, top.id, (top.quantity - remaining) as u64);
            let change = OrderbookUpdate::changed(symbol, last_with_id(next, top.id));
            let trade = OrderbookUpdate::traded(symbol, sweep_trade(symbol, taker, top, remaining));
            lemma_traded_two(change, trade);
        }
    }
}

/// Every order of the side is on `side`.
pub open spec fn all_on(s: Seq<Order>, side: OrderSide) -> bool {
    forall|i: int| 0 <= i < s.len() ==> (#[trigger] s[i]).side == side
}

/// On a sorted side whose best order is not accepted, nothing is marketable.
proof fn lemma_nothing_marketable(resting: Seq<Order>, side: OrderSide, price: Option<u64>)
    requires
        is_sorted(resting),
        all_on(resting, side.opposite()),
        resting.len() > 0 ==> !accepts(side, price, resting[0]),
    ensures
        marketable_quantity(resting, side, price) == 0,
    decreases resting.len(),
{
    if resting.len() > 0 {
        let rest = resting.drop_first();
        assert forall|i: int, j: int| 0 <= i < j < rest.len() implies rest[i].priority()
            >= rest[j].priority() by {
            assert(rest[i] == resting[i + 1] && rest[j] == resting[j + 1]);
        }
        assert forall|i: int| 0 <= i < rest.len() implies (#[trigger] rest[i]).side
            == side.opposite() by {
            assert(rest[i] == resting[i + 1]);
        }
        if rest.len() > 0 {
            assert(rest[0] == resting[1]);
            assert(resting[0].priority() >= resting[1].priority());
            assert(resting[0].side == side.opposite());
            assert(resting[1].side == side.opposite());
        }
        lemma_nothing_marketable(rest, side, price);
    }
}

/// The rest of a sorted side is sorted, on the same side, and with distinct
/// identifiers if the side has them; so is the side after its best order got
/// another quantity.
proof fn lemma_rest_of_side(s: Seq<Order>, side: OrderSide, quantity: u64)
    requires
        s.len() > 0,
        is_sorted(s),
        all_on(s, side),
    ensures
        is_sorted(s.drop_first()),
        all_on(s.drop_first(), side),
        is_sorted(s.update(0, s[0].with_quantity(quantity))),
        all_on(s.update(0, s[0].with_quantity(quantity)), side),
{
    let rest = s.drop_first();
    assert forall|i: int, j: int| 0 <= i < j < rest.len() implies rest[i].priority()
        >= rest[j].priority() by {
        assert(rest[i] == s[i + 1] && rest[j] == s[j + 1]);
    }
    assert forall|i: int| 0 <= i < rest.len() implies (#[trigger] rest[i]).side == side by {
        assert(rest[i] == s[i + 1]);
    }
    let updated = s.update(0, s[0].with_quantity(quantity));
    assert forall|i: int, j: int| 0 <= i < j < updated.len() implies updated[i].priority()
        >= updated[j].priority() by {
        assert(updated[i].priority() == s[i].priority());
        assert(updated[j].priority() == s[j].priority());
    }
    assert forall|i: int| 0 <= i < updated.len() implies (#[trigger] updated[i]).side == side by {
        assert(updated[i].side == s[i].side);
    }
}

/// No bid but the best is at or above any ask.
pub open spec fn only_top_bid_trades(bids: Seq<Order>, asks: Seq<Order>) -> bool {
    forall|k: int, j: int|
        1 <= k < bids.len() && 0 <= j < asks.len() ==> price_rank((#[trigger] bids[k]).price)
            < price_rank((#[trigger] asks[j]).price)
}

/// No ask but the best is at or below any bid.
pub open spec fn only_top_ask_trades(bids: Seq<Order>, asks: Seq<Order>) -> bool {
    forall|k: int, j: int|
        1 <= k < asks.len() && 0 <= j < bids.len() ==> price_rank((#[trigger] bids[j]).price)
            < price_rank((#[trigger] asks[k]).price)
}

/// A side that came from `s` by removing the identifier of its best order
/// holds only orders that stood behind the best.
proof fn lemma_without_top_sources(s: Seq<Order>, k: int) -> (i: int)
    requires
        s.len() > 0,
        0 <= k < without_id(s, s[0].id).len(),
    ensures
        1 <= i < s.len(),
        s[i] == without_id(s, s[0].id)[k],
{
    lemma_without_id(s, s[0].id);
    let r = without_id(s, s[0].id);
    let i = choose|i: int| 0 <= i < s.len() && s[i] == r[k];
    assert(!has_id(r, s[0].id));
    if i == 0 {
        assert(r[k].id == s[0].id);
        assert(has_id(r, s[0].id));
    }
    i
}

/// When only the best bid can trade, matching trades the smaller of its
/// quantity and the quantity of the asks at or below its price.
pub proof fn lemma_top_bid_trades_what_it_can(bids: Seq<Order>, asks: Seq<Order>, symbol: u128)
    requires
        bids.len() > 0,
        is_sorted(asks),
        all_on(asks, OrderSide::Sell),
        distinct_ids(asks),
        only_top_bid_trades(bids, asks),
    ensures
        traded_quantity(matched(bids, asks, symbol).events) == smaller(
            bids[0].quantity as nat,
            marketable_quantity(asks, OrderSide::Buy, bids[0].price),
        ),
    decreases asks.len(),
{
    let bid = bids[0];
    if !crossing(bids, asks) {
        lemma_nothing_marketable(asks, OrderSide::Buy, bid.price);
    } else {
        let ask = asks[0];
        let step = match_step(bids, asks, symbol);
        let rest = matched(step.bids, step.asks, symbol);
        let trade = OrderbookUpdate::traded(symbol, match_trade(symbol, bid, ask));
        let fill_bid = OrderbookUpdate::filled(symbol, bid.id);
        let fill_ask = OrderbookUpdate::filled(symbol, ask.id);
        lemma_traded_add(step.events, rest.events);
        lemma_distinct_top(asks, (ask.quantity - bid.quantity) as u64);
        lemma_rest_of_side(asks, OrderSide::Sell, (ask.quantity - bid.quantity) as u64);
        assert(accepts(OrderSide::Buy, bid.price, ask));
        if ask.quantity >= bid.quantity {
            // The bid is used up: what is left of the bids cannot trade.
            assert(!crossing(step.bids, step.asks)) by {
                if step.bids.len() > 0 && step.asks.len() > 0 {
                    let i = lemma_without_top_sources(bids, 0);
                    if ask.quantity > bid.quantity {
                        assert(step.asks[0].price == asks[0].price);
                        assert(price_rank(bids[i].price) < price_rank(asks[0].price));
                    } else {
                        assert(step.asks[0] == asks[1]);
                        assert(price_rank(bids[i].price) < price_rank(asks[1].price));
                    }
                }
            }
            if ask.quantity > bid.quantity {
                let change = OrderbookUpdate::changed(symbol, last_with_id(step.asks, ask.id));
                lemma_traded_three(fill_bid, change, trade);
            } else {
                lemma_traded_three(fill_ask, fill_bid, trade);
            }
        } else {
            let left = (bid.quantity - ask.quantity) as u64;
            lemma_with_quantity_of(bids, bid.id, left);
            assert(step.bids[0] == bid.with_quantity(left));
            assert(only_top_bid_trades(step.bids, step.asks)) by {
                assert forall|k: int, j: int|
                    1 <= k < step.bids.len() && 0 <= j < step.asks.len() implies price_rank(
                    (#[trigger] step.bids[k]).price,
                ) < price_rank((#[trigger] step.asks[j]).price) by {
                    assert(step.bids[k].price == bids[k].price);
                    assert(step.asks[j] == asks[j + 1]);
                    assert(price_rank(bids[k].price) < price_rank(asks[j + 1].price));
                }
            }
            lemma_top_bid_trades_what_it_can(step.bids, step.asks, symbol);
            let change = OrderbookUpdate::changed(symbol, last_with_id(step.bids, bid.id));
            lemma_traded_three(fill_ask, change, trade);
        }
    }
}

/// When only the best ask can trade, matching trades the smaller of its
/// quantity and the quantity of the bids at or above its price.
pub proof fn lemma_top_ask_trades_what_it_can(bids: Seq<Order>, asks: Seq<Order>, symbol: u128)
    requires
        asks.len() > 0,
        is_sorted(bids),
        all_on(bids, OrderSide::Buy),
        distinct_ids(bids),
        only_top_ask_trades(bids, asks),
    ensures
        traded_quantity(matched(bids, asks, symbol).events) == smaller(
            asks[0].quantity as nat,
            marketable_quantity(bids, OrderSide::Sell, asks[0].price),
        ),
    decreases bids.len(),
{
    let ask = asks[0];
    if !crossing(bids, asks) {
        lemma_nothing_marketable(bids, OrderSide::Sell, ask.price);
    } else {
        let bid = bids[0];
        let step = match_step(bids, asks, symbol);
        let rest = matched(step.bids, step.asks, symbol);
        let trade = OrderbookUpdate::traded(symbol, match_trade(symbol, bid, ask));
        let fill_bid = OrderbookUpdate::filled(symbol, bid.id);
        let fill_ask = OrderbookUpdate::filled(symbol, ask.id);
        lemma_traded_add(step.events, rest.events);
        lemma_distinct_top(bids, (bid.quantity - ask.quantity) as u64);
        lemma_rest_of_side(bids, OrderSide::Buy, (bid.quantity - ask.quantity) as u64);
        assert(accepts(OrderSide::Sell, ask.price, bid));
        if bid.quantity >= ask.quantity {
            // The ask is used up: what is left of the asks cannot trade.
            assert(!crossing(step.bids, step.asks)) by {
                if step.bids.len() > 0 && step.asks.len() > 0 {
                    let i = lemma_without_top_sources(asks, 0);
                    if bid.quantity > ask.quantity {
                        assert(step.bids[0].price == bids[0].price);
                        assert(price_rank(bids[0].price) < price_rank(asks[i].price));
                    } else {
                        assert(step.bids[0] == bids[1]);
                        assert(price_rank(bids[1].price) < price_rank(asks[i].price));
                    }
                }
            }
            if bid.quantity > ask.quantity {
                let change = OrderbookUpdate::changed(symbol, last_with_id(step.bids, bid.id));
                lemma_traded_three(fill_ask, change, trade);
            } else {
                lemma_traded_three(fill_ask, fill_bid, trade);
            }
        } else {
            let left = (ask.quantity - bid.quantity) as u64;
            lemma_with_quantity_of(asks, ask.id, left);
            assert(step.asks[0] == ask.with_quantity(left));
            assert(only_top_ask_trades(step.bids, step.asks)) by {
                assert forall|k: int, j: int|
                    1 <= k < step.asks.len() && 0 <= j < step.bids.len() implies price_rank(
                    (#[trigger] step.bids[j]).price,
                ) < price_rank((#[trigger] step.asks[k]).price) by {
                    assert(step.asks[k].price == asks[k].price);
                    assert(step.bids[j] == bids[j + 1]);
                    assert(price_rank(bids[j + 1].price) < price_rank(asks[k].price));
                }
            }
            lemma_top_ask_trades_what_it_can(step.bids, step.asks, symbol);
            let change = OrderbookUpdate::changed(symbol, last_with_id(step.asks, ask.id));
            lemma_traded_three(fill_bid, change, trade);
        }
    }
}

/// A limit order that enters a book which does not cross trades the smaller
/// of its quantity and the quantity that rests on the other side at prices
/// it accepts.
pub proof fn lemma_limit_order_trades_what_it_can(
    bids: Seq<Order>,
    asks: Seq<Order>,
    symbol: u128,
    order: Order,
)
    requires
        side_ok(bids, OrderSide::Buy),
        side_ok(asks, OrderSide::Sell),
        !crossing(bids, asks),
        order.restable(),
        order.side == OrderSide::Buy ==> distinct_ids(asks),
        order.side == OrderSide::Sell ==> distinct_ids(bids),
    ensures
        traded_quantity(after_place(bids, asks, symbol, order).events) == smaller(
            order.quantity as nat,
            marketable_quantity(
                match order.side {
                    OrderSide::Buy => asks,
                    OrderSide::Sell => bids,
                },
                order.side,
                order.price,
            ),
        ),
{
    let sides = rested(bids, asks, order);
    let m = matched(sides.0, sides.1, symbol);
    let place = OrderbookUpdate::placed(symbol, order);
    lemma_traded_one(place);
    lemma_traded_add(seq![place], m.events);
    match order.side {
        OrderSide::Buy => {
            if asks.len() > 0 && accepts(OrderSide::Buy, order.price, asks[0]) {
                assert(bids.len() > 0 ==> bids[0].priority() < order.priority());
                lemma_insertion_point_is(bids, order, 0);
                assert(sides.0 =~= seq![order] + bids);
                assert(only_top_bid_trades(sides.0, asks)) by {
                    assert forall|k: int, j: int|
                        1 <= k < sides.0.len() && 0 <= j < asks.len() implies price_rank(
                        (#[trigger] sides.0[k]).price,
                    ) < price_rank((#[trigger] asks[j]).price) by {
                        assert(sides.0[k] == bids[k - 1]);
                        assert(bids[0].priority() >= bids[k - 1].priority());
                        assert(asks[0].priority() >= asks[j].priority());
                        assert(bids[0].side == OrderSide::Buy && bids[k - 1].side
                            == OrderSide::Buy);
                        assert(asks[0].side == OrderSide::Sell && asks[j].side
                            == OrderSide::Sell);
                    }
                }
                lemma_top_bid_trades_what_it_can(sides.0, asks, symbol);
            } else {
                lemma_insertion_point(bids, order);
                let p = insertion_point(bids, order);
                assert(sides.0[0] == if p == 0 {
                    order
                } else {
                    bids[0]
                });
                assert(!crossing(sides.0, asks));
                lemma_nothing_marketable(asks, OrderSide::Buy, order.price);
            }
        },
        OrderSide::Sell => {
            if bids.len() > 0 && accepts(OrderSide::Sell, order.price, bids[0]) {
                assert(asks.len() > 0 ==> asks[0].priority() < order.priority());
                lemma_insertion_point_is(asks, order, 0);
                assert(sides.1 =~= seq![order] + asks);
                assert(only_top_ask_trades(bids, sides.1)) by {
                    assert forall|k: int, j: int|
                        1 <= k < sides.1.len() && 0 <= j < bids.len() implies price_rank(
                        (#[trigger] bids[j]).price,
                    ) < price_rank((#[trigger] sides.1[k]).price) by {
                        assert(sides.1[k] == asks[k - 1]);
                        assert(asks[0].priority() >= asks[k - 1].priority());
                        assert(bids[0].priority() >= bids[j].priority());
                        assert(asks[0].side == OrderSide::Sell && asks[k - 1].side
                            == OrderSide::Sell);
                        assert(bids[0].side == OrderSide::Buy && bids[j].side == OrderSide::Buy);
                    }
                }
                lemma_top_ask_trades_what_it_can(bids, sides.1, symbol);
            } else {
                lemma_insertion_point(asks, order);
                let p = insertion_point(asks, order);
                assert(sides.1[0] == if p == 0 {
                    order
                } else {
                    asks[0]
                });
                assert(!crossing(bids, sides.1));
                lemma_nothing_marketable(bids, OrderSide::Sell, order.price);
            }
        },
    }
}

/// The quantity that rests for an incoming order: all of the other side for
/// a market order, and what rests there at prices it accepts for a limit
/// order.
pub open spec fn available_to(bids: Seq<Order>, asks: Seq<Order>, order: Order) -> nat {
    let other = match order.side {
        OrderSide::Buy => asks,
        OrderSide::Sell => bids,
    };
    match order.order_type {
        OrderType::Limit => marketable_quantity(other, order.side, order.price),
        OrderType::Market => total_quantity(other),
    }
}

/// An order that is taken into a book which does not cross trades the
/// smaller of its quantity and the quantity that rests for it.
pub proof fn lemma_order_trades_what_it_can(
    bids: Seq<Order>,
    asks: Seq<Order>,
    symbol: u128,
    order: Order,
)
    requires
        side_ok(bids, OrderSide::Buy),
        side_ok(asks, OrderSide::Sell),
        !crossing(bids, asks),
        order.acceptable(),
        order.side == OrderSide::Buy ==> distinct_ids(asks),
        order.side == OrderSide::Sell ==> distinct_ids(bids),
    ensures
        traded_quantity(after_add(bids, asks, symbol, order).events) == smaller(
            order.quantity as nat,
            available_to(bids, asks, order),
        ),
{
    let new = OrderbookUpdate::submitted(symbol, order);
    lemma_traded_one(new);
    match order.order_type {
        OrderType::Limit => {
            lemma_limit_order_trades_what_it_can(bids, asks, symbol, order);
            lemma_traded_add(seq![new], after_place(bids, asks, symbol, order).events);
        },
        OrderType::Market => {
            match order.side {
                OrderSide::Buy => lemma_market_order_trades_what_it_can(
                    asks,
                    order,
                    order.quantity,
                    symbol,
                ),
                OrderSide::Sell => lemma_market_order_trades_what_it_can(
                    bids,
                    order,
                    order.quantity,
                    symbol,
                ),
            }
            lemma_traded_add(seq![new], after_market(bids, asks, symbol, order).events);
        },
    }
}

/// The quantity of a side after its best order got another quantity.
proof fn lemma_total_quantity_of_changed_top(s: Seq<Order>, quantity: u64)
    requires
        s.len() > 0,
    ensures
        total_quantity(s.update(0, s[0].with_quantity(quantity))) + s[0].quantity
            == total_quantity(s) + quantity,
{
    let changed = s.update(0, s[0].with_quantity(quantity));
    lemma_total_quantity_front(s);
    lemma_total_quantity_front(changed);
    assert(changed.drop_first() =~= s.drop_first());
}

/// Matching conserves quantity: what rested before is what rests after and
/// twice what was traded, since each trade takes its quantity from a bid
/// and from an ask.
pub proof fn lemma_matching_conserves_quantity(bids: Seq<Order>, asks: Seq<Order>, symbol: u128)
    requires
        distinct_ids(bids),
        distinct_ids(asks),
    ensures
        total_quantity(bids) + total_quantity(asks) == total_quantity(
            matched(bids, asks, symbol).bids,
        ) + total_quantity(matched(bids, asks, symbol).asks) + 2 * traded_quantity(
            matched(bids, asks, symbol).events,
        ),
    decreases bids.len() + asks.len(),
{
    if crossing(bids, asks) {
        let bid = bids[0];
        let ask = asks[0];
        let step = match_step(bids, asks, symbol);
        let rest = matched(step.bids, step.asks, symbol);
        let trade = OrderbookUpdate::traded(symbol, match_trade(symbol, bid, ask));
        let fill_bid = OrderbookUpdate::filled(symbol, bid.id);
        let fill_ask = OrderbookUpdate::filled(symbol, ask.id);
        lemma_total_quantity_front(bids);
        lemma_total_quantity_front(asks);
        lemma_traded_add(step.events, rest.events);
        if ask.quantity > bid.quantity {
            let left = (ask.quantity - bid.quantity) as u64;
            lemma_distinct_top(bids, 0);
            lemma_distinct_top(asks, left);
            lemma_total_quantity_of_changed_top(asks, left);
            let change = OrderbookUpdate::changed(symbol, last_with_id(step.asks, ask.id));
            lemma_traded_three(fill_bid, change, trade);
        } else if ask.quantity < bid.quantity {
            let left = (bid.quantity - ask.quantity) as u64;
            lemma_distinct_top(asks, 0);
            lemma_distinct_top(bids, left);
            lemma_total_quantity_of_changed_top(bids, left);
            let change = OrderbookUpdate::changed(symbol, last_with_id(step.bids, bid.id));
            lemma_traded_three(fill_ask, change, trade);
        } else {
            lemma_distinct_top(bids, 0);
            lemma_distinct_top(asks, 0);
            lemma_traded_three(fill_ask, fill_bid, trade);
        }
        assert(step.bids.len() + step.asks.len() < bids.len() + asks.len());
        lemma_matching_conserves_quantity(step.bids, step.asks, symbol);
    }
}

} // verus!
