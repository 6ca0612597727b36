use crossbeam_channel::{unbounded, Receiver};
use orderbook::{
    Order, OrderBook, OrderSide, OrderType, OrderbookError, OrderbookUpdate, OrderbookUpdateType,
    Trade, TradeStatus,
};
use ulid::Ulid;

/// A price in ticks of one thousandth.
fn px(price: f64) -> u64 {
    (price * 1000.0).round() as u64
}

/// A quantity in lots of one hundredth.
fn qty(quantity: f64) -> u64 {
    (quantity * 100.0).round() as u64
}

fn drain(rx: &Receiver<OrderbookUpdate>) -> Vec<OrderbookUpdate> {
    let mut updates = Vec::new();
    while let Ok(update) = rx.try_recv() {
        updates.push(update);
    }
    updates
}

fn kinds(updates: &[OrderbookUpdate]) -> Vec<OrderbookUpdateType> {
    updates.iter().map(|u| u.update_type).collect()
}

fn trades(updates: &[OrderbookUpdate]) -> Vec<Trade> {
    updates.iter().filter_map(|u| u.trade).collect()
}

fn order_with_id(id: u128, side: OrderSide, quantity: u64, price: u64) -> Order {
    let mut order = Order::new(7, 1, side, quantity, Some(price), OrderType::Limit);
    order.id = id;
    order
}

#[test]
fn test_orderbook_new() {
    let (tx, _) = unbounded::<OrderbookUpdate>();
    let orderbook = OrderBook::new(Ulid::new().into(), tx);
    assert_eq!(orderbook.bids.len(), 0);
    assert_eq!(orderbook.asks.len(), 0);
}

#[test]
fn test_orderbook_add_order() {
    let (tx, r) = unbounded::<OrderbookUpdate>();
    let mut orderbook = OrderBook::new(Ulid::new().into(), tx);
    let order = Order::new(
        Ulid::new().into(),
        Ulid::new().into(),
        OrderSide::Buy,
        qty(1.0),
        Some(px(1.0)),
        OrderType::Limit,
    );
    assert_eq!(orderbook.add_order(order.clone()), Ok(()));
    assert_eq!(orderbook.bids.len(), 1);
    assert_eq!(orderbook.asks.len(), 0);
    let updates = drain(&r);
    assert_eq!(
        kinds(&updates),
        vec![OrderbookUpdateType::New, OrderbookUpdateType::Place]
    );
    assert_eq!(updates[0].order, Some(order));
    assert_eq!(updates[1].order, Some(order));
    assert_eq!(updates[0].symbol, orderbook.symbol);
}

#[test]
fn test_orderbook_update_order() {
    let (tx, r) = unbounded::<OrderbookUpdate>();
    let mut orderbook = OrderBook::new(Ulid::new().into(), tx);
    let order = Order::new(
        Ulid::new().into(),
        Ulid::new().into(),
        OrderSide::Buy,
        qty(1.0),
        Some(px(1.0)),
        OrderType::Limit,
    );
    assert_eq!(orderbook.add_order(order.clone()), Ok(()));
    assert_eq!(orderbook.update_order(order.id, qty(2.0), OrderSide::Buy), Ok(()));
    assert_eq!(orderbook.bids.len(), 1);
    assert_eq!(orderbook.asks.len(), 0);
    let new_order = orderbook.bids.peek().unwrap();
    assert_eq!(new_order.quantity, qty(2.0));
    assert_eq!(new_order.non_mut_quantity, qty(1.0));
    let updates = drain(&r);
    assert_eq!(updates.len(), 3);
    assert_eq!(updates[2].update_type, OrderbookUpdateType::Update);
    assert_eq!(updates[2].order, Some(new_order));
}

#[test]
fn test_case_1() {
    let (tx, r) = unbounded::<OrderbookUpdate>();
    let mut orderbook = OrderBook::new(Ulid::new().into(), tx);
    let order1 = Order::new(
        Ulid::new().into(),
        Ulid::new().into(),
        OrderSide::Buy,
        qty(1.0),
        Some(px(1.0)),
        OrderType::Limit,
    );
    let order2 = Order::new(
        Ulid::new().into(),
        Ulid::new().into(),
        OrderSide::Sell,
        qty(1.0),
        Some(px(1.0)),
        OrderType::Limit,
    );
    assert_eq!(orderbook.add_order(order1.clone()), Ok(()));
    assert_eq!(orderbook.add_order(order2.clone()), Ok(()));
    assert_eq!(orderbook.bids.len(), 0);
    assert_eq!(orderbook.asks.len(), 0);

    let updates = drain(&r);
    assert_eq!(
        kinds(&updates),
        vec![
            OrderbookUpdateType::New,
            OrderbookUpdateType::Place,
            OrderbookUpdateType::New,
            OrderbookUpdateType::Place,
            OrderbookUpdateType::Filled,
            OrderbookUpdateType::Filled,
            OrderbookUpdateType::NewTrades,
        ]
    );
    assert_eq!(updates[4].filled_id, Some(order2.id));
    assert_eq!(updates[5].filled_id, Some(order1.id));
    let all = trades(&updates);
    assert_eq!(all.len(), 1);
    assert_eq!(
        all[0],
        Trade {
            id: None,
            buy_order_id: order1.id,
            sell_order_id: order2.id,
            buy_user_id: order1.user_id,
            sell_user_id: order2.user_id,
            price: px(1.0),
            quantity: qty(1.0),
            status: TradeStatus::Pending,
            symbol: orderbook.symbol,
            created_at: None,
            updated_at: None,
        }
    );
}

fn three_asks(orderbook: &mut OrderBook, best_quantity: f64) -> [Order; 3] {
    let order1 = Order::new(
        Ulid::new().into(),
        Ulid::new().into(),
        OrderSide::Sell,
        qty(100.10),
        Some(px(100.10)),
        OrderType::Limit,
    );
    let order2 = Order::new(
        Ulid::new().into(),
        Ulid::new().into(),
        OrderSide::Sell,
        qty(500.0),
        Some(px(100.05)),
        OrderType::Limit,
    );
    let order3 = Order::new(
        Ulid::new().into(),
        Ulid::new().into(),
        OrderSide::Sell,
        qty(best_quantity),
        Some(px(100.0)),
        OrderType::Limit,
    );
    assert_eq!(orderbook.add_order(order1.clone()), Ok(()));
    assert_eq!(orderbook.add_order(order2.clone()), Ok(()));
    assert_eq!(orderbook.add_order(order3.clone()), Ok(()));
    [order1, order2, order3]
}

fn three_bids(orderbook: &mut OrderBook) -> [Order; 3] {
    let order1 = Order::new(
        Ulid::new().into(),
        Ulid::new().into(),
        OrderSide::Buy,
        qty(100.0),
        Some(px(99.95)),
        OrderType::Limit,
    );
    let order2 = Order::new(
        Ulid::new().into(),
        Ulid::new().into(),
        OrderSide::Buy,
        qty(50.0),
        Some(px(99.90)),
        OrderType::Limit,
    );
    let order3 = Order::new(
        Ulid::new().into(),
        Ulid::new().into(),
        OrderSide::Buy,
        qty(50.0),
        Some(px(99.85)),
        OrderType::Limit,
    );
    assert_eq!(orderbook.add_order(order1.clone()), Ok(()));
    assert_eq!(orderbook.add_order(order2.clone()), Ok(()));
    assert_eq!(orderbook.add_order(order3.clone()), Ok(()));
    [order1, order2, order3]
}

#[test]
fn test_case_2() {
    let (tx, r) = unbounded::<OrderbookUpdate>();
    let mut orderbook = OrderBook::new(Ulid::new().into(), tx);
    let asks = three_asks(&mut orderbook, 1000.0);
    let bids = three_bids(&mut orderbook);
    assert_eq!(orderbook.bids.len(), 3);
    assert_eq!(orderbook.asks.len(), 3);
    drain(&r);

    let order = Order::new(
        Ulid::new().into(),
        Ulid::new().into(),
        OrderSide::Buy,
        qty(100.0),
        Some(px(100.0)),
        OrderType::Market,
    );

    assert_eq!(orderbook.add_order(order.clone()), Ok(()));
    assert_eq!(orderbook.bids.len(), 3);
    assert_eq!(orderbook.asks.len(), 3);
    let best = orderbook.asks.peek().unwrap();
    assert_eq!(best.quantity, qty(900.0));
    assert_eq!(best.price, Some(px(100.0)));
    assert_eq!(orderbook.get_mid_price(), px(99.975));
    assert_eq!(orderbook.bids.into_vec(), bids.to_vec());

    let updates = drain(&r);
    assert_eq!(
        kinds(&updates),
        vec![
            OrderbookUpdateType::New,
            OrderbookUpdateType::Update,
            OrderbookUpdateType::NewTrades,
        ]
    );
    assert_eq!(updates[1].order, Some(best));
    let all = trades(&updates);
    assert_eq!(all[0].quantity, qty(100.0));
    assert_eq!(all[0].price, px(100.0));
    assert_eq!(all[0].buy_order_id, order.id);
    assert_eq!(all[0].sell_order_id, asks[2].id);
    assert_eq!(all[0].buy_user_id, order.user_id);
    assert_eq!(all[0].sell_user_id, asks[2].user_id);
}

#[test]
fn test_case_3() {
    let (tx, r) = unbounded::<OrderbookUpdate>();
    let mut orderbook = OrderBook::new(Ulid::new().into(), tx);
    let asks = three_asks(&mut orderbook, 900.0);
    let bids = three_bids(&mut orderbook);
    assert_eq!(orderbook.bids.len(), 3);
    assert_eq!(orderbook.asks.len(), 3);
    drain(&r);

    let order = Order::new(
        Ulid::new().into(),
        Ulid::new().into(),
        OrderSide::Buy,
        qty(100.0),
        Some(px(100.02)),
        OrderType::Limit,
    );

    assert_eq!(orderbook.add_order(order.clone()), Ok(()));
    assert_eq!(orderbook.bids.len(), 3);
    assert_eq!(orderbook.asks.len(), 3);
    let best = orderbook.asks.peek().unwrap();
    assert_eq!(best.quantity, qty(800.0));
    assert_eq!(best.price, Some(px(100.0)));
    assert_eq!(orderbook.bids.into_vec(), bids.to_vec());

    let updates = drain(&r);
    assert_eq!(
        kinds(&updates),
        vec![
            OrderbookUpdateType::New,
            OrderbookUpdateType::Place,
            OrderbookUpdateType::Filled,
            OrderbookUpdateType::Update,
            OrderbookUpdateType::NewTrades,
        ]
    );
    assert_eq!(updates[2].filled_id, Some(order.id));
    assert_eq!(updates[3].order, Some(best));
    let all = trades(&updates);
    assert_eq!(all.len(), 1);
    assert_eq!(all[0].quantity, qty(100.0));
    assert_eq!(all[0].price, px(100.0));
    assert_eq!(all[0].buy_order_id, order.id);
    assert_eq!(all[0].sell_order_id, asks[2].id);
}

#[test]
fn test_case_4() {
    let (tx, r) = unbounded::<OrderbookUpdate>();
    let mut orderbook = OrderBook::new(Ulid::new().into(), tx);
    let asks = three_asks(&mut orderbook, 900.0);
    drain(&r);

    let order = Order::new(
        Ulid::new().into(),
        Ulid::new().into(),
        OrderSide::Buy,
        qty(2000.0),
        Some(px(100.0)),
        OrderType::Market,
    );
    assert_eq!(orderbook.add_order(order.clone()), Ok(()));

    assert_eq!(orderbook.bids.len(), 0);
    assert_eq!(orderbook.asks.len(), 0);

    let updates = drain(&r);
    assert_eq!(
        kinds(&updates),
        vec![
            OrderbookUpdateType::New,
            OrderbookUpdateType::Filled,
            OrderbookUpdateType::NewTrades,
            OrderbookUpdateType::Filled,
            OrderbookUpdateType::NewTrades,
            OrderbookUpdateType::Filled,
            OrderbookUpdateType::NewTrades,
        ]
    );
    let all = trades(&updates);
    assert_eq!(all.len(), 3);
    let sold: Vec<(u128, u64, u64)> = all.iter().map(|t| (t.sell_order_id, t.quantity, t.price)).collect();
    assert_eq!(
        sold,
        vec![
            (asks[2].id, qty(900.0), px(100.0)),
            (asks[1].id, qty(500.0), px(100.05)),
            (asks[0].id, qty(100.10), px(100.10)),
        ]
    );
    let total: u64 = all.iter().map(|t| t.quantity).sum();
    assert_eq!(total, qty(1500.10));
}

#[test]
fn market_order_that_takes_the_best_whole_stops_there() {
    let (tx, r) = unbounded::<OrderbookUpdate>();
    let mut orderbook = OrderBook::new(1, tx);
    assert_eq!(orderbook.add_order(order_with_id(11, OrderSide::Sell, 100, 50)), Ok(()));
    assert_eq!(orderbook.add_order(order_with_id(12, OrderSide::Sell, 100, 60)), Ok(()));
    drain(&r);
    let taker = Order::new(9, 1, OrderSide::Buy, 100, None, OrderType::Market);
    assert_eq!(orderbook.add_order(taker), Ok(()));
    let left: Vec<(u128, u64)> = orderbook.asks.into_vec().iter().map(|o| (o.id, o.quantity)).collect();
    assert_eq!(left, vec![(12, 100)]);
    let updates = drain(&r);
    assert_eq!(
        kinds(&updates),
        vec![
            OrderbookUpdateType::New,
            OrderbookUpdateType::Filled,
            OrderbookUpdateType::NewTrades,
        ]
    );
}

#[test]
fn market_sell_runs_against_the_bids() {
    let (tx, r) = unbounded::<OrderbookUpdate>();
    let mut orderbook = OrderBook::new(1, tx);
    assert_eq!(orderbook.add_order(order_with_id(21, OrderSide::Buy, 30, 50)), Ok(()));
    assert_eq!(orderbook.add_order(order_with_id(22, OrderSide::Buy, 30, 60)), Ok(()));
    assert_eq!(orderbook.add_order(order_with_id(23, OrderSide::Sell, 5, 90)), Ok(()));
    drain(&r);
    let taker = Order::new(9, 1, OrderSide::Sell, 40, None, OrderType::Market);
    assert_eq!(orderbook.add_order(taker), Ok(()));
    let left: Vec<(u128, u64)> = orderbook.bids.into_vec().iter().map(|o| (o.id, o.quantity)).collect();
    assert_eq!(left, vec![(21, 20)]);
    assert_eq!(orderbook.asks.len(), 1);
    let updates = drain(&r);
    assert_eq!(
        kinds(&updates),
        vec![
            OrderbookUpdateType::New,
            OrderbookUpdateType::Filled,
            OrderbookUpdateType::NewTrades,
            OrderbookUpdateType::Update,
            OrderbookUpdateType::NewTrades,
        ]
    );
    let all = trades(&updates);
    assert_eq!(
        all.iter().map(|t| (t.buy_order_id, t.sell_order_id, t.price, t.quantity)).collect::<Vec<_>>(),
        vec![(22, taker.id, 60, 30), (21, taker.id, 50, 10)]
    );
    assert_eq!(all[0].buy_user_id, 7);
    assert_eq!(all[0].sell_user_id, 9);
}

#[test]
fn market_order_on_an_empty_side_is_dropped() {
    let (tx, r) = unbounded::<OrderbookUpdate>();
    let mut orderbook = OrderBook::new(1, tx);
    let taker = Order::new(9, 1, OrderSide::Buy, 40, None, OrderType::Market);
    assert_eq!(orderbook.add_order(taker), Ok(()));
    assert_eq!(orderbook.bids.len(), 0);
    assert_eq!(orderbook.asks.len(), 0);
    assert_eq!(kinds(&drain(&r)), vec![OrderbookUpdateType::New]);
}

#[test]
fn sell_that_crosses_trades_at_its_own_price() {
    let (tx, r) = unbounded::<OrderbookUpdate>();
    let mut orderbook = OrderBook::new(1, tx);
    assert_eq!(orderbook.add_order(order_with_id(31, OrderSide::Buy, 10, 100)), Ok(()));
    assert_eq!(orderbook.add_order(order_with_id(32, OrderSide::Buy, 10, 90)), Ok(()));
    drain(&r);
    assert_eq!(orderbook.add_order(order_with_id(33, OrderSide::Sell, 25, 90)), Ok(()));
    assert_eq!(orderbook.bids.len(), 0);
    let left: Vec<(u128, u64)> = orderbook.asks.into_vec().iter().map(|o| (o.id, o.quantity)).collect();
    assert_eq!(left, vec![(33, 5)]);
    let all = trades(&drain(&r));
    assert_eq!(
        all.iter().map(|t| (t.buy_order_id, t.sell_order_id, t.price, t.quantity)).collect::<Vec<_>>(),
        vec![(31, 33, 90, 10), (32, 33, 90, 10)]
    );
}

#[test]
fn book_does_not_cross_after_a_command() {
    let (tx, r) = unbounded::<OrderbookUpdate>();
    let mut orderbook = OrderBook::new(1, tx);
    let prices = [50u64, 47, 53, 49, 51, 50, 48, 52, 46, 54];
    for (i, price) in prices.iter().enumerate() {
        let side = if i % 2 == 0 { OrderSide::Buy } else { OrderSide::Sell };
        let order = order_with_id(100 + i as u128, side, 10 + i as u64, *price);
        assert_eq!(orderbook.add_order(order), Ok(()));
        let bid = orderbook.bids.peek();
        let ask = orderbook.asks.peek();
        if let (Some(bid), Some(ask)) = (bid, ask) {
            assert!(bid.price.unwrap() < ask.price.unwrap());
        }
        for resting in orderbook.bids.into_vec().iter().chain(orderbook.asks.into_vec().iter()) {
            assert!(resting.quantity > 0);
        }
    }
    drain(&r);
}

#[test]
fn cancel_twice_changes_nothing_the_second_time() {
    let (tx, r) = unbounded::<OrderbookUpdate>();
    let mut orderbook = OrderBook::new(1, tx);
    assert_eq!(orderbook.add_order(order_with_id(41, OrderSide::Buy, 10, 100)), Ok(()));
    assert_eq!(orderbook.add_order(order_with_id(42, OrderSide::Buy, 10, 90)), Ok(()));
    drain(&r);
    assert_eq!(orderbook.cancel_order(41, OrderSide::Buy), Ok(()));
    let once = orderbook.bids.into_vec();
    assert_eq!(once.iter().map(|o| o.id).collect::<Vec<_>>(), vec![42]);
    assert_eq!(orderbook.cancel_order(41, OrderSide::Buy), Ok(()));
    assert_eq!(orderbook.bids.into_vec(), once);
    let updates = drain(&r);
    assert_eq!(
        kinds(&updates),
        vec![OrderbookUpdateType::Cancel, OrderbookUpdateType::Cancel]
    );
    assert_eq!(updates[0].cancel_id, Some(41));
    assert_eq!(updates[1].cancel_id, Some(41));
}

#[test]
fn cancel_looks_only_at_the_named_side() {
    let (tx, r) = unbounded::<OrderbookUpdate>();
    let mut orderbook = OrderBook::new(1, tx);
    assert_eq!(orderbook.add_order(order_with_id(41, OrderSide::Buy, 10, 100)), Ok(()));
    assert_eq!(orderbook.cancel_order(41, OrderSide::Sell), Ok(()));
    assert_eq!(orderbook.bids.len(), 1);
    drain(&r);
}

#[test]
fn amend_price_twice_changes_nothing_the_second_time() {
    let (tx, r) = unbounded::<OrderbookUpdate>();
    let mut orderbook = OrderBook::new(1, tx);
    assert_eq!(orderbook.add_order(order_with_id(51, OrderSide::Buy, 10, 100)), Ok(()));
    assert_eq!(orderbook.add_order(order_with_id(52, OrderSide::Buy, 10, 90)), Ok(()));
    assert_eq!(orderbook.add_order(order_with_id(53, OrderSide::Sell, 4, 120)), Ok(()));
    drain(&r);
    assert_eq!(orderbook.amend_order_price(52, 120, OrderSide::Buy), Ok(()));
    let bids = orderbook.bids.into_vec();
    let asks = orderbook.asks.into_vec();
    assert_eq!(bids.iter().map(|o| (o.id, o.quantity, o.price)).collect::<Vec<_>>(),
        vec![(52, 6, Some(120)), (51, 10, Some(100))]);
    assert!(asks.is_empty());
    assert_eq!(orderbook.amend_order_price(52, 120, OrderSide::Buy), Ok(()));
    assert_eq!(orderbook.bids.into_vec(), bids);
    assert_eq!(orderbook.asks.into_vec(), asks);
    let updates = drain(&r);
    assert_eq!(
        kinds(&updates),
        vec![
            OrderbookUpdateType::Update,
            OrderbookUpdateType::Filled,
            OrderbookUpdateType::Update,
            OrderbookUpdateType::NewTrades,
            OrderbookUpdateType::Update,
        ]
    );
}

#[test]
fn amend_of_an_unknown_order_reports_no_order() {
    let (tx, r) = unbounded::<OrderbookUpdate>();
    let mut orderbook = OrderBook::new(1, tx);
    assert_eq!(orderbook.add_order(order_with_id(61, OrderSide::Buy, 10, 100)), Ok(()));
    drain(&r);
    assert_eq!(orderbook.amend_order_price(99, 5, OrderSide::Buy), Ok(()));
    assert_eq!(orderbook.amend_order_quantity(99, 5, OrderSide::Buy), Ok(()));
    let updates = drain(&r);
    assert_eq!(
        kinds(&updates),
        vec![OrderbookUpdateType::Update, OrderbookUpdateType::Update]
    );
    assert_eq!(updates[0].order, None);
    assert_eq!(updates[1].order, None);
    assert_eq!(orderbook.bids.peek().unwrap().price, Some(100));
}

#[test]
fn amend_quantity_changes_what_is_left() {
    let (tx, r) = unbounded::<OrderbookUpdate>();
    let mut orderbook = OrderBook::new(1, tx);
    assert_eq!(orderbook.add_order(order_with_id(61, OrderSide::Sell, 10, 100)), Ok(()));
    drain(&r);
    assert_eq!(orderbook.amend_order_quantity(61, 25, OrderSide::Sell), Ok(()));
    let resting = orderbook.asks.peek().unwrap();
    assert_eq!(resting.quantity, 25);
    assert_eq!(resting.non_mut_quantity, 10);
    let updates = drain(&r);
    assert_eq!(updates.len(), 1);
    assert_eq!(updates[0].order, Some(resting));
}

#[test]
fn invalid_input_is_refused_and_changes_nothing() {
    let (tx, r) = unbounded::<OrderbookUpdate>();
    let mut orderbook = OrderBook::new(1, tx);
    assert_eq!(orderbook.add_order(order_with_id(71, OrderSide::Buy, 10, 100)), Ok(()));
    drain(&r);
    let before = orderbook.bids.into_vec();

    let empty = order_with_id(72, OrderSide::Buy, 0, 100);
    assert_eq!(orderbook.add_order(empty), Err(OrderbookError::InvalidInput));
    assert_eq!(orderbook.place_order(empty), Err(OrderbookError::InvalidInput));
    let unpriced = Order::new(7, 1, OrderSide::Sell, 10, None, OrderType::Limit);
    assert_eq!(orderbook.add_order(unpriced), Err(OrderbookError::InvalidInput));
    assert_eq!(orderbook.place_order(unpriced), Err(OrderbookError::InvalidInput));
    let empty_market = Order::new(7, 1, OrderSide::Sell, 0, None, OrderType::Market);
    assert_eq!(orderbook.add_order(empty_market), Err(OrderbookError::InvalidInput));
    assert_eq!(
        orderbook.amend_order_quantity(71, 0, OrderSide::Buy),
        Err(OrderbookError::InvalidInput)
    );
    assert_eq!(
        orderbook.update_order(71, 0, OrderSide::Buy),
        Err(OrderbookError::InvalidInput)
    );

    assert_eq!(orderbook.bids.into_vec(), before);
    assert_eq!(orderbook.asks.len(), 0);
    assert!(drain(&r).is_empty());
}

#[test]
fn closed_channel_is_reported_after_the_command_is_done() {
    let (tx, r) = unbounded::<OrderbookUpdate>();
    let mut orderbook = OrderBook::new(1, tx);
    assert_eq!(orderbook.add_order(order_with_id(81, OrderSide::Buy, 10, 100)), Ok(()));
    drop(r);
    assert_eq!(
        orderbook.add_order(order_with_id(82, OrderSide::Sell, 4, 100)),
        Err(OrderbookError::ChannelClosed)
    );
    assert_eq!(orderbook.asks.len(), 0);
    assert_eq!(orderbook.bids.peek().unwrap().quantity, 6);
    assert_eq!(orderbook.cancel_order(81, OrderSide::Buy), Err(OrderbookError::ChannelClosed));
    assert_eq!(orderbook.bids.len(), 0);
    assert_eq!(orderbook.match_orders(), Ok(()));
}

#[test]
fn order_filled_and_place_order_and_match_orders() {
    let (tx, r) = unbounded::<OrderbookUpdate>();
    let mut orderbook = OrderBook::new(1, tx);
    assert_eq!(orderbook.place_order(order_with_id(91, OrderSide::Buy, 10, 100)), Ok(()));
    assert_eq!(orderbook.place_order(order_with_id(92, OrderSide::Sell, 10, 110)), Ok(()));
    assert_eq!(orderbook.match_orders(), Ok(()));
    assert_eq!(orderbook.order_filled(91, OrderSide::Buy), Ok(()));
    assert_eq!(orderbook.bids.len(), 0);
    assert_eq!(orderbook.asks.len(), 1);
    let updates = drain(&r);
    assert_eq!(
        kinds(&updates),
        vec![
            OrderbookUpdateType::Place,
            OrderbookUpdateType::Place,
            OrderbookUpdateType::Filled,
        ]
    );
    assert_eq!(updates[2].filled_id, Some(91));
}

#[test]
fn commands_act_on_every_order_with_the_identifier() {
    let (tx, r) = unbounded::<OrderbookUpdate>();
    let mut orderbook = OrderBook::new(1, tx);
    assert_eq!(orderbook.add_order(order_with_id(5, OrderSide::Buy, 10, 100)), Ok(()));
    assert_eq!(orderbook.add_order(order_with_id(5, OrderSide::Buy, 20, 90)), Ok(()));
    assert_eq!(orderbook.add_order(order_with_id(6, OrderSide::Buy, 30, 95)), Ok(()));
    drain(&r);
    assert_eq!(orderbook.update_order(5, 7, OrderSide::Buy), Ok(()));
    let seen: Vec<(u128, u64, Option<u64>)> =
        orderbook.bids.into_vec().iter().map(|o| (o.id, o.quantity, o.price)).collect();
    assert_eq!(seen, vec![(5, 7, Some(100)), (6, 30, Some(95)), (5, 7, Some(90))]);
    let updates = drain(&r);
    assert_eq!(updates[0].order.unwrap().price, Some(90));
    assert_eq!(orderbook.cancel_order(5, OrderSide::Buy), Ok(()));
    assert_eq!(orderbook.bids.into_vec().iter().map(|o| o.id).collect::<Vec<_>>(), vec![6]);
    drain(&r);
}

#[test]
fn summary_lines_and_mid_price() {
    let (tx, r) = unbounded::<OrderbookUpdate>();
    let mut orderbook = OrderBook::new(1, tx);
    assert_eq!(orderbook.summarize_orderbook_per_price_level(), (vec![], 0, vec![]));
    assert_eq!(orderbook.add_order(order_with_id(1, OrderSide::Buy, 10, 100)), Ok(()));
    assert_eq!(orderbook.get_mid_price(), 0);
    assert_eq!(orderbook.add_order(order_with_id(2, OrderSide::Buy, 20, 98)), Ok(()));
    assert_eq!(orderbook.add_order(order_with_id(3, OrderSide::Buy, 30, 99)), Ok(()));
    assert_eq!(orderbook.add_order(order_with_id(4, OrderSide::Sell, 5, 103)), Ok(()));
    assert_eq!(orderbook.add_order(order_with_id(5, OrderSide::Sell, 6, 101)), Ok(()));
    let (bids, mid, asks) = orderbook.summarize_orderbook_per_price_level();
    assert_eq!(bids, vec![(100, 10, 60), (99, 30, 50), (98, 20, 20)]);
    assert_eq!(asks, vec![(101, 6, 6), (103, 5, 11)]);
    assert_eq!(mid, 100);
    assert_eq!(orderbook.get_mid_price(), 100);
    drain(&r);
}

#[test]
fn mid_price_of_the_largest_prices() {
    let (tx, r) = unbounded::<OrderbookUpdate>();
    let mut orderbook = OrderBook::new(1, tx);
    assert_eq!(orderbook.add_order(order_with_id(1, OrderSide::Buy, 10, u64::MAX - 3)), Ok(()));
    assert_eq!(orderbook.add_order(order_with_id(2, OrderSide::Sell, 10, u64::MAX)), Ok(()));
    assert_eq!(orderbook.get_mid_price(), u64::MAX - 2);
    drain(&r);
}

#[test]
fn many_orders_at_one_price() {
    let (tx, r) = unbounded::<OrderbookUpdate>();
    let mut orderbook = OrderBook::new(Ulid::new().into(), tx);
    for i in 0..20000u64 {
        let order = Order::new(
            Ulid::new().into(),
            Ulid::new().into(),
            OrderSide::Sell,
            qty(100.10) + i,
            Some(px(100.10)),
            OrderType::Limit,
        );
        assert_eq!(orderbook.add_order(order), Ok(()));
        assert_eq!(drain(&r).len(), 2);
    }
    assert_eq!(orderbook.asks.len(), 20000);
    assert_eq!(orderbook.asks.peek().unwrap().quantity, qty(100.10));
}

#[test]
fn new_orders_get_the_given_fields() {
    let a = Order::new(3, 4, OrderSide::Sell, 12, Some(34), OrderType::Limit);
    assert_eq!((a.user_id, a.symbol, a.side), (3, 4, OrderSide::Sell));
    assert_eq!((a.quantity, a.non_mut_quantity, a.price), (12, 12, Some(34)));
    assert_eq!(a.order_type, OrderType::Limit);
    assert_eq!(a.status, orderbook::OrderStatus::Open);
    assert_eq!(a.payment_status, orderbook::PaymentStatus::Pending);
    assert!(a.is_acceptable());
    let b = Order::new(3, 4, OrderSide::Sell, 12, Some(34), OrderType::Limit);
    assert_ne!(a.id, b.id);
    let t = Order::get_test_order(4, 3);
    assert_eq!((t.user_id, t.symbol, t.side), (3, 4, OrderSide::Buy));
    assert_eq!((t.quantity, t.non_mut_quantity, t.price), (100, 100, Some(100)));
    let d = Order::default();
    assert_eq!((d.quantity, d.price, d.side), (0, None, OrderSide::Buy));
    assert!(!d.is_acceptable());
}

#[test]
fn sample_trades() {
    let t = Trade::get_trade_10_2(1, 2, 3, 4, 5);
    assert_eq!((t.symbol, t.buy_order_id, t.sell_order_id, t.buy_user_id, t.sell_user_id), (1, 2, 3, 4, 5));
    assert_eq!((t.price, t.quantity, t.status), (10, 2, TradeStatus::Pending));
    assert!(t.id.is_some() && t.created_at.is_some() && t.updated_at.is_some());
    let t = Trade::get_trade_10_5(1, 2, 3, 4, 5);
    assert_eq!((t.price, t.quantity), (10, 5));
    let t = Trade::get_trade_15_2(1, 2, 3, 4, 5);
    assert_eq!((t.price, t.quantity), (15, 2));
    let d = Trade::default();
    assert_eq!((d.id, d.price, d.quantity, d.status), (None, 0, 0, TradeStatus::Pending));
    assert!(d.created_at.is_some());
    let e = Trade::new_executed(1, 2, 3, 4, 5, 6, 7);
    assert_eq!(
        e,
        Trade {
            id: None,
            buy_order_id: 2,
            sell_order_id: 3,
            buy_user_id: 4,
            sell_user_id: 5,
            price: 6,
            quantity: 7,
            status: TradeStatus::Pending,
            symbol: 1,
            created_at: None,
            updated_at: None,
        }
    );
}
