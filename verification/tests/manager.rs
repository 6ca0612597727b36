use orderbook::{
    BidAskSummarize, Order, OrderBookSummarized, OrderSide, OrderType, OrderbookError,
    OrderbookManager, OrderbookUpdate, OrderbookUpdateType, Trade,
};
use ulid::Ulid;

fn pending(manager: &OrderbookManager) -> Vec<OrderbookUpdate> {
    let mut updates = Vec::new();
    while let Ok(update) = manager.rx.try_recv() {
        updates.push(update);
    }
    updates
}

fn buy(symbol: u128, quantity: u64, price: u64) -> Order {
    Order::new(Ulid::new().into(), symbol, OrderSide::Buy, quantity, Some(price), OrderType::Limit)
}

fn sell(symbol: u128, quantity: u64, price: u64) -> Order {
    Order::new(Ulid::new().into(), symbol, OrderSide::Sell, quantity, Some(price), OrderType::Limit)
}

#[test]
fn empty_book_has_an_empty_summary() {
    let mut manager = OrderbookManager::new();
    let symbol: u128 = Ulid::new().into();
    assert_eq!(manager.new_orderbook(symbol), Ok(()));
    let summary = manager.get_orderbook(symbol).unwrap();
    assert!(summary.bids.is_empty());
    assert!(summary.asks.is_empty());
    assert_eq!(summary.mid_price, 0);
}

#[test]
fn unknown_symbols_are_not_found() {
    let mut manager = OrderbookManager::new();
    assert_eq!(manager.new_orderbook(1), Ok(()));
    assert_eq!(manager.add_order(buy(2, 1, 1)), Err(OrderbookError::NotFound));
    assert_eq!(
        manager.amend_order_price(2, 5, 10, OrderSide::Buy),
        Err(OrderbookError::NotFound)
    );
    assert_eq!(
        manager.amend_order_quantity(2, 5, 10, OrderSide::Buy),
        Err(OrderbookError::NotFound)
    );
    assert_eq!(
        manager.amend_order_quantity(2, 5, 0, OrderSide::Buy),
        Err(OrderbookError::NotFound)
    );
    assert_eq!(manager.cancel_order(5, 2, OrderSide::Buy), Err(OrderbookError::NotFound));
    assert_eq!(manager.get_orderbook(2).err(), Some(OrderbookError::NotFound));
    assert!(pending(&manager).is_empty());
    assert_eq!(manager.orderbooks.len(), 1);
}

#[test]
fn invalid_commands_are_refused() {
    let mut manager = OrderbookManager::new();
    assert_eq!(manager.new_orderbook(1), Ok(()));
    assert_eq!(manager.new_orderbook(1), Err(OrderbookError::InvalidInput));
    assert_eq!(manager.add_order(buy(1, 0, 5)), Err(OrderbookError::InvalidInput));
    let unpriced = Order::new(9, 1, OrderSide::Buy, 5, None, OrderType::Limit);
    assert_eq!(manager.add_order(unpriced), Err(OrderbookError::InvalidInput));
    assert_eq!(
        manager.amend_order_quantity(1, 5, 0, OrderSide::Buy),
        Err(OrderbookError::InvalidInput)
    );
    assert!(pending(&manager).is_empty());
    assert!(manager.get_orderbook(1).unwrap().bids.is_empty());
}

#[test]
fn a_second_book_for_a_symbol_leaves_the_first_alone() {
    let mut manager = OrderbookManager::new();
    assert_eq!(manager.new_orderbook(1), Ok(()));
    assert_eq!(manager.add_order(buy(1, 3, 5)), Ok(()));
    assert_eq!(manager.new_orderbook(1), Err(OrderbookError::InvalidInput));
    assert_eq!(manager.get_orderbook(1).unwrap().bids.len(), 1);
}

#[test]
fn books_of_different_symbols_do_not_mix() {
    let mut manager = OrderbookManager::new();
    assert_eq!(manager.new_orderbook(1), Ok(()));
    assert_eq!(manager.new_orderbook(2), Ok(()));
    assert_eq!(manager.add_order(buy(1, 3, 5)), Ok(()));
    assert_eq!(manager.add_order(sell(2, 3, 5)), Ok(()));
    assert_eq!(manager.get_orderbook(1).unwrap().bids.len(), 1);
    assert_eq!(manager.get_orderbook(1).unwrap().asks.len(), 0);
    assert_eq!(manager.get_orderbook(2).unwrap().bids.len(), 0);
    assert_eq!(manager.get_orderbook(2).unwrap().asks.len(), 1);
    let symbols: Vec<u128> = pending(&manager).iter().map(|u| u.symbol).collect();
    assert_eq!(symbols, vec![1, 1, 2, 2]);
}

#[test]
fn test_listen_to_new_orders() {
    let mut orderbooks_manager = OrderbookManager::new();

    let symbol = Ulid::new().into();
    assert_eq!(orderbooks_manager.new_orderbook(symbol), Ok(()));
    let order1 = buy(symbol, 1, 1);
    let order2 = buy(symbol, 1, 1);
    let order3 = buy(symbol, 1, 1);

    let _ = orderbooks_manager.add_order(order1.clone());
    let _ = orderbooks_manager.add_order(order2.clone());
    let _ = orderbooks_manager.add_order(order3.clone());

    let yielded: Vec<Order> = pending(&orderbooks_manager)
        .iter()
        .filter_map(|u| orderbooks_manager.listen_new_orders(u))
        .collect();
    assert_eq!(yielded, vec![order1, order2, order3]);
}

#[test]
fn test_listen_to_placed_orders() {
    let mut orderbooks_manager = OrderbookManager::new();

    let symbol = Ulid::new().into();
    assert_eq!(orderbooks_manager.new_orderbook(symbol), Ok(()));
    let order1 = buy(symbol, 1, 1);
    let order2 = buy(symbol, 1, 1);
    let order3 = buy(symbol, 1, 1);

    let _ = orderbooks_manager.add_order(order1.clone());
    let _ = orderbooks_manager.add_order(order2.clone());
    let _ = orderbooks_manager.add_order(order3.clone());

    let yielded: Vec<Order> = pending(&orderbooks_manager)
        .iter()
        .filter_map(|u| orderbooks_manager.listen_placed_orders(u))
        .collect();
    assert_eq!(yielded, vec![order1, order2, order3]);
}

fn first_summary(manager: &OrderbookManager) -> OrderBookSummarized {
    let updates = pending(manager);
    let mut summaries = updates.iter().filter_map(|u| manager.listen_orderbook_summary(u));
    summaries.next().unwrap()
}

#[test]
fn test_listen_to_orderbook_summary() {
    let mut orderbooks_manager = OrderbookManager::new();

    let symbol = Ulid::new().into();
    assert_eq!(orderbooks_manager.new_orderbook(symbol), Ok(()));
    let _ = orderbooks_manager.add_order(buy(symbol, 1, 1));
    let _ = orderbooks_manager.add_order(buy(symbol, 1, 2));
    let _ = orderbooks_manager.add_order(buy(symbol, 1, 3));

    let summary = first_summary(&orderbooks_manager);
    assert_eq!(
        summary.bids[0],
        BidAskSummarize { price: 3, qty: 1, qty_sum: 3, qty_percent: 33_333_333 }
    );
    assert_eq!(
        summary.bids[1],
        BidAskSummarize { price: 2, qty: 1, qty_sum: 2, qty_percent: 33_333_333 }
    );
    assert_eq!(
        summary.bids[2],
        BidAskSummarize { price: 1, qty: 1, qty_sum: 1, qty_percent: 33_333_333 }
    );
    let percent = summary.bids[0].qty_percent as f64 / 1_000_000.0;
    assert!((percent - 33.33333333333333).abs() < 0.000001);
}

#[test]
fn test_listen_to_orderbook_summary_sell() {
    let mut orderbooks_manager = OrderbookManager::new();

    let symbol = Ulid::new().into();
    assert_eq!(orderbooks_manager.new_orderbook(symbol), Ok(()));
    let _ = orderbooks_manager.add_order(sell(symbol, 1, 1));
    let _ = orderbooks_manager.add_order(sell(symbol, 1, 2));
    let _ = orderbooks_manager.add_order(sell(symbol, 1, 3));

    let summary = first_summary(&orderbooks_manager);
    assert_eq!(
        summary.asks[0],
        BidAskSummarize { price: 1, qty: 1, qty_sum: 1, qty_percent: 33_333_333 }
    );
    assert_eq!(
        summary.asks[1],
        BidAskSummarize { price: 2, qty: 1, qty_sum: 2, qty_percent: 33_333_333 }
    );
    assert_eq!(
        summary.asks[2],
        BidAskSummarize { price: 3, qty: 1, qty_sum: 3, qty_percent: 33_333_333 }
    );
}

#[test]
fn test_listen_to_orderbook_updates_amend_price() {
    let mut orderbooks_manager = OrderbookManager::new();

    let symbol = Ulid::new().into();
    assert_eq!(orderbooks_manager.new_orderbook(symbol), Ok(()));
    let order1 = buy(symbol, 1, 1);

    let _ = orderbooks_manager.add_order(order1.clone());
    let _ = orderbooks_manager.amend_order_price(symbol, order1.id, 50, order1.side);

    let yielded: Vec<Order> = pending(&orderbooks_manager)
        .iter()
        .filter_map(|u| orderbooks_manager.listen_orderbook_updates(u))
        .collect();
    assert_eq!(yielded.len(), 1);
    assert_eq!(yielded[0].price, Some(50));
    assert_eq!(yielded[0].id, order1.id);
    let summary = orderbooks_manager.get_orderbook(symbol).unwrap();
    assert_eq!(summary.bids[0].price, 50);
}

#[test]
fn test_listen_to_orderbook_updates_amend_quantity() {
    let mut orderbooks_manager = OrderbookManager::new();

    let symbol = Ulid::new().into();
    assert_eq!(orderbooks_manager.new_orderbook(symbol), Ok(()));
    let order1 = buy(symbol, 1, 1);

    let _ = orderbooks_manager.add_order(order1.clone());
    let _ = orderbooks_manager.amend_order_quantity(symbol, order1.id, 10, order1.side);

    let yielded: Vec<Order> = pending(&orderbooks_manager)
        .iter()
        .filter_map(|u| orderbooks_manager.listen_orderbook_updates(u))
        .collect();
    assert_eq!(yielded.len(), 1);
    assert_eq!(yielded[0].quantity, 10);
}

#[test]
fn test_listen_to_new_trade() {
    let mut orderbooks_manager = OrderbookManager::new();

    let symbol = Ulid::new().into();
    assert_eq!(orderbooks_manager.new_orderbook(symbol), Ok(()));
    let order1 = buy(symbol, 1, 1);
    let order2 = sell(symbol, 1, 1);

    let _ = orderbooks_manager.add_order(order1.clone());
    let _ = orderbooks_manager.add_order(order2.clone());

    let yielded: Vec<Trade> = pending(&orderbooks_manager)
        .iter()
        .filter_map(|u| orderbooks_manager.listen_new_trades(u))
        .collect();
    assert_eq!(yielded.len(), 1);
    let trade = yielded[0];
    assert_eq!(trade.symbol, order1.symbol);
    assert_eq!(Some(trade.price), order1.price);
    assert_eq!(trade.quantity, order1.quantity);
    assert_eq!(trade.buy_order_id, order1.id);
    assert_eq!(trade.sell_order_id, order2.id);
}

#[test]
fn test_listen_to_filled_orders() {
    let mut orderbooks_manager = OrderbookManager::new();

    let symbol = Ulid::new().into();
    assert_eq!(orderbooks_manager.new_orderbook(symbol), Ok(()));
    let order1 = buy(symbol, 1, 1);
    let order2 = sell(symbol, 1, 1);

    let _ = orderbooks_manager.add_order(order1.clone());
    let _ = orderbooks_manager.add_order(order2.clone());

    let yielded: Vec<u128> = pending(&orderbooks_manager)
        .iter()
        .filter_map(|u| orderbooks_manager.listen_orderbook_fills(u))
        .collect();
    assert_eq!(yielded, vec![order2.id, order1.id]);
}

#[test]
fn test_listen_to_cancelled_orders() {
    let mut orderbooks_manager = OrderbookManager::new();

    let symbol = Ulid::new().into();
    assert_eq!(orderbooks_manager.new_orderbook(symbol), Ok(()));
    let order1 = buy(symbol, 1, 1);

    let _ = orderbooks_manager.add_order(order1.clone());
    let _ = orderbooks_manager.cancel_order(order1.id, symbol, order1.side);

    let yielded: Vec<u128> = pending(&orderbooks_manager)
        .iter()
        .filter_map(|u| orderbooks_manager.listen_orderbook_cancels(u))
        .collect();
    assert_eq!(yielded, vec![order1.id]);
    assert!(orderbooks_manager.get_orderbook(symbol).unwrap().bids.is_empty());
}

#[test]
fn summary_by_symbol_skips_other_symbols_and_kinds() {
    let mut manager = OrderbookManager::new();
    assert_eq!(manager.new_orderbook(1), Ok(()));
    assert_eq!(manager.new_orderbook(2), Ok(()));
    let _ = manager.add_order(buy(1, 4, 10));
    let _ = manager.add_order(sell(2, 6, 20));
    let updates = pending(&manager);
    let seen: Vec<(OrderbookUpdateType, u128, bool, bool)> = updates
        .iter()
        .map(|u| {
            (
                u.update_type,
                u.symbol,
                manager.listen_orderbook_summary_by_symbol(2, u).is_some(),
                manager.listen_orderbook_summary(u).is_some(),
            )
        })
        .collect();
    assert_eq!(
        seen,
        vec![
            (OrderbookUpdateType::New, 1, false, false),
            (OrderbookUpdateType::Place, 1, false, true),
            (OrderbookUpdateType::New, 2, false, false),
            (OrderbookUpdateType::Place, 2, true, true),
        ]
    );
    let summary = manager.listen_orderbook_summary_by_symbol(2, &updates[3]).unwrap();
    assert_eq!(
        summary.asks,
        vec![BidAskSummarize { price: 20, qty: 6, qty_sum: 6, qty_percent: 100_000_000 }]
    );
    let stray = OrderbookUpdate {
        symbol: 3,
        update_type: OrderbookUpdateType::Cancel,
        order: None,
        trade: None,
        cancel_id: Some(1),
        filled_id: None,
    };
    assert!(manager.listen_orderbook_summary(&stray).is_none());
    assert!(manager.listen_orderbook_summary_by_symbol(3, &stray).is_none());
}

#[test]
fn filters_yield_nothing_for_other_kinds() {
    let manager = OrderbookManager::new();
    let order = buy(1, 1, 1);
    let trade = Trade::new_executed(1, 2, 3, 4, 5, 6, 7);
    let kinds = [
        OrderbookUpdateType::New,
        OrderbookUpdateType::Place,
        OrderbookUpdateType::Cancel,
        OrderbookUpdateType::Update,
        OrderbookUpdateType::NewTrades,
        OrderbookUpdateType::Filled,
    ];
    for kind in kinds {
        let update = OrderbookUpdate {
            symbol: 1,
            update_type: kind,
            order: Some(order),
            trade: Some(trade),
            cancel_id: Some(11),
            filled_id: Some(12),
        };
        assert_eq!(
            manager.listen_new_orders(&update),
            if kind == OrderbookUpdateType::New { Some(order) } else { None }
        );
        assert_eq!(
            manager.listen_placed_orders(&update),
            if kind == OrderbookUpdateType::Place { Some(order) } else { None }
        );
        assert_eq!(
            manager.listen_orderbook_updates(&update),
            if kind == OrderbookUpdateType::Update { Some(order) } else { None }
        );
        assert_eq!(
            manager.listen_new_trades(&update),
            if kind == OrderbookUpdateType::NewTrades { Some(trade) } else { None }
        );
        assert_eq!(
            manager.listen_orderbook_cancels(&update),
            if kind == OrderbookUpdateType::Cancel { Some(11) } else { None }
        );
        assert_eq!(
            manager.listen_orderbook_fills(&update),
            if kind == OrderbookUpdateType::Filled { Some(12) } else { None }
        );
    }
}

#[test]
fn shares_of_a_side() {
    let summary = OrderBookSummarized::new(
        vec![(30, 1, 1), (20, 2, 3), (10, 5, 8)],
        25,
        vec![(40, 7, 7)],
    );
    assert_eq!(summary.mid_price, 25);
    assert_eq!(
        summary.bids,
        vec![
            BidAskSummarize { price: 30, qty: 1, qty_sum: 1, qty_percent: 12_500_000 },
            BidAskSummarize { price: 20, qty: 2, qty_sum: 3, qty_percent: 25_000_000 },
            BidAskSummarize { price: 10, qty: 5, qty_sum: 8, qty_percent: 62_500_000 },
        ]
    );
    assert_eq!(
        summary.asks,
        vec![BidAskSummarize { price: 40, qty: 7, qty_sum: 7, qty_percent: 100_000_000 }]
    );
    let nothing = OrderBookSummarized::new(vec![(5, 0, 0)], 0, vec![]);
    assert_eq!(nothing.bids[0].qty_percent, 0);
    let huge = OrderBookSummarized::new(vec![(5, u64::MAX, 0), (5, u64::MAX, 0)], 0, vec![]);
    assert_eq!(huge.bids[0].qty_percent, 50_000_000);
    assert_eq!(BidAskSummarize::new(1, 2, 3, 4), BidAskSummarize { price: 1, qty: 2, qty_sum: 3, qty_percent: 4 });
}
