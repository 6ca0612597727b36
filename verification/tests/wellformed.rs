use crossbeam_channel::unbounded;
use orderbook::{
    ModifiableBinaryHeap, Order, OrderBook, OrderSide, OrderType, OrderbookManager,
    OrderbookUpdate,
};
use std::cmp::Ordering;

fn resting(id: u128, side: OrderSide, quantity: u64, price: Option<u64>) -> Order {
    let mut order = Order::new(1, 1, side, quantity, price, OrderType::Limit);
    order.id = id;
    order
}

#[test]
fn orders_compare_by_rank() {
    let low_bid = resting(1, OrderSide::Buy, 5, Some(10));
    let high_bid = resting(2, OrderSide::Buy, 5, Some(11));
    let other_high_bid = resting(3, OrderSide::Buy, 9, Some(11));
    assert!(high_bid > low_bid);
    assert!(low_bid < high_bid);
    assert!(low_bid <= high_bid);
    assert!(!(high_bid > other_high_bid));
    assert!(!(high_bid < other_high_bid));
    assert!(high_bid >= other_high_bid);
    assert_eq!(high_bid.partial_cmp(&other_high_bid), Some(Ordering::Equal));
    assert_eq!(low_bid.partial_cmp(&high_bid), Some(Ordering::Less));
    assert_eq!(high_bid.partial_cmp(&low_bid), Some(Ordering::Greater));

    let low_ask = resting(4, OrderSide::Sell, 5, Some(10));
    let high_ask = resting(5, OrderSide::Sell, 5, Some(11));
    assert!(low_ask > high_ask);
    assert_eq!(high_ask.partial_cmp(&low_ask), Some(Ordering::Less));

    let bid_at_5 = resting(10, OrderSide::Buy, 5, Some(5));
    let ask_at_7 = resting(11, OrderSide::Sell, 5, Some(7));
    assert_eq!(bid_at_5.partial_cmp(&ask_at_7), Some(Ordering::Less));
    assert_eq!(ask_at_7.partial_cmp(&bid_at_5), Some(Ordering::Less));
    let ask_at_3 = resting(12, OrderSide::Sell, 5, Some(3));
    assert_eq!(bid_at_5.partial_cmp(&ask_at_3), Some(Ordering::Greater));
    assert_eq!(ask_at_3.partial_cmp(&bid_at_5), Some(Ordering::Greater));
    assert_eq!(bid_at_5.partial_cmp(&resting(13, OrderSide::Sell, 1, Some(5))), Some(Ordering::Equal));

    let unpriced_bid = resting(6, OrderSide::Buy, 5, None);
    let free_bid = resting(7, OrderSide::Buy, 5, Some(0));
    assert!(unpriced_bid < free_bid);
    let unpriced_ask = resting(8, OrderSide::Sell, 5, None);
    let free_ask = resting(9, OrderSide::Sell, 5, Some(0));
    assert!(unpriced_ask > free_ask);
}

#[test]
fn a_heap_is_always_in_order() {
    let mut heap = ModifiableBinaryHeap::new();
    assert!(heap.is_wf());
    for (id, price) in [(1u128, 5u64), (2, 9), (3, 1), (4, 7), (5, 9)] {
        heap.push(resting(id, OrderSide::Buy, 1, Some(price)));
        assert!(heap.is_wf());
    }
    heap.modify(|mut o: Order| {
        o.price = Some(100 - o.price.unwrap());
        o
    });
    assert!(heap.is_wf());
    let prices: Vec<u64> = heap.into_vec().iter().map(|o| o.price.unwrap()).collect();
    assert_eq!(prices, vec![99, 95, 93, 91, 91]);
    heap.retain(|o: &Order| o.id % 2 == 1);
    assert!(heap.is_wf());
    heap.pop();
    assert!(heap.is_wf());
}

#[test]
fn a_book_stays_in_good_order() {
    let (tx, _rx) = unbounded::<OrderbookUpdate>();
    let mut book = OrderBook::new(1, tx);
    assert!(book.is_wf());
    let prices = [50u64, 47, 53, 49, 51, 50, 48, 52, 46, 54, 50, 50];
    for (i, price) in prices.iter().enumerate() {
        let side = if i % 3 == 0 { OrderSide::Sell } else { OrderSide::Buy };
        let _ = book.add_order(resting(i as u128, side, 3 + i as u64, Some(*price)));
        assert!(book.is_wf());
    }
    let _ = book.amend_order_price(4, 60, OrderSide::Buy);
    assert!(book.is_wf());
    let _ = book.amend_order_quantity(7, 1, OrderSide::Buy);
    assert!(book.is_wf());
    let _ = book.cancel_order(1, OrderSide::Buy);
    assert!(book.is_wf());
    let _ = book.add_order(Order::new(1, 1, OrderSide::Sell, 1000, None, OrderType::Market));
    assert!(book.is_wf());
    assert_eq!(book.bids.len(), 0);
}

#[test]
fn a_book_with_a_stray_order_is_not_in_good_order() {
    let (tx, _rx) = unbounded::<OrderbookUpdate>();
    let mut book = OrderBook::new(1, tx.clone());
    book.bids.push(resting(1, OrderSide::Sell, 5, Some(10)));
    assert!(!book.is_wf());

    let mut book = OrderBook::new(1, tx.clone());
    book.asks.push(resting(1, OrderSide::Sell, 0, Some(10)));
    assert!(!book.is_wf());

    let mut book = OrderBook::new(1, tx.clone());
    book.asks.push(resting(1, OrderSide::Sell, 5, None));
    assert!(!book.is_wf());

    let mut book = OrderBook::new(1, tx);
    book.asks.push(resting(1, OrderSide::Sell, 5, Some(10)));
    book.bids.push(resting(2, OrderSide::Buy, 5, Some(10)));
    assert!(book.is_wf());
}

#[test]
fn a_manager_files_books_under_their_symbols() {
    let mut manager = OrderbookManager::new();
    assert!(manager.is_wf());
    assert_eq!(manager.new_orderbook(1), Ok(()));
    assert_eq!(manager.new_orderbook(2), Ok(()));
    let _ = manager.add_order(Order::new(1, 2, OrderSide::Buy, 5, Some(10), OrderType::Limit));
    assert!(manager.is_wf());
    let stray = OrderBook::new(4, manager.tx.clone());
    manager.orderbooks.insert(3, stray);
    assert!(!manager.is_wf());
}

#[test]
fn a_book_knows_whether_it_crosses() {
    let (tx, _rx) = unbounded::<OrderbookUpdate>();
    let mut book = OrderBook::new(1, tx);
    assert!(!book.is_crossing());
    book.bids.push(resting(1, OrderSide::Buy, 5, Some(10)));
    assert!(!book.is_crossing());
    book.asks.push(resting(2, OrderSide::Sell, 5, Some(11)));
    assert!(!book.is_crossing());
    book.asks.push(resting(3, OrderSide::Sell, 5, Some(10)));
    assert!(book.is_crossing());
    assert!(book.is_wf());
    assert_eq!(book.match_orders(), Ok(()));
    assert!(!book.is_crossing());
    assert_eq!(book.bids.len(), 0);
    assert_eq!(book.asks.len(), 1);
}

#[test]
fn a_manager_with_a_crossing_book_is_not_in_good_order() {
    let mut manager = OrderbookManager::new();
    let mut book = OrderBook::new(1, manager.tx.clone());
    book.bids.push(resting(1, OrderSide::Buy, 5, Some(10)));
    book.asks.push(resting(2, OrderSide::Sell, 5, Some(10)));
    manager.orderbooks.insert(1, book);
    assert!(!manager.is_wf());
}

#[test]
fn a_book_emits_on_the_sender_it_was_given() {
    let (tx, rx) = unbounded::<OrderbookUpdate>();
    let mut book = OrderBook::new(1, tx);
    assert_eq!(book.match_orders(), Ok(()));
    assert!(rx.try_recv().is_err());
    let order = resting(1, OrderSide::Buy, 5, Some(10));
    assert_eq!(book.add_order(order), Ok(()));
    assert_eq!(rx.try_recv().unwrap().order, Some(order));
    assert_eq!(rx.try_recv().unwrap().order, Some(order));
    assert!(rx.try_recv().is_err());
    let direct = OrderbookUpdate {
        symbol: 9,
        update_type: orderbook::OrderbookUpdateType::Cancel,
        order: None,
        trade: None,
        cancel_id: Some(3),
        filled_id: None,
    };
    assert!(book.tx.sender().send(direct).is_ok());
    assert_eq!(rx.try_recv(), Ok(direct));
    drop(rx);
    assert_eq!(book.match_orders(), Ok(()));
    assert_eq!(
        book.cancel_order(1, OrderSide::Buy),
        Err(orderbook::OrderbookError::ChannelClosed)
    );
}
