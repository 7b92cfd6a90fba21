use smolexchange::engine::execution::ExecutionType;
use smolexchange::engine::order::{Order, OrderSide, OrderType, Stock};
use smolexchange::engine::orderbook::OrderBook;
use smolexchange::errors::{OrderError, StockError};

fn book_stock() -> Stock {
    Stock::new(5, "Pear".to_string(), "PEAR".to_string(), Some(10), Some(10), Some(1))
}

fn limit(id: u128, side: OrderSide, qty: i32, price: i64) -> Order {
    Order::new(id, 9, book_stock(), side, OrderType::LIMIT, qty, 3, Some(price))
}

fn market(id: u128, side: OrderSide, qty: i32) -> Order {
    Order::new(id, 9, book_stock(), side, OrderType::MARKET, qty, 3, None)
}

fn ids_at(book: &OrderBook, side: OrderSide, price: i64) -> Vec<u128> {
    book.get_price_level(side, price)
        .unwrap()
        .orders
        .iter()
        .copied()
        .collect()
}

#[test]
fn new_book_is_empty() {
    let book = OrderBook::new(book_stock());
    assert_eq!(book.stock_id, 5);
    assert_eq!(book.stock_info, book_stock());
    assert!(book.oid_map.is_empty());
    assert!(book.bid_price_levels.is_empty());
    assert!(book.ask_price_levels.is_empty());
    assert!(book.order_queue.is_empty());
    assert_eq!(book.last_market_price, None);
    assert_eq!(book.best_bid(), None);
    assert_eq!(book.best_ask(), None);
    assert_eq!(book.get_stock(), Ok(book_stock()));
    assert!(book.get_oid_map().is_empty());
    assert!(book.is_sound());
    assert!(book.is_not_crossed());
}

#[test]
fn add_order_puts_the_order_at_the_tail_of_its_level() {
    let mut book = OrderBook::new(book_stock());
    assert_eq!(book.add_order(limit(1, OrderSide::BID, 10, 100)), Ok(()));
    assert_eq!(book.add_order(limit(2, OrderSide::BID, 20, 100)), Ok(()));
    assert_eq!(book.add_order(limit(3, OrderSide::BID, 30, 90)), Ok(()));
    assert_eq!(book.add_order(limit(4, OrderSide::ASK, 40, 110)), Ok(()));
    assert_eq!(ids_at(&book, OrderSide::BID, 100), vec![1, 2]);
    assert_eq!(ids_at(&book, OrderSide::BID, 90), vec![3]);
    assert_eq!(ids_at(&book, OrderSide::ASK, 110), vec![4]);
    assert_eq!(book.get_price_level(OrderSide::BID, 100).unwrap().qty, 30);
    assert_eq!(book.get_price_level(OrderSide::BID, 100).unwrap().price, 100);
    assert_eq!(book.get_price_level(OrderSide::BID, 90).unwrap().qty, 30);
    assert_eq!(book.get_price_level(OrderSide::ASK, 110).unwrap().qty, 40);
    assert!(book.get_price_level(OrderSide::ASK, 100).is_none());
    assert_eq!(book.oid_map.len(), 4);
    assert_eq!(book.get_oid_map().get(&2), Some(&limit(2, OrderSide::BID, 20, 100)));
    assert_eq!(book.best_bid(), Some(100));
    assert_eq!(book.best_ask(), Some(110));
    assert!(book.is_sound());
    assert!(book.is_not_crossed());
}

#[test]
fn add_order_does_not_match_and_can_cross_the_book() {
    let mut book = OrderBook::new(book_stock());
    assert_eq!(book.add_order(limit(1, OrderSide::BID, 10, 100)), Ok(()));
    assert_eq!(book.add_order(limit(2, OrderSide::ASK, 10, 90)), Ok(()));
    assert_eq!(book.oid_map.len(), 2);
    assert_eq!(book.last_market_price, None);
    assert!(book.is_sound());
    assert!(!book.is_not_crossed());
}

#[test]
fn add_order_refuses_what_is_not_valid() {
    let mut book = OrderBook::new(book_stock());
    let before = book.clone();
    let mut order = limit(0, OrderSide::BID, 10, 100);
    assert_eq!(book.add_order(order.clone()), Err(OrderError::InvalidOrderID));
    order.order_id = 1;
    order.qty = 0;
    assert_eq!(book.add_order(order.clone()), Err(OrderError::InvalidQuantity));
    order.qty = 1_000_001;
    assert_eq!(book.add_order(order.clone()), Err(OrderError::InvalidQuantity));
    order.qty = 1_000_000;
    order.price = None;
    assert_eq!(book.add_order(order.clone()), Err(OrderError::InvalidPrice));
    assert_eq!(book, before);
    order.price = Some(1);
    assert_eq!(book.add_order(order.clone()), Ok(()));
    assert_eq!(book.get_price_level(OrderSide::BID, 1).unwrap().qty, 1_000_000);
}

#[test]
fn add_order_refuses_an_id_that_rests() {
    let mut book = OrderBook::new(book_stock());
    assert_eq!(book.add_order(limit(1, OrderSide::BID, 10, 100)), Ok(()));
    let before = book.clone();
    assert_eq!(
        book.add_order(limit(1, OrderSide::ASK, 5, 200)),
        Err(OrderError::InvalidOrderID)
    );
    assert_eq!(
        book.match_order(limit(1, OrderSide::ASK, 5, 50)),
        Err(OrderError::InvalidOrderID)
    );
    assert_eq!(book, before);
}

#[test]
fn market_order_rests_at_the_last_trade_price() {
    let mut book = OrderBook::new(book_stock());
    assert_eq!(
        book.add_order(market(1, OrderSide::ASK, 10)),
        Err(OrderError::InvalidPrice)
    );
    assert!(book.oid_map.is_empty());
    book.last_market_price = Some(4200);
    assert_eq!(book.add_order(market(1, OrderSide::ASK, 10)), Ok(()));
    assert_eq!(book.oid_map.get(&1).unwrap().price, Some(4200));
    assert_eq!(ids_at(&book, OrderSide::ASK, 4200), vec![1]);
    assert!(book.is_sound());
}

#[test]
fn delete_order_takes_the_order_and_an_empty_level_away() {
    let mut book = OrderBook::new(book_stock());
    book.add_order(limit(1, OrderSide::BID, 10, 100)).unwrap();
    book.add_order(limit(2, OrderSide::BID, 20, 100)).unwrap();
    book.add_order(limit(3, OrderSide::BID, 30, 100)).unwrap();
    assert_eq!(book.delete_order(2), Ok(()));
    assert_eq!(ids_at(&book, OrderSide::BID, 100), vec![1, 3]);
    assert_eq!(book.get_price_level(OrderSide::BID, 100).unwrap().qty, 40);
    assert!(!book.oid_map.contains_key(&2));
    assert!(book.is_sound());
    assert_eq!(book.delete_order(1), Ok(()));
    assert_eq!(book.delete_order(3), Ok(()));
    assert!(book.bid_price_levels.is_empty());
    assert!(book.oid_map.is_empty());
    assert!(book.is_sound());
}

#[test]
fn delete_of_an_unknown_order_changes_nothing() {
    let mut book = OrderBook::new(book_stock());
    book.add_order(limit(1, OrderSide::BID, 10, 100)).unwrap();
    let before = book.clone();
    assert_eq!(book.delete_order(7), Err(OrderError::UnknownOrder));
    assert_eq!(book.modify_order(7, 5, Some(100)), Err(OrderError::UnknownOrder));
    assert_eq!(book.modify_order(7, 0, Some(100)), Err(OrderError::UnknownOrder));
    assert_eq!(book, before);
}

#[test]
fn insert_then_delete_gives_the_book_back() {
    let mut book = OrderBook::new(book_stock());
    book.add_order(limit(1, OrderSide::BID, 10, 100)).unwrap();
    book.add_order(limit(2, OrderSide::ASK, 20, 120)).unwrap();
    book.last_market_price = Some(110);
    let before = book.clone();
    // into a level that exists
    book.add_order(limit(3, OrderSide::BID, 5, 100)).unwrap();
    assert_ne!(book, before);
    book.delete_order(3).unwrap();
    assert_eq!(book, before);
    // into a level of its own
    book.add_order(limit(4, OrderSide::ASK, 5, 130)).unwrap();
    book.delete_order(4).unwrap();
    assert_eq!(book, before);
    // a market order, at the last trade price
    book.add_order(market(5, OrderSide::ASK, 5)).unwrap();
    book.delete_order(5).unwrap();
    assert_eq!(book, before);
}

#[test]
fn modify_to_the_same_quantity_and_price_changes_nothing() {
    let mut book = OrderBook::new(book_stock());
    book.add_order(limit(1, OrderSide::BID, 10, 100)).unwrap();
    book.add_order(limit(2, OrderSide::BID, 20, 100)).unwrap();
    book.add_order(limit(3, OrderSide::ASK, 20, 120)).unwrap();
    let before = book.clone();
    assert_eq!(book.modify_order(1, 10, Some(100)), Ok(()));
    assert_eq!(book, before);
    assert_eq!(book.modify_order(3, 20, Some(120)), Ok(()));
    assert_eq!(book, before);
}

#[test]
fn modify_down_at_the_same_price_keeps_the_place() {
    let mut book = OrderBook::new(book_stock());
    book.add_order(limit(1, OrderSide::BID, 10, 100)).unwrap();
    book.add_order(limit(2, OrderSide::BID, 20, 100)).unwrap();
    assert_eq!(book.modify_order(1, 4, Some(100)), Ok(()));
    assert_eq!(ids_at(&book, OrderSide::BID, 100), vec![1, 2]);
    assert_eq!(book.oid_map.get(&1).unwrap().qty, 4);
    assert_eq!(book.get_price_level(OrderSide::BID, 100).unwrap().qty, 24);
    assert!(book.is_sound());
}

#[test]
fn modify_up_or_to_another_price_goes_to_the_tail() {
    let mut book = OrderBook::new(book_stock());
    book.add_order(limit(1, OrderSide::BID, 10, 100)).unwrap();
    book.add_order(limit(2, OrderSide::BID, 20, 100)).unwrap();
    book.add_order(limit(3, OrderSide::BID, 30, 90)).unwrap();
    assert_eq!(book.modify_order(1, 11, Some(100)), Ok(()));
    assert_eq!(ids_at(&book, OrderSide::BID, 100), vec![2, 1]);
    assert_eq!(book.get_price_level(OrderSide::BID, 100).unwrap().qty, 31);
    assert_eq!(book.modify_order(2, 20, Some(90)), Ok(()));
    assert_eq!(ids_at(&book, OrderSide::BID, 100), vec![1]);
    assert_eq!(ids_at(&book, OrderSide::BID, 90), vec![3, 2]);
    assert_eq!(book.get_price_level(OrderSide::BID, 90).unwrap().qty, 50);
    assert_eq!(book.oid_map.get(&2).unwrap().price, Some(90));
    assert_eq!(book.modify_order(1, 2_000_000, Some(80)), Ok(()));
    assert!(book.get_price_level(OrderSide::BID, 100).is_none());
    assert_eq!(book.get_price_level(OrderSide::BID, 80).unwrap().qty, 2_000_000);
    assert!(book.is_sound());
}

#[test]
fn modify_to_no_quantity_deletes() {
    let mut book = OrderBook::new(book_stock());
    book.add_order(limit(1, OrderSide::BID, 10, 100)).unwrap();
    assert_eq!(book.modify_order(1, 0, None), Ok(()));
    assert!(book.oid_map.is_empty());
    assert!(book.bid_price_levels.is_empty());
    book.add_order(limit(1, OrderSide::BID, 10, 100)).unwrap();
    assert_eq!(book.modify_order(1, -3, Some(5)), Ok(()));
    assert!(book.oid_map.is_empty());
}

#[test]
fn modify_refuses_a_price_that_is_absent_or_not_positive() {
    let mut book = OrderBook::new(book_stock());
    book.add_order(limit(1, OrderSide::BID, 10, 100)).unwrap();
    let before = book.clone();
    assert_eq!(book.modify_order(1, 5, None), Err(OrderError::InvalidPrice));
    assert_eq!(book.modify_order(1, 5, Some(0)), Err(OrderError::InvalidPrice));
    assert_eq!(book.modify_order(1, 5, Some(-100)), Err(OrderError::InvalidPrice));
    assert_eq!(book, before);
}

#[test]
fn queue_order_validates_and_keeps_the_order_of_arrival() {
    let mut book = OrderBook::new(book_stock());
    assert_eq!(book.queue_order(limit(1, OrderSide::BID, 10, 100)), Ok(()));
    assert_eq!(book.queue_order(limit(2, OrderSide::ASK, 10, 200)), Ok(()));
    let mut bad = limit(3, OrderSide::ASK, 10, 200);
    bad.creator_id = 0;
    assert_eq!(book.queue_order(bad.clone()), Err(OrderError::InvalidCreatorID));
    bad.creator_id = 1;
    bad.stock.stock_id = 0;
    assert_eq!(book.queue_order(bad.clone()), Err(OrderError::InvalidStockID));
    bad.stock.stock_id = 1;
    bad.time_created = 0;
    assert_eq!(book.queue_order(bad.clone()), Err(OrderError::InvalidTimeCreated));
    bad.time_created = 1;
    bad.price = Some(0);
    assert_eq!(book.queue_order(bad), Err(OrderError::InvalidPrice));
    assert_eq!(book.order_queue.len(), 2);
    assert_eq!(book.order_queue[0].order_id, 1);
    assert_eq!(book.order_queue[1].order_id, 2);
    assert!(book.oid_map.is_empty());
}

#[test]
fn execute_order_on_an_empty_queue() {
    let mut book = OrderBook::new(book_stock());
    let before = book.clone();
    assert_eq!(book.execute_order(), Err(OrderError::OrderQueueEmpty));
    assert_eq!(book, before);
    assert_eq!(book.execute_all_orders(), Ok(vec![]));
    assert_eq!(book, before);
}

#[test]
fn execute_order_takes_the_oldest_order() {
    let mut book = OrderBook::new(book_stock());
    book.queue_order(limit(1, OrderSide::BID, 10, 100)).unwrap();
    book.queue_order(limit(2, OrderSide::ASK, 10, 200)).unwrap();
    let event = book.execute_order().unwrap();
    assert_eq!(event.order.order_id, 1);
    assert_eq!(book.order_queue.len(), 1);
    assert_eq!(book.order_queue[0].order_id, 2);
}

#[test]
fn execute_all_orders_gives_the_events_in_order() {
    let mut book = OrderBook::new(book_stock());
    book.queue_order(limit(1, OrderSide::ASK, 10, 100)).unwrap();
    book.queue_order(limit(2, OrderSide::ASK, 10, 101)).unwrap();
    book.queue_order(limit(3, OrderSide::BID, 15, 101)).unwrap();
    book.queue_order(limit(4, OrderSide::BID, 10, 50)).unwrap();
    let events = book.execute_all_orders().unwrap();
    assert_eq!(events.len(), 4);
    assert_eq!(
        events.iter().map(|e| e.exec_type).collect::<Vec<_>>(),
        vec![
            ExecutionType::ADD,
            ExecutionType::ADD,
            ExecutionType::MATCH,
            ExecutionType::ADD
        ]
    );
    assert_eq!(
        events.iter().map(|e| e.order.order_id).collect::<Vec<_>>(),
        vec![1, 2, 3, 4]
    );
    assert_eq!(events[2].matched_order.as_ref().unwrap().order_id, 2);
    assert_eq!(events[2].matched_order.as_ref().unwrap().qty, 5);
    assert!(book.order_queue.is_empty());
    assert_eq!(book.last_market_price, Some(101));
    assert!(book.is_sound());
    assert!(book.is_not_crossed());
}

#[test]
fn execute_all_orders_stops_at_the_first_order_that_is_refused() {
    let mut book = OrderBook::new(book_stock());
    book.queue_order(limit(1, OrderSide::ASK, 10, 100)).unwrap();
    book.queue_order(market(2, OrderSide::ASK, 10)).unwrap();
    book.queue_order(limit(3, OrderSide::BID, 15, 101)).unwrap();
    assert_eq!(book.execute_all_orders(), Err(OrderError::InvalidPrice));
    // the first order rests, the second is lost, the third waits
    assert_eq!(book.oid_map.len(), 1);
    assert!(book.oid_map.contains_key(&1));
    assert_eq!(book.order_queue.len(), 1);
    assert_eq!(book.order_queue[0].order_id, 3);
    assert!(book.is_sound());
}

#[test]
fn is_sound_finds_a_wrong_aggregate_and_a_lost_order() {
    let mut book = OrderBook::new(book_stock());
    book.add_order(limit(1, OrderSide::BID, 10, 100)).unwrap();
    book.add_order(limit(2, OrderSide::BID, 10, 100)).unwrap();
    assert!(book.is_sound());
    let mut wrong = book.clone();
    wrong.bid_price_levels.get_mut(&100).unwrap().qty = 19;
    assert!(!wrong.is_sound());
    let mut wrong = book.clone();
    wrong.oid_map.remove(&1);
    assert!(!wrong.is_sound());
    let mut wrong = book.clone();
    wrong.bid_price_levels.get_mut(&100).unwrap().orders.push_back(2);
    assert!(!wrong.is_sound());
    let mut wrong = book.clone();
    wrong.oid_map.get_mut(&1).unwrap().order_side = OrderSide::ASK;
    assert!(!wrong.is_sound());
    let mut wrong = book.clone();
    wrong.last_market_price = Some(0);
    assert!(!wrong.is_sound());
    let mut wrong = book.clone();
    wrong.bid_price_levels.remove(&100);
    assert!(!wrong.is_sound());
}

#[test]
fn table_rows_pair_the_sides_by_rank() {
    let mut book = OrderBook::new(book_stock());
    assert!(book.table_rows().is_empty());
    book.add_order(limit(1, OrderSide::BID, 10, 8800)).unwrap();
    book.add_order(limit(2, OrderSide::BID, 20, 8850)).unwrap();
    book.add_order(limit(3, OrderSide::BID, 5, 8850)).unwrap();
    book.add_order(limit(4, OrderSide::ASK, 7, 9005)).unwrap();
    assert_eq!(
        book.table_rows(),
        vec![
            ("25 @ 88.50".to_string(), "7 @ 90.05".to_string()),
            ("10 @ 88.00".to_string(), "".to_string()),
        ]
    );
    book.add_order(limit(5, OrderSide::ASK, 1, 10000)).unwrap();
    book.add_order(limit(6, OrderSide::ASK, 1, 20000)).unwrap();
    assert_eq!(
        book.table_rows(),
        vec![
            ("25 @ 88.50".to_string(), "7 @ 90.05".to_string()),
            ("10 @ 88.00".to_string(), "1 @ 100.00".to_string()),
            ("".to_string(), "1 @ 200.00".to_string()),
        ]
    );
}

#[test]
fn stock_errors_have_their_names() {
    assert_eq!(StockError::StockInUse.to_string(), "StockInUse");
    assert_eq!(StockError::UnknownStock.to_string(), "UnknownStock");
}
