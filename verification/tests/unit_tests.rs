use smolexchange::engine::account::User;
use smolexchange::engine::exchange::Exchange;
use smolexchange::engine::execution::{Execution, ExecutionType};
use smolexchange::engine::order::{Order, OrderSide, OrderType, Stock};
use smolexchange::engine::orderbook::OrderBook;
use smolexchange::engine::price_level::PriceLevel;
use uuid::Uuid;

// A price in hundredths.
fn cents(price: f32) -> i64 {
    (price * 100.0).round() as i64
}

fn print_orderbook(book: &OrderBook) {
    println!("BID | ASK");
    for (bid, ask) in book.table_rows() {
        println!("{} | {}", bid, ask);
    }
}

fn gen_orders(
    stock: Stock,
    num_orders: usize,
    order_side: OrderSide,
    order_type: OrderType,
    order_qty: i32,
    starting_price: Option<f32>,
    order_inc: Option<f32>,
) -> Vec<Order> {
    let mut orders = Vec::new();

    for i in 0..num_orders {
        let order = Order::new(
            Uuid::new_v4().as_u128(),
            Uuid::new_v4().as_u128(),
            stock.clone(),
            order_side,
            order_type,
            order_qty,
            chrono::Utc::now().timestamp() as u32,
            match starting_price {
                Some(p) => Some(cents(p + (i as f32 * order_inc.unwrap()))),
                None => None,
            },
        );
        orders.push(order);
    }

    orders
}

#[test]
fn unit_tests_test_adding_orders_pricelevel() {
    // create new stock
    let stock = Stock::new(
        Uuid::new_v4().as_u128(),
        String::from("Apple"),
        String::from("AAPL"),
        Some(1e6 as i32),
        Some(1e6 as i32),
        Some(chrono::Utc::now().timestamp() as u32),
    );
    let mut p_level = PriceLevel::new(cents(1.0), 0);
    let orders = gen_orders(
        stock,
        10,
        OrderSide::BID,
        OrderType::LIMIT,
        100,
        Some(1.0),
        Some(0.0),
    );
    for order in orders {
        p_level.add_order(order);
    }

    // test number of orders in the price level
    assert_eq!(p_level.orders.len(), 10);
}

#[test]
fn unit_tests_test_removing_orders_pricelevel() {
    // create new stock
    let stock = Stock::new(
        Uuid::new_v4().as_u128(),
        String::from("Apple"),
        String::from("AAPL"),
        Some(1e6 as i32),
        Some(1e6 as i32),
        Some(chrono::Utc::now().timestamp() as u32),
    );
    let mut p_level = PriceLevel::new(cents(1.0), 0);

    let orders = gen_orders(
        stock,
        10,
        OrderSide::BID,
        OrderType::LIMIT,
        100,
        Some(1.0),
        Some(0.0),
    );

    for order in orders.clone() {
        p_level.add_order(order.clone());
    }

    // test number of orders in the price level
    assert_eq!(p_level.orders.len(), 10);

    // remove 5 orders
    for order in orders[0..5].iter() {
        let _ = p_level.remove_order(order.clone());
    }

    // test number of orders in the price level
    assert_eq!(p_level.orders.len(), 5);
}

#[test]
fn unit_tests_test_get_oid_map() {
    // create new stock
    let stock = Stock::new(
        Uuid::new_v4().as_u128(),
        String::from("Apple"),
        String::from("AAPL"),
        Some(1e6 as i32),
        Some(1e6 as i32),
        Some(chrono::Utc::now().timestamp() as u32),
    );
    let mut o_book = OrderBook::new(stock.clone());
    let orders = gen_orders(
        stock.clone(),
        200,
        OrderSide::BID,
        OrderType::LIMIT,
        100,
        Some(1.0),
        Some(0.0),
    );

    for order in orders {
        let _ = o_book.add_order(order);
    }

    // test number of orders in the orderbook
    assert_eq!(o_book.oid_map.len(), 200);
}

#[test]
fn unit_tests_test_queue_order() {
    // create new stock
    let stock = Stock::new(
        Uuid::new_v4().as_u128(),
        String::from("Apple"),
        String::from("AAPL"),
        Some(1e6 as i32),
        Some(1e6 as i32),
        Some(chrono::Utc::now().timestamp() as u32),
    );

    let mut o_book = OrderBook::new(stock.clone());
    let orders = gen_orders(
        stock.clone(),
        200,
        OrderSide::BID,
        OrderType::LIMIT,
        100,
        Some(1.0),
        Some(0.0),
    );

    for order in orders {
        let _ = o_book.queue_order(order);
    }

    // test number of orders in the orderbook
    assert_eq!(o_book.order_queue.len(), 200);
}

#[test]
fn unit_tests_test_adding_orders() {
    // create new stock
    let stock = Stock::new(
        Uuid::new_v4().as_u128(),
        String::from("Apple"),
        String::from("AAPL"),
        Some(1e6 as i32),
        Some(1e6 as i32),
        Some(chrono::Utc::now().timestamp() as u32),
    );

    let mut o_book = OrderBook::new(stock.clone());
    let orders = gen_orders(
        stock.clone(),
        200,
        OrderSide::BID,
        OrderType::LIMIT,
        100,
        Some(1.0),
        Some(0.0),
    );

    for order in orders {
        let _ = o_book.add_order(order);
    }

    // test number of orders in the orderbook
    assert_eq!(o_book.oid_map.len(), 200);
}

#[test]
fn unit_tests_test_get_price_level_orderbook() {
    // create new stock
    let stock = Stock::new(
        Uuid::new_v4().as_u128(),
        String::from("Apple"),
        String::from("AAPL"),
        Some(1e6 as i32),
        Some(1e6 as i32),
        Some(chrono::Utc::now().timestamp() as u32),
    );

    let mut o_book = OrderBook::new(stock.clone());
    let orders = gen_orders(
        stock.clone(),
        200,
        OrderSide::BID,
        OrderType::LIMIT,
        100,
        Some(1.0),
        Some(0.0),
    );

    for order in orders {
        match o_book.add_order(order) {
            Ok(_) => (),
            Err(e) => panic!("{}", e.to_string()),
        }
    }

    // test number of orders in the orderbook
    assert_eq!(o_book.oid_map.len(), 200);

    // test get price level
    let price_level = match o_book.get_price_level(OrderSide::BID, cents(1.0)) {
        Some(p) => Some(p.clone()),
        None => None,
    };

    assert_eq!(price_level.clone().unwrap().orders.len(), 200);
    // test price
    assert_eq!(price_level.clone().unwrap().price, cents(1.0));
    // test quantity
    assert_eq!(price_level.clone().unwrap().qty, 20000);
}

#[test]
fn unit_tests_test_matching_orders() {
    // create new stock
    let stock = Stock::new(
        Uuid::new_v4().as_u128(),
        String::from("Apple"),
        String::from("AAPL"),
        Some(1e6 as i32),
        Some(1e6 as i32),
        Some(chrono::Utc::now().timestamp() as u32),
    );

    let mut o_book = OrderBook::new(stock.clone());

    // scenarios to test:
    // 1. limit asks in order book -> add limit bid -> match
    println!("1. limit asks in order book -> add limit bid -> match");

    let limit_asks = gen_orders(
        stock.clone(),
        7,
        OrderSide::ASK,
        OrderType::LIMIT,
        100,
        Some(88.0),
        Some(0.5),
    );

    for ask in limit_asks {
        let _ = o_book.queue_order(ask);
    }

    match o_book.execute_all_orders() {
        Ok(_) => (),
        Err(e) => println!("Error executing orders: {}", e.to_string()),
    }

    print_orderbook(&o_book);

    let limit_bids = gen_orders(
        stock.clone(),
        7,
        OrderSide::BID,
        OrderType::LIMIT,
        100,
        Some(88.0),
        Some(0.5),
    );

    for bid in limit_bids {
        let _ = o_book.queue_order(bid);
    }

    // check order map and price levels
    assert_eq!(o_book.oid_map.len(), 7);
    assert_eq!(o_book.bid_price_levels.len(), 0);
    assert_eq!(o_book.ask_price_levels.len(), 7);

    match o_book.execute_all_orders() {
        Ok(_) => (),
        Err(e) => println!("Error executing orders: {}", e.to_string()),
    }

    print_orderbook(&o_book);

    // check order map and price levels
    assert_eq!(o_book.oid_map.len(), 0);
    assert_eq!(o_book.bid_price_levels.len(), 0);
    assert_eq!(o_book.ask_price_levels.len(), 0);

    // 2. limit bids in order book -> add limit ask -> match
    println!("2. limit bids in order book -> add limit ask -> match");

    let limit_bids1 = gen_orders(
        stock.clone(),
        7,
        OrderSide::BID,
        OrderType::LIMIT,
        100,
        Some(88.0),
        Some(0.5),
    );

    for bid in limit_bids1 {
        let _ = o_book.queue_order(bid);
    }

    // execute orders
    match o_book.execute_all_orders() {
        Ok(_) => (),
        Err(e) => println!("Error executing orders: {}", e.to_string()),
    }

    // print orderbook
    print_orderbook(&o_book);

    // check order queue, order map, price levels, and last market price
    assert_eq!(o_book.order_queue.len(), 0);
    assert_eq!(o_book.oid_map.len(), 7);
    assert_eq!(o_book.bid_price_levels.len(), 7);
    assert_eq!(o_book.ask_price_levels.len(), 0);
    assert_eq!(o_book.last_market_price, Some(cents(91.0)));

    let limit_asks1 = gen_orders(
        stock.clone(),
        7,
        OrderSide::ASK,
        OrderType::LIMIT,
        100,
        Some(91.0),
        Some(-0.5),
    );

    for ask in limit_asks1 {
        let _ = o_book.queue_order(ask);
    }

    // execute orders
    match o_book.execute_all_orders() {
        Ok(_) => (),
        Err(e) => println!("Error executing orders: {}", e.to_string()),
    }

    // print orderbook
    print_orderbook(&o_book);

    // check order queue, order map and price_levels
    assert_eq!(o_book.order_queue.len(), 0);
    assert_eq!(o_book.oid_map.len(), 0);
    assert_eq!(o_book.bid_price_levels.len(), 0);
    assert_eq!(o_book.ask_price_levels.len(), 0);
    assert_eq!(o_book.last_market_price, Some(cents(88.0)));

    // 3. limit asks in order book -> add market bid -> match
    println!("3. limit asks in order book -> add market bid -> match");

    let limit_asks2 = gen_orders(
        stock.clone(),
        7,
        OrderSide::ASK,
        OrderType::LIMIT,
        100,
        Some(88.0),
        Some(0.5),
    );

    for ask in limit_asks2 {
        let _ = o_book.queue_order(ask);
    }

    // execute orders
    match o_book.execute_all_orders() {
        Ok(_) => (),
        Err(e) => println!("Error executing orders: {}", e.to_string()),
    }

    // print orderbook
    print_orderbook(&o_book);

    // check order queue, order map and price_levels
    assert_eq!(o_book.order_queue.len(), 0);
    assert_eq!(o_book.oid_map.len(), 7);
    assert_eq!(o_book.bid_price_levels.len(), 0);
    assert_eq!(o_book.ask_price_levels.len(), 7);
    assert_eq!(o_book.last_market_price, Some(cents(88.0)));

    let market_bids1 = gen_orders(
        stock.clone(),
        7,
        OrderSide::BID,
        OrderType::MARKET,
        100,
        None,
        None,
    );

    for bid in market_bids1 {
        let _ = o_book.queue_order(bid);
    }

    // execute orders
    match o_book.execute_all_orders() {
        Ok(_) => (),
        Err(e) => println!("Error executing orders: {}", e.to_string()),
    }

    // print orderbook
    print_orderbook(&o_book);

    // check order queue, order map and price_levels
    assert_eq!(o_book.order_queue.len(), 0);
    assert_eq!(o_book.oid_map.len(), 0);
    assert_eq!(o_book.bid_price_levels.len(), 0);
    assert_eq!(o_book.ask_price_levels.len(), 0);
    assert_eq!(o_book.last_market_price, Some(cents(91.0)));

    // 4. limit bids in order book -> add market ask -> match
    println!("4. limit bids in order book -> add market ask -> match");

    let limit_bids2 = gen_orders(
        stock.clone(),
        7,
        OrderSide::BID,
        OrderType::LIMIT,
        100,
        Some(91.0),
        Some(-0.5),
    );

    for bid in limit_bids2 {
        let _ = o_book.queue_order(bid);
    }

    // execute orders
    match o_book.execute_all_orders() {
        Ok(_) => (),
        Err(e) => println!("Error executing orders: {}", e.to_string()),
    }

    // print orderbook
    print_orderbook(&o_book);

    // check order queue, order map and price_levels
    assert_eq!(o_book.order_queue.len(), 0);
    assert_eq!(o_book.oid_map.len(), 7);
    assert_eq!(o_book.bid_price_levels.len(), 7);
    assert_eq!(o_book.ask_price_levels.len(), 0);
    assert_eq!(o_book.last_market_price, Some(cents(91.0)));

    let market_asks1 = gen_orders(
        stock.clone(),
        7,
        OrderSide::ASK,
        OrderType::MARKET,
        100,
        None,
        None,
    );

    for ask in market_asks1 {
        let _ = o_book.queue_order(ask);
    }

    // execute orders
    match o_book.execute_all_orders() {
        Ok(_) => (),
        Err(e) => println!("Error executing orders: {}", e.to_string()),
    }

    // print orderbook
    print_orderbook(&o_book);

    // check order queue, order map and price_levels
    assert_eq!(o_book.order_queue.len(), 0);
    assert_eq!(o_book.oid_map.len(), 0);
    assert_eq!(o_book.bid_price_levels.len(), 0);
    assert_eq!(o_book.ask_price_levels.len(), 0);
    assert_eq!(o_book.last_market_price, Some(cents(88.0)));

    // 5. market asks in order book -> add limit bid -> match
    println!("5. market asks in order book -> add limit bid -> match");

    o_book.last_market_price = Some(cents(69.0));

    let market_asks2 = gen_orders(
        stock.clone(),
        7,
        OrderSide::ASK,
        OrderType::MARKET,
        100,
        None,
        None,
    );

    for ask in market_asks2 {
        let _ = o_book.queue_order(ask);
    }

    // execute orders
    match o_book.execute_all_orders() {
        Ok(_) => (),
        Err(e) => println!("Error executing orders: {}", e.to_string()),
    }

    // print orderbook
    print_orderbook(&o_book);

    // check order queue, order map and price_levels
    assert_eq!(o_book.order_queue.len(), 0);
    assert_eq!(o_book.oid_map.len(), 7);
    assert_eq!(o_book.bid_price_levels.len(), 0);
    assert_eq!(o_book.ask_price_levels.len(), 1);
    assert_eq!(o_book.last_market_price, Some(cents(69.0)));

    let limit_bids3 = gen_orders(
        stock.clone(),
        7,
        OrderSide::BID,
        OrderType::LIMIT,
        100,
        Some(88.0),
        Some(0.5),
    );

    for bid in limit_bids3 {
        let _ = o_book.queue_order(bid);
    }

    // execute orders
    match o_book.execute_all_orders() {
        Ok(_) => (),
        Err(e) => println!("Error executing orders: {}", e.to_string()),
    }

    // print orderbook
    print_orderbook(&o_book);

    // check order queue, order map and price_levels
    assert_eq!(o_book.order_queue.len(), 0);
    assert_eq!(o_book.oid_map.len(), 0);
    assert_eq!(o_book.bid_price_levels.len(), 0);
    assert_eq!(o_book.ask_price_levels.len(), 0);
    assert_eq!(o_book.last_market_price, Some(cents(69.0)));

    // 6. market bids in order book -> add limit ask -> match
    println!("6. market bids in order book -> add limit ask -> match");

    o_book.last_market_price = Some(cents(69.0));

    let market_bids1 = gen_orders(
        stock.clone(),
        7,
        OrderSide::BID,
        OrderType::MARKET,
        100,
        None,
        None,
    );

    for bid in market_bids1.clone() {
        let _ = o_book.queue_order(bid);
    }

    // execute orders
    match o_book.execute_all_orders() {
        Ok(_) => (),
        Err(e) => println!("Error executing orders: {}", e.to_string()),
    }

    // print orderbook
    print_orderbook(&o_book);

    // check order queue, order map and price_levels
    assert_eq!(o_book.order_queue.len(), 0);
    assert_eq!(o_book.oid_map.len(), 7);
    assert_eq!(o_book.bid_price_levels.len(), 1);
    assert_eq!(o_book.ask_price_levels.len(), 0);
    assert_eq!(o_book.last_market_price, Some(cents(69.0)));

    let limit_asks2 = gen_orders(
        stock.clone(),
        7,
        OrderSide::ASK,
        OrderType::LIMIT,
        100,
        Some(69.0),
        Some(0.5),
    );

    for ask in limit_asks2.clone() {
        let _ = o_book.queue_order(ask);
    }

    // execute orders
    match o_book.execute_all_orders() {
        Ok(_) => (),
        Err(e) => println!("Error executing orders: {}", e.to_string()),
    }

    // print orderbook
    print_orderbook(&o_book);

    // check order queue, order map and price_levels
    assert_eq!(o_book.order_queue.len(), 0);
    assert_eq!(o_book.oid_map.len(), 12);
    assert_eq!(o_book.bid_price_levels.len(), 1);
    assert_eq!(o_book.ask_price_levels.len(), 6);
    assert_eq!(o_book.last_market_price, Some(cents(69.0)));

    for order in limit_asks2.clone() {
        match o_book.delete_order(order.order_id) {
            Ok(_) => (),
            Err(e) => println!("Error deleting order: {}", e.to_string()),
        }
    }

    for order in market_bids1.clone() {
        match o_book.delete_order(order.order_id) {
            Ok(_) => (),
            Err(e) => println!("Error deleting order: {}", e.to_string()),
        }
    }

    // 7. market asks in order book -> add market bid -> match
    println!("7. market asks in order book -> add market bid -> match");

    o_book.last_market_price = Some(cents(420.0));

    let market_asks3 = gen_orders(
        stock.clone(),
        7,
        OrderSide::ASK,
        OrderType::MARKET,
        100,
        None,
        None,
    );

    for ask in market_asks3 {
        let _ = o_book.queue_order(ask);
    }

    match o_book.execute_all_orders() {
        Ok(_) => (),
        Err(e) => println!("Error executing orders: {}", e.to_string()),
    }

    // print orderbook
    print_orderbook(&o_book);

    // check order queue, order map and price_levels
    assert_eq!(o_book.order_queue.len(), 0);
    assert_eq!(o_book.oid_map.len(), 7);
    assert_eq!(o_book.bid_price_levels.len(), 0);
    assert_eq!(o_book.ask_price_levels.len(), 1);
    assert_eq!(o_book.last_market_price, Some(cents(420.0)));

    let market_bids2 = gen_orders(
        stock.clone(),
        7,
        OrderSide::BID,
        OrderType::MARKET,
        100,
        None,
        None,
    );

    for bid in market_bids2 {
        let _ = o_book.queue_order(bid);
    }

    // execute orders
    match o_book.execute_all_orders() {
        Ok(_) => (),
        Err(e) => println!("Error executing orders: {}", e.to_string()),
    }

    // print orderbook
    print_orderbook(&o_book);

    // check order queue, order map and price_levels
    assert_eq!(o_book.order_queue.len(), 0);
    assert_eq!(o_book.oid_map.len(), 0);
    assert_eq!(o_book.bid_price_levels.len(), 0);
    assert_eq!(o_book.ask_price_levels.len(), 0);
    assert_eq!(o_book.last_market_price, Some(cents(420.0)));

    // 8. market bids in order book -> add market ask -> match
    println!("8. market bids in order book -> add market ask -> match");

    o_book.last_market_price = Some(cents(21.0));

    let market_bids3 = gen_orders(
        stock.clone(),
        7,
        OrderSide::BID,
        OrderType::MARKET,
        100,
        None,
        None,
    );

    for bid in market_bids3 {
        let _ = o_book.queue_order(bid);
    }

    match o_book.execute_all_orders() {
        Ok(_) => (),
        Err(e) => println!("Error executing orders: {}", e.to_string()),
    }

    // print orderbook
    print_orderbook(&o_book);

    // check order queue, order map and price_levels
    assert_eq!(o_book.order_queue.len(), 0);
    assert_eq!(o_book.oid_map.len(), 7);
    assert_eq!(o_book.bid_price_levels.len(), 1);
    assert_eq!(o_book.ask_price_levels.len(), 0);
    assert_eq!(o_book.last_market_price, Some(cents(21.0)));

    let market_asks4 = gen_orders(
        stock.clone(),
        7,
        OrderSide::ASK,
        OrderType::MARKET,
        100,
        None,
        None,
    );

    for ask in market_asks4 {
        let _ = o_book.queue_order(ask);
    }

    // execute orders
    match o_book.execute_all_orders() {
        Ok(_) => (),
        Err(e) => println!("Error executing orders: {}", e.to_string()),
    }

    // print orderbook
    print_orderbook(&o_book);

    // check order queue, order map and price_levels
    assert_eq!(o_book.order_queue.len(), 0);
    assert_eq!(o_book.oid_map.len(), 0);
    assert_eq!(o_book.bid_price_levels.len(), 0);
    assert_eq!(o_book.ask_price_levels.len(), 0);
    assert_eq!(o_book.last_market_price, Some(cents(21.0)));

    // 9. ??? random order types -> match
    println!("9. ??? random order types -> match");

    o_book.last_market_price = Some(cents(60.0));

    // generate orders from price range 60.0 to 65.0 in ranges in 0.5 increments.
    // 100 orders total, and ensure the quantity at each price level decreases

    let stock_id: u128 = Uuid::new_v4().as_u128();
    let mut bids: Vec<Order> = Vec::new();

    for j in 0..10 {
        for i in 0..20 {
            let price: f32 = 65.0;
            // Round to 2 decimal places
            let rounded_price = (price * 100.0).round() / 100.0;
            let order = Order::new(
                Uuid::new_v4().as_u128(),
                Uuid::new_v4().as_u128(),
                Stock::new(
                    stock_id,
                    "Stock 1".to_string(),
                    "STK 1".to_string(),
                    None,
                    None,
                    None,
                ),
                OrderSide::BID,
                OrderType::LIMIT,
                (10 - j) as i32,
                chrono::Utc::now().timestamp() as u32,
                Some(cents(rounded_price - (j as f32 * 0.5))),
            );
            bids.push(order);
        }
    }

    for order in bids {
        let _ = o_book.queue_order(order);
    }

    // execute orders
    match o_book.execute_all_orders() {
        Ok(_) => (),
        Err(e) => println!("Error executing orders: {}", e.to_string()),
    }

    // print orderbook
    print_orderbook(&o_book);

    // check order queue, order map and price_levels
    assert_eq!(o_book.order_queue.len(), 0);
    assert_eq!(o_book.oid_map.len(), 200);
    assert_eq!(o_book.bid_price_levels.len(), 10);
    assert_eq!(o_book.ask_price_levels.len(), 0);
    assert_eq!(o_book.last_market_price, Some(cents(60.0)));

    let mut asks = Vec::new();

    for j in 0..10 {
        for _ in 0..20 {
            let price: f32 = 66.0;
            // Round to 2 decimal places
            let rounded_price = (price * 100.0).round() / 100.0;
            let order = Order::new(
                Uuid::new_v4().as_u128(),
                Uuid::new_v4().as_u128(),
                Stock::new(
                    stock_id,
                    "Stock 1".to_string(),
                    "STK 1".to_string(),
                    None,
                    None,
                    None,
                ),
                OrderSide::ASK,
                OrderType::LIMIT,
                (10 - j) as i32,
                chrono::Utc::now().timestamp() as u32,
                Some(cents(rounded_price + (j as f32 * 0.5))),
            );
            asks.push(order);
        }
    }

    for order in asks {
        let _ = o_book.queue_order(order);
    }

    // execute orders
    match o_book.execute_all_orders() {
        Ok(_) => (),
        Err(e) => println!("Error executing orders: {}", e.to_string()),
    }

    // print orderbook
    print_orderbook(&o_book);

    // create a new order with price of 65.0 and qty of 10
    // for stock with ticker STK 1
    let order0 = Order::new(
        Uuid::new_v4().as_u128(),
        Uuid::new_v4().as_u128(),
        stock,
        OrderSide::BID,
        OrderType::LIMIT,
        10,
        chrono::Utc::now().timestamp() as u32,
        Some(cents(66.0)),
    );
    // queue the order
    let _ = o_book.queue_order(order0.clone());
    // execute the order
    match o_book.execute_all_orders() {
        Ok(_) => (),
        Err(e) => println!("Error executing orders: {}", e.to_string()),
    }

    // print orderbook
    print_orderbook(&o_book);

    // check the order map and the price levels
    assert_eq!(o_book.oid_map.len(), 399);
    assert_eq!(o_book.bid_price_levels.len(), 10);
    // check that the top bid price level qty is 190
    let p_level = match o_book.get_price_level(OrderSide::ASK, cents(66.0)) {
        Some(p) => p.clone(),
        None => panic!("Error getting price level"),
    };
    assert_eq!(p_level.qty, 190);
    assert_eq!(o_book.ask_price_levels.len(), 10);
    assert_eq!(o_book.last_market_price, Some(cents(66.0)));
}

// test adding a stock to the exchange
#[test]
fn test_exchange_add_stock() {
    // create new exchange
    let mut exchange = Exchange::new();

    // create new stock
    let stock = Stock::new(
        Uuid::new_v4().as_u128(),
        String::from("Apple"),
        String::from("AAPL"),
        Some(1e6 as i32),
        Some(1e6 as i32),
        Some(chrono::Utc::now().timestamp() as u32),
    );

    // create new user
    let issuer = User::new(
        Uuid::new_v4().as_u128(),
        String::from("John"),
        String::from("john.doe@gmail.com"),
        String::from("password"),
        Some(cents(1e6 as f32)),
    );

    // add stock to exchange
    let _ = exchange.add_stock(stock, issuer);

    // test number of stocks in exchange
    assert_eq!(exchange.stocks.len(), 1);

    // test to check users and userstocks
    assert_eq!(exchange.users.len(), 1);
    assert_eq!(exchange.user_stocks.len(), 1);
}

// test executing order in exchange
#[test]
fn test_exchange_execute_order() {
    // create new exchange
    let mut exchange = Exchange::new();

    // create new stock
    let stock = Stock::new(
        Uuid::new_v4().as_u128(),
        String::from("Apple"),
        String::from("AAPL"),
        Some(1e6 as i32),
        Some(1e6 as i32),
        Some(chrono::Utc::now().timestamp() as u32),
    );

    // create new user
    let issuer = User::new(
        Uuid::new_v4().as_u128(),
        String::from("John"),
        String::from("john.doe@gmail.com"),
        String::from("password"),
        Some(cents(1e6 as f32)),
    );

    // add stock to exchange
    let _ = exchange.add_stock(stock.clone(), issuer);

    // create new order
    let order = Order::new(
        Uuid::new_v4().as_u128(),
        Uuid::new_v4().as_u128(),
        stock.clone(),
        OrderSide::ASK,
        OrderType::LIMIT,
        100,
        chrono::Utc::now().timestamp() as u32,
        Some(cents(69.0)),
    );

    // execute order, and check execution type (should be add)
    let res: Execution = match exchange.execute_order(order) {
        Ok(r) => r,
        Err(e) => panic!("Error executing order: {}", e.to_string()),
    };
    // check execution type
    assert_eq!(res.exec_type, ExecutionType::ADD);
    println!("{}", res.to_string());

    // test number of orders in exchange
    let o_book = match exchange.orderbooks.get(&stock.clone().stock_id) {
        Some(o) => o.clone(),
        None => panic!("Error getting orderbook"),
    };

    // test number of orders in orderbook
    assert_eq!(o_book.oid_map.len(), 1);
}

// test executing all orders in exchange
#[test]
fn test_exchange_execute_all_orders() {
    // create new exchange
    let mut exchange = Exchange::new();

    // create new stock
    let stock = Stock::new(
        Uuid::new_v4().as_u128(),
        String::from("Apple"),
        String::from("AAPL"),
        Some(1e6 as i32),
        Some(1e6 as i32),
        Some(chrono::Utc::now().timestamp() as u32),
    );

    // create new user
    let issuer = User::new(
        Uuid::new_v4().as_u128(),
        String::from("John"),
        String::from("john.doe@gmail.com"),
        String::from("password"),
        Some(cents(1e6 as f32)),
    );

    // add stock to exchange
    let _ = exchange.add_stock(stock.clone(), issuer);

    // create new orders
    let orders = gen_orders(
        stock.clone(),
        200,
        OrderSide::ASK,
        OrderType::LIMIT,
        100,
        Some(69.0),
        Some(0.0),
    );

    // get orderbook
    let mut o_book = match exchange.orderbooks.get(&stock.clone().stock_id) {
        Some(o) => o.clone(),
        None => panic!("Error getting orderbook"),
    };

    // queue orders to order book
    for order in orders {
        let _ = o_book.queue_order(order);
    }

    // insert o_book to exchange
    exchange
        .orderbooks
        .insert(stock.clone().stock_id, o_book);

    // check order queue length
    let order_book = match exchange.orderbooks.get(&stock.clone().stock_id) {
        Some(o) => o.clone(),
        None => panic!("Error getting orderbook"),
    };

    assert_eq!(order_book.order_queue.len(), 200);

    // execute all orders
    match exchange.execute_all_orders() {
        Ok(_) => (),
        Err(e) => println!("{}", e.to_string()),
    };

    let book = match exchange.orderbooks.get(&stock.clone().stock_id) {
        Some(o) => o.clone(),
        None => panic!("Error getting orderbook"),
    };

    print_orderbook(&book);

    // check order queue length
    assert_eq!(book.order_queue.len(), 0);
}
