use exchange_sim::calendar::Timestamp;
use exchange_sim::error::ExchangeError;
use exchange_sim::model::{ExchangeMessage, Order, OrderStatus, OrderType, Side, TimeInForce};
use exchange_sim::router::{cancellation_result, Route, Router};

fn submit(symbol: &str) -> ExchangeMessage {
    ExchangeMessage::SubmitOrder(Order::new(
        symbol.to_string(),
        Side::Buy,
        OrderType::Market,
        1,
        None,
        None,
        TimeInForce::IOC,
    ))
}

#[test]
fn orders_go_to_the_book_of_their_symbol() {
    let mut router = Router::new(8, "price-time".to_string());
    let (first, a) = router.create_order_book("A".to_string()).unwrap();
    let (second, b) = router.create_order_book("B".to_string()).unwrap();
    assert_eq!((first.symbol(), second.symbol()), ("A", "B"));
    assert_ne!(a, b);
    match router.route_message(&submit("A")) {
        Ok(Route::Book(handle)) => assert_eq!(handle, a),
        other => panic!("unexpected: {:?}", other),
    }
    match router.route_message(&submit("B")) {
        Ok(Route::Book(handle)) => assert_eq!(handle, b),
        other => panic!("unexpected: {:?}", other),
    }
    match router.route_message(&submit("C")) {
        Err(error) => assert_eq!(error.message(), "Symbol not found: C"),
        other => panic!("unexpected: {:?}", other),
    }
}

#[test]
fn cancellations_and_heartbeats_go_to_every_book() {
    let mut router = Router::new(8, "price-time".to_string());
    let mut expected = Vec::new();
    for symbol in ["A", "B", "C"] {
        expected.push(router.create_order_book(symbol.to_string()).unwrap().1);
    }
    for message in [
        ExchangeMessage::CancelOrder(5),
        ExchangeMessage::Heartbeat(Timestamp { secs: 0, nanos: 0 }),
    ] {
        match router.route_message(&message) {
            Ok(Route::Books(mut handles)) => {
                handles.sort();
                assert_eq!(handles, expected);
            }
            other => panic!("unexpected: {:?}", other),
        }
    }
    let update = ExchangeMessage::OrderUpdate {
        order_id: 5,
        status: OrderStatus::New,
        filled_qty: 0,
        symbol: "A".to_string(),
    };
    assert!(matches!(router.route_message(&update), Ok(Route::Exchange)));
}

#[test]
fn a_symbol_has_one_book() {
    let mut router = Router::new(8, "price-time".to_string());
    router.create_order_book("A".to_string()).unwrap();
    match router.create_order_book("A".to_string()) {
        Err(ExchangeError::InternalError(text)) => {
            assert_eq!(text, "Order book for A already exists")
        }
        _ => panic!("expected an error"),
    }
}

#[test]
fn algorithms_are_kept_by_symbol() {
    let mut router = Router::new(8, "price-time".to_string());
    router.set_matching_algorithm("A".to_string(), "pro-rata".to_string());
    assert_eq!(router.get_matching_algorithm("A"), "pro-rata");
    assert_eq!(router.get_matching_algorithm("B"), "price-time");
    let (book, _) = router.create_order_book("A".to_string()).unwrap();
    assert_eq!(book.algorithm_name(), "Pro-Rata");
    let (book, _) = router.create_order_book("B".to_string()).unwrap();
    assert_eq!(book.algorithm_name(), "Price-Time Priority");
    router.set_matching_algorithm("A".to_string(), "price-time".to_string());
    assert_eq!(router.get_matching_algorithm("A"), "price-time");
}

#[test]
fn a_cancellation_that_reaches_no_book_fails() {
    assert!(cancellation_result(1, true).is_ok());
    match cancellation_result(1, false) {
        Err(error) => assert_eq!(
            error.message(),
            "Order not found: 00000000-0000-0000-0000-000000000001"
        ),
        Ok(()) => panic!("expected an error"),
    }
}
