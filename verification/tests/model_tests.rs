use exchange_sim::calendar::Timestamp;
use exchange_sim::error::ExchangeError;
use exchange_sim::model::{Order, OrderStatus, OrderType, Side, TimeInForce, Trade};

fn order(order_type: OrderType, price: Option<i64>, stop_price: Option<i64>) -> Order {
    Order::new(
        "BTC/USD".to_string(),
        Side::Buy,
        order_type,
        100,
        price,
        stop_price,
        TimeInForce::GTC,
    )
}

#[test]
fn new_orders_are_unfilled_and_have_identifiers_of_their_own() {
    let before = chrono::Utc::now().timestamp();
    let first = order(OrderType::Limit, Some(100_000_000), None);
    let second = order(OrderType::Limit, Some(100_000_000), None);
    assert_ne!(first.id, second.id);
    assert_eq!(uuid::Uuid::from_u128(first.id).get_version_num(), 4);
    assert_eq!(first.symbol, "BTC/USD");
    assert_eq!(first.side, Side::Buy);
    assert_eq!(first.order_type, OrderType::Limit);
    assert_eq!((first.quantity, first.filled_quantity), (100, 0));
    assert_eq!((first.price, first.stop_price), (Some(100_000_000), None));
    assert_eq!(first.time_in_force, TimeInForce::GTC);
    assert_eq!(first.status, OrderStatus::New);
    assert_eq!(first.created_at, first.updated_at);
    assert!(first.created_at.secs >= before);
}

#[test]
fn each_type_calls_for_its_prices() {
    let cases = vec![
        (OrderType::Market, [true, true, true, true]),
        (OrderType::Limit, [false, true, false, true]),
        (OrderType::StopLoss, [false, false, true, true]),
        (OrderType::StopLimit, [false, false, false, true]),
    ];
    let prices = [(None, None), (Some(1), None), (None, Some(1)), (Some(1), Some(1))];
    for (order_type, expected) in cases {
        for (i, (price, stop_price)) in prices.iter().enumerate() {
            assert_eq!(order(order_type, *price, *stop_price).validate(), expected[i]);
        }
    }
}

#[test]
fn marketable_orders_reach_the_best_price() {
    let mut limit = order(OrderType::Limit, Some(50), None);
    assert!(limit.is_marketable(Some(50)));
    assert!(limit.is_marketable(Some(49)));
    assert!(!limit.is_marketable(Some(51)));
    assert!(!limit.is_marketable(None));
    limit.side = Side::Sell;
    assert!(limit.is_marketable(Some(51)));
    assert!(!limit.is_marketable(Some(49)));
    let market = order(OrderType::Market, None, None);
    assert!(market.is_marketable(Some(1)));
    assert!(!market.is_marketable(None));
    assert!(!order(OrderType::StopLoss, None, Some(1)).is_marketable(Some(1)));
}

#[test]
fn new_trades_have_identifiers_of_their_own() {
    let first = Trade::new("A".to_string(), 1, 2, 30, 4);
    let second = Trade::new("A".to_string(), 1, 2, 30, 4);
    assert_ne!(first.id, second.id);
    assert_eq!((first.buy_order_id, first.sell_order_id), (1, 2));
    assert_eq!((first.price, first.quantity), (30, 4));
    assert!(first.timestamp.secs > 1_600_000_000);
}

#[test]
fn points_in_time_are_ordered() {
    let early = Timestamp { secs: 5, nanos: 9 };
    let late = Timestamp { secs: 6, nanos: 0 };
    assert!(early.is_before(&late));
    assert!(!late.is_before(&early));
    assert!(!early.is_before(&early));
    assert!(Timestamp { secs: 5, nanos: 8 }.is_before(&early));
}

#[test]
fn days_end_at_midnight() {
    let at = |secs| Timestamp { secs, nanos: 0 };
    assert!(!at(86_399).is_on_later_day(&at(0)));
    assert!(at(86_400).is_on_later_day(&at(86_399)));
    assert!(!at(86_399).is_on_later_day(&at(86_400)));
    assert!(at(0).is_on_later_day(&at(-1)));
    assert!(!at(-1).is_on_later_day(&at(-86_400)));
    assert!(at(-86_400).is_on_later_day(&at(-86_401)));
    assert!(at(i64::MAX).is_on_later_day(&at(i64::MIN)));
}

#[test]
fn errors_describe_themselves() {
    let text = || "x".to_string();
    let cases = vec![
        (ExchangeError::InvalidOrder(text()), "Invalid order: x"),
        (ExchangeError::SymbolNotFound(text()), "Symbol not found: x"),
        (ExchangeError::OrderNotFound(text()), "Order not found: x"),
        (ExchangeError::InsufficientLiquidity, "Insufficient liquidity"),
        (ExchangeError::TimeInForceViolation(text()), "Time-in-force violation: x"),
        (ExchangeError::ChannelSendError(text()), "Channel send error: x"),
        (ExchangeError::ChannelReceiveError(text()), "Channel receive error: x"),
        (ExchangeError::TimeError(text()), "Time error: x"),
        (ExchangeError::InternalError(text()), "Internal error: x"),
        (ExchangeError::IoError(text()), "IO error: x"),
    ];
    for (error, message) in cases {
        assert_eq!(error.message(), message);
    }
}
