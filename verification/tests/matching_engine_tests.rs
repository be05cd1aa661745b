use exchange_sim::error::ExchangeError;
use exchange_sim::matching_engine::{
    algorithm_for, create_matching_algorithm, MatchingAlgorithm, PriceTimeMatchingEngine,
    ProRataMatchingEngine,
};
use exchange_sim::calendar::Timestamp;
use exchange_sim::model::{Order, OrderType, Side, TimeInForce};

type Result<T> = std::result::Result<T, ExchangeError>;

fn key(price: f64) -> i64 {
    (price * 10000.0).round() as i64
}

// Helper function to create test orders
fn create_test_orders() -> (Order, Order) {
    let buy_order = Order::new(
        "TEST/USD".to_string(),
        Side::Buy,
        OrderType::Limit,
        100,
        Some(key(100.0)),
        None,
        TimeInForce::GTC,
    );

    let sell_order = Order::new(
        "TEST/USD".to_string(),
        Side::Sell,
        OrderType::Limit,
        100,
        Some(key(100.0)),
        None,
        TimeInForce::GTC,
    );

    (buy_order, sell_order)
}

#[test]
fn test_price_time_matching_can_match() -> Result<()> {
    let engine = PriceTimeMatchingEngine::new();
    let (buy_order, sell_order) = create_test_orders();

    // Same symbol, opposite sides, matching prices - should match
    assert!(engine.can_match(&buy_order, &sell_order));

    // Different symbol - should not match
    let mut different_symbol_sell = sell_order.clone();
    different_symbol_sell.symbol = "OTHER/USD".to_string();
    assert!(!engine.can_match(&buy_order, &different_symbol_sell));

    // Same side - should not match
    let mut same_side_order = buy_order.clone();
    same_side_order.id = uuid::Uuid::new_v4().as_u128(); // Different ID
    assert!(!engine.can_match(&buy_order, &same_side_order));

    // Non-matching price - should not match
    let mut higher_price_sell = sell_order.clone();
    higher_price_sell.price = Some(key(101.0));
    assert!(!engine.can_match(&buy_order, &higher_price_sell));

    // Market order - should always match with limit order
    let mut market_buy = buy_order.clone();
    market_buy.order_type = OrderType::Market;
    market_buy.price = None;
    assert!(engine.can_match(&market_buy, &sell_order));

    Ok(())
}

#[test]
fn test_price_time_matching_match_orders() -> Result<()> {
    let mut engine = PriceTimeMatchingEngine::new();
    let (buy_order, sell_order) = create_test_orders();

    // Full match
    let result = engine.match_orders(&buy_order, &sell_order)?;
    let (trade, buy_remaining, sell_remaining) = result;

    // Both orders should be fully matched
    assert_eq!(buy_remaining, 0);
    assert_eq!(sell_remaining, 0);
    assert_eq!(trade.quantity, 100);
    assert_eq!(trade.price, key(100.0));
    assert_eq!(trade.buy_order_id, buy_order.id);
    assert_eq!(trade.sell_order_id, sell_order.id);

    // Partial match - buy order larger
    let mut large_buy = buy_order.clone();
    large_buy.quantity = 200;
    let result = engine.match_orders(&large_buy, &sell_order)?;
    let (trade, buy_remaining, sell_remaining) = result;

    assert_eq!(buy_remaining, 100); // 200 - 100 = 100 remaining
    assert_eq!(sell_remaining, 0); // Fully matched
    assert_eq!(trade.quantity, 100);

    // Partial match - sell order larger
    let mut large_sell = sell_order.clone();
    large_sell.quantity = 150;
    let result = engine.match_orders(&buy_order, &large_sell)?;
    let (trade, buy_remaining, sell_remaining) = result;

    assert_eq!(buy_remaining, 0); // Fully matched
    assert_eq!(sell_remaining, 50); // 150 - 100 = 50 remaining
    assert_eq!(trade.quantity, 100);

    Ok(())
}

#[test]
fn test_price_time_price_determination() -> Result<()> {
    let mut engine = PriceTimeMatchingEngine::new();

    // Test resting order price (time priority)
    let mut early_buy = Order::new(
        "TEST/USD".to_string(),
        Side::Buy,
        OrderType::Limit,
        100,
        Some(key(100.0)),
        None,
        TimeInForce::GTC,
    );
    let early = chrono::Utc::now() - chrono::Duration::seconds(10);
    early_buy.created_at =
        Timestamp { secs: early.timestamp(), nanos: early.timestamp_subsec_nanos() };

    let sell_order = Order::new(
        "TEST/USD".to_string(),
        Side::Sell,
        OrderType::Limit,
        100,
        Some(key(99.0)), // Lower price
        None,
        TimeInForce::GTC,
    );

    // Earlier order sets the price
    let result = engine.match_orders(&early_buy, &sell_order)?;
    assert_eq!(result.0.price, key(100.0)); // Buy price as it was resting

    // Market order with limit order
    let market_buy = Order::new(
        "TEST/USD".to_string(),
        Side::Buy,
        OrderType::Market,
        100,
        None,
        None,
        TimeInForce::GTC,
    );

    let result = engine.match_orders(&market_buy, &sell_order)?;
    assert_eq!(result.0.price, key(99.0)); // Sell limit price used for market buy

    Ok(())
}

#[test]
fn test_pro_rata_matching() -> Result<()> {
    let mut engine = ProRataMatchingEngine::new();
    let (buy_order, sell_order) = create_test_orders();

    // Pro-rata should still match identical orders
    assert!(engine.can_match(&buy_order, &sell_order));

    let result = engine.match_orders(&buy_order, &sell_order)?;
    let (trade, buy_remaining, sell_remaining) = result;

    // Both orders should be fully matched
    assert_eq!(buy_remaining, 0);
    assert_eq!(sell_remaining, 0);
    assert_eq!(trade.quantity, 100);

    // Last price should be updated
    assert_eq!(engine.last_price(&buy_order.symbol), Some(key(100.0)));

    Ok(())
}

#[test]
fn test_time_in_force_validation() -> Result<()> {
    let engine = PriceTimeMatchingEngine::new();

    // FOK - full fill
    let fok_order = Order::new(
        "TEST/USD".to_string(),
        Side::Buy,
        OrderType::Limit,
        100,
        Some(key(100.0)),
        None,
        TimeInForce::FOK,
    );

    assert!(engine.validate_time_in_force(&fok_order, 100).is_ok());

    // FOK - partial fill should be rejected
    let result = engine.validate_time_in_force(&fok_order, 50);
    assert!(result.is_err());

    // IOC - partial fill is fine
    let ioc_order = Order::new(
        "TEST/USD".to_string(),
        Side::Buy,
        OrderType::Limit,
        100,
        Some(key(100.0)),
        None,
        TimeInForce::IOC,
    );

    assert!(engine.validate_time_in_force(&ioc_order, 50).is_ok());

    Ok(())
}

#[test]
fn fok_violation_says_why() {
    let engine = ProRataMatchingEngine::new();
    let (mut order, _) = create_test_orders();
    order.time_in_force = TimeInForce::FOK;
    match engine.validate_time_in_force(&order, 99) {
        Err(error) => assert_eq!(
            error.message(),
            "Time-in-force violation: FOK order cannot be partially filled"
        ),
        Ok(_) => panic!("expected a violation"),
    }
}

#[test]
fn orders_that_cannot_trade_are_an_error() {
    let mut engine = PriceTimeMatchingEngine::new();
    let (buy, mut sell) = create_test_orders();
    sell.price = Some(key(100.5));
    match engine.match_orders(&buy, &sell) {
        Err(ExchangeError::InternalError(text)) => assert_eq!(text, "Orders cannot match"),
        other => panic!("unexpected: {:?}", other),
    }
    sell.price = Some(key(99.5));
    sell.filled_quantity = 100;
    match engine.match_orders(&buy, &sell) {
        Err(ExchangeError::InternalError(text)) => assert_eq!(text, "No quantity to match"),
        other => panic!("unexpected: {:?}", other),
    }
    assert_eq!(engine.last_price("TEST/USD"), None);
}

#[test]
fn unpriced_orders_trade_at_the_last_price() -> Result<()> {
    let mut engine = PriceTimeMatchingEngine::new();
    let (mut buy, mut sell) = create_test_orders();
    buy.price = None;
    sell.price = None;
    assert_eq!(engine.match_orders(&buy, &sell)?.0.price, 0);
    engine.update_last_price("TEST/USD", key(42.5));
    assert_eq!(engine.match_orders(&buy, &sell)?.0.price, 425_000);
    Ok(())
}

#[test]
fn algorithms_are_found_without_regard_to_case() {
    assert_eq!(create_matching_algorithm("PRO-Rata").algorithm.name(), "Pro-Rata");
    assert_eq!(create_matching_algorithm("pro-rata").algorithm.name(), "Pro-Rata");
    assert_eq!(create_matching_algorithm("price-time").algorithm.name(), "Price-Time Priority");
    assert_eq!(create_matching_algorithm("anything").algorithm.name(), "Price-Time Priority");
    assert_eq!(algorithm_for(&"PRO-RATA".to_string()).algorithm.name(), "Price-Time Priority");
    assert_eq!(algorithm_for(&"pro-rata".to_string()).algorithm.name(), "Pro-Rata");
}

#[test]
fn both_algorithms_match_a_pair_alike() -> Result<()> {
    let mut first = create_matching_algorithm("price-time");
    let mut second = create_matching_algorithm("pro-rata");
    let (mut buy, sell) = create_test_orders();
    buy.quantity = 70;
    let one = first.algorithm.match_orders(&buy, &sell)?;
    let two = second.algorithm.match_orders(&buy, &sell)?;
    assert_eq!((one.0.price, one.0.quantity, one.1, one.2), (key(100.0), 70, 0, 30));
    assert_eq!((two.0.price, two.0.quantity, two.1, two.2), (key(100.0), 70, 0, 30));
    assert_ne!(one.0.id, two.0.id);
    Ok(())
}
