use exchange_sim::calendar::{TimeSpan, Timestamp};
use exchange_sim::error::ExchangeError;
use exchange_sim::exchange::Exchange;
use exchange_sim::model::{
    ExchangeMessage, Order, OrderStatus, OrderType, Side, TimeInForce, Trade,
};
use exchange_sim::order_book::OrderBook;
use exchange_sim::router::{cancellation_result, Route};
use exchange_sim::time::TimeScale;
use std::collections::HashMap;
use std::time::Duration as StdDuration;

type Result<T> = std::result::Result<T, ExchangeError>;

fn key(price: f64) -> i64 {
    (price * 10000.0).round() as i64
}

/// An exchange with its order books, run on one thread.
struct Desk {
    exchange: Exchange,
    books: Vec<OrderBook>,
}

impl Desk {
    fn open(symbols: &[&str], algorithm: &str) -> Result<Desk> {
        let symbols = symbols.iter().map(|symbol| symbol.to_string()).collect();
        let (exchange, books) = Exchange::new(symbols, 50, 100, algorithm.to_string())?;
        Ok(Desk { exchange, books })
    }

    fn deliver(&mut self, message: ExchangeMessage) -> Result<()> {
        match self.exchange.router().route_message(&message)? {
            Route::Book(handle) => {
                assert_eq!(self.exchange.run_book(&mut self.books[handle], vec![message]), 1);
                Ok(())
            }
            Route::Books(handles) => {
                let sent = !handles.is_empty();
                for handle in handles {
                    let book = &mut self.books[handle];
                    assert_eq!(self.exchange.run_book(book, vec![message.clone()]), 1);
                }
                match message {
                    ExchangeMessage::CancelOrder(id) => cancellation_result(id, sent),
                    _ => Ok(()),
                }
            }
            Route::Exchange => Ok(()),
        }
    }

    fn submit_order(&mut self, order: Order) -> Result<u128> {
        let (id, message) = self.exchange.submit_order(order)?;
        self.deliver(message)?;
        Ok(id)
    }

    fn cancel_order(&mut self, id: u128) -> Result<()> {
        let message = self.exchange.cancel_order(id);
        self.deliver(message)
    }

    fn heartbeat(&mut self) -> Result<()> {
        let message = self.exchange.heartbeat()?;
        self.deliver(message)
    }

    fn collect_messages(&mut self) -> Vec<ExchangeMessage> {
        let mut messages = Vec::new();
        for book in self.books.iter_mut() {
            messages.append(&mut book.drain_messages());
        }
        messages
    }
}

fn order(
    symbol: &str,
    side: Side,
    order_type: OrderType,
    quantity: u64,
    price: Option<f64>,
    time_in_force: TimeInForce,
) -> Order {
    Order::new(
        symbol.to_string(),
        side,
        order_type,
        quantity,
        price.map(key),
        None,
        time_in_force,
    )
}

fn from_now(seconds: i64) -> Timestamp {
    let time = chrono::Utc::now() + chrono::Duration::seconds(seconds);
    Timestamp { secs: time.timestamp(), nanos: time.timestamp_subsec_nanos() }
}

fn wait(milliseconds: u64) {
    let runtime = tokio::runtime::Builder::new_current_thread().enable_time().build().unwrap();
    runtime.block_on(async {
        tokio::time::sleep(StdDuration::from_millis(milliseconds)).await;
    });
}

// Helper to extract order updates from messages
fn extract_order_updates(messages: &[ExchangeMessage]) -> HashMap<u128, OrderStatus> {
    let mut updates = HashMap::new();
    for message in messages {
        if let ExchangeMessage::OrderUpdate { order_id, status, .. } = message {
            updates.insert(*order_id, *status);
        }
    }
    updates
}

// Helper to extract trades from messages
fn extract_trades(messages: &[ExchangeMessage]) -> Vec<Trade> {
    let mut trades = Vec::new();
    for message in messages {
        if let ExchangeMessage::Trade(trade) = message {
            trades.push(trade.clone());
        }
    }
    trades
}

#[test]
fn test_complete_trading_scenario() -> Result<()> {
    let mut desk = Desk::open(&["TEST/USD"], "price-time")?;

    // 1. Submit resting orders to build the book
    let limit = |side, quantity, price| {
        order("TEST/USD", side, OrderType::Limit, quantity, Some(price), TimeInForce::GTC)
    };
    let sell_id_1 = desk.submit_order(limit(Side::Sell, 100, 10000.0))?;
    let _sell_id_2 = desk.submit_order(limit(Side::Sell, 200, 10100.0))?;
    let buy_id_1 = desk.submit_order(limit(Side::Buy, 150, 9900.0))?;
    let _buy_id_2 = desk.submit_order(limit(Side::Buy, 250, 9800.0))?;
    let _ = desk.collect_messages();

    // 2. Submit a marketable order that will match
    let market_buy =
        order("TEST/USD", Side::Buy, OrderType::Market, 50, None, TimeInForce::IOC);
    let market_id = desk.submit_order(market_buy)?;
    let messages = desk.collect_messages();
    let updates = extract_order_updates(&messages);
    let trades = extract_trades(&messages);

    // Market buy should be filled
    assert_eq!(updates.get(&market_id), Some(&OrderStatus::Filled));

    // Sell order 1 should be partially filled
    assert_eq!(updates.get(&sell_id_1), Some(&OrderStatus::PartiallyFilled));

    // Should have one trade
    assert_eq!(trades.len(), 1);
    assert_eq!(trades[0].quantity, 50);
    assert_eq!(trades[0].buy_order_id, market_id);
    assert_eq!(trades[0].sell_order_id, sell_id_1);

    // 3. Test time-based order expiration
    desk.exchange.set_time_scale(TimeScale::Fixed)?;

    // Add a GTD order that will expire
    let gtd_order = order(
        "TEST/USD",
        Side::Sell,
        OrderType::Limit,
        300,
        Some(10200.0),
        TimeInForce::GTD(from_now(5)),
    );
    let gtd_id = desk.submit_order(gtd_order)?;
    desk.heartbeat()?;
    let _ = desk.collect_messages();

    // Advance time to trigger expiration
    desk.exchange.advance_time(TimeSpan { secs: 10, nanos: 0 })?;
    desk.heartbeat()?;
    let messages = desk.collect_messages();
    let updates = extract_order_updates(&messages);

    // GTD order should be canceled/expired
    assert!(updates.get(&gtd_id).map_or(false, |&s| s == OrderStatus::Canceled));

    // Reset time scale
    desk.exchange.set_time_scale(TimeScale::Normal)?;

    // 4. Test FOK order that fails
    let fok_order = order(
        "TEST/USD",
        Side::Buy,
        OrderType::Limit,
        1000, // Larger than available quantity at this price
        Some(10000.0),
        TimeInForce::FOK,
    );
    let fok_id = desk.submit_order(fok_order)?;
    let messages = desk.collect_messages();
    let updates = extract_order_updates(&messages);

    // FOK order should be rejected
    assert!(updates.get(&fok_id).map_or(false, |&s| s == OrderStatus::Rejected));

    // 5. Test order cancellation
    desk.cancel_order(buy_id_1)?;
    let messages = desk.collect_messages();
    let updates = extract_order_updates(&messages);

    // Buy order should be canceled
    assert!(updates.get(&buy_id_1).map_or(false, |&s| s == OrderStatus::Canceled));

    Ok(())
}

#[test]
fn test_multiple_matching_algorithms() -> Result<()> {
    let symbols = ["PRICE_TIME/USD", "PRO_RATA/USD"];
    let mut desk = Desk::open(&symbols, "price-time")?;

    // Set pro-rata algorithm for second symbol
    desk.exchange.set_matching_algorithm("PRO_RATA/USD".to_string(), "pro-rata".to_string())?;

    // Setup identical books on both symbols
    for symbol in symbols {
        let gtc = TimeInForce::GTC;
        desk.submit_order(order(symbol, Side::Sell, OrderType::Limit, 100, Some(100.0), gtc))?;
        desk.submit_order(order(symbol, Side::Buy, OrderType::Limit, 100, Some(90.0), gtc))?;
    }
    let _ = desk.collect_messages();

    // Submit marketable orders to both symbols
    for symbol in symbols {
        let gtc = TimeInForce::GTC;
        desk.submit_order(order(symbol, Side::Buy, OrderType::Market, 50, None, gtc))?;
    }

    // Group trades by symbol
    let mut trades_by_symbol: HashMap<String, Vec<Trade>> = HashMap::new();
    for trade in extract_trades(&desk.collect_messages()) {
        trades_by_symbol.entry(trade.symbol.clone()).or_insert_with(Vec::new).push(trade);
    }

    // Verify both symbols had trades
    assert!(trades_by_symbol.contains_key("PRICE_TIME/USD"));
    assert!(trades_by_symbol.contains_key("PRO_RATA/USD"));

    // Both should have the same number of trades in this simple case
    assert_eq!(
        trades_by_symbol.get("PRICE_TIME/USD").unwrap().len(),
        trades_by_symbol.get("PRO_RATA/USD").unwrap().len()
    );

    Ok(())
}

#[test]
fn test_error_handling() -> Result<()> {
    let mut desk = Desk::open(&["TEST/USD"], "price-time")?;

    // 1. Submit order with invalid symbol
    let gtc = TimeInForce::GTC;
    let invalid_symbol_order =
        order("INVALID/USD", Side::Buy, OrderType::Limit, 100, Some(100.0), gtc);

    // This should return an error
    let result = desk.submit_order(invalid_symbol_order);
    assert!(result.is_err());

    // 2. Submit order with invalid parameters (limit order without price)
    let invalid_limit_order = order("TEST/USD", Side::Buy, OrderType::Limit, 100, None, gtc);

    // Submit should succeed, but processing should fail
    let order_id = desk.submit_order(invalid_limit_order)?;
    let messages = desk.collect_messages();
    let updates = extract_order_updates(&messages);

    // Verify rejection
    assert!(updates.get(&order_id).map_or(false, |&s| s == OrderStatus::Rejected));

    // 3. Try to cancel non-existent order
    let random_id = uuid::Uuid::new_v4().as_u128();
    let _ = desk.cancel_order(random_id);
    let messages = desk.collect_messages();
    let updates = extract_order_updates(&messages);
    assert!(updates.get(&random_id).map_or(false, |&s| s == OrderStatus::Rejected));

    Ok(())
}

#[test]
fn test_time_management() -> Result<()> {
    let mut desk = Desk::open(&["TEST/USD"], "price-time")?;
    let exchange = &mut desk.exchange;

    // Test normal time
    let start_time = exchange.current_time()?;
    wait(100);

    // Time should have advanced
    let current_time = exchange.current_time()?;
    assert!(start_time.is_before(&current_time));

    // Test fixed time
    exchange.set_time_scale(TimeScale::Fixed)?;
    let fixed_time = exchange.current_time()?;
    wait(100);

    // Time should not have advanced
    assert_eq!(exchange.current_time()?, fixed_time);

    // Manually advance time
    exchange.advance_time(TimeSpan { secs: 60, nanos: 0 })?;

    // Time should have advanced by exactly 60 seconds
    let new_time = exchange.current_time()?;
    assert_eq!(
        new_time,
        Timestamp { secs: fixed_time.secs + 60, nanos: fixed_time.nanos }
    );

    // Test fast time
    exchange.set_time_scale(TimeScale::Fast(10))?;
    let fast_start = exchange.current_time()?;
    wait(100);

    // Time should have advanced faster than real time
    let fast_current = exchange.current_time()?;
    let real_elapsed = chrono::Utc::now()
        - chrono::DateTime::<chrono::Utc>::from_timestamp(fast_start.secs, 0).unwrap();
    let sim_elapsed =
        chrono::DateTime::<chrono::Utc>::from_timestamp(fast_current.secs, fast_current.nanos)
            .unwrap()
            - chrono::DateTime::<chrono::Utc>::from_timestamp(fast_start.secs, fast_start.nanos)
                .unwrap();

    // Not a precise test, but sim_elapsed should be roughly 10x real_elapsed
    // We're just checking that it's significantly faster
    assert!(sim_elapsed > real_elapsed * 2);

    Ok(())
}

// That the resting buy order brings a message of its own is not asserted here: it
// brings none, since the first message about an order that rests and is then
// canceled is the cancellation (test_order_book_cancel_order).
#[test]
fn test_limit_order_matching() -> Result<()> {
    let mut desk = Desk::open(&["TEST/USD"], "price-time")?;
    let gtc = TimeInForce::GTC;
    let buy_order = order("TEST/USD", Side::Buy, OrderType::Limit, 100, Some(100.0), gtc);
    let sell_order = order("TEST/USD", Side::Sell, OrderType::Limit, 100, Some(100.0), gtc);

    // Submit buy order
    let buy_id = desk.submit_order(buy_order)?;
    let _ = desk.collect_messages();

    // Submit sell order which should match
    let sell_id = desk.submit_order(sell_order)?;
    let match_msgs = desk.collect_messages();

    // Verify we got trade and order updates
    let has_trade = extract_trades(&match_msgs)
        .iter()
        .any(|trade| trade.buy_order_id == buy_id && trade.sell_order_id == sell_id);
    let updates = extract_order_updates(&match_msgs);
    let buy_filled = updates.get(&buy_id) == Some(&OrderStatus::Filled);
    let sell_filled = updates.get(&sell_id) == Some(&OrderStatus::Filled);

    assert!(has_trade, "Expected a trade message");
    assert!(buy_filled, "Expected buy order to be filled");
    assert!(sell_filled, "Expected sell order to be filled");

    Ok(())
}

#[test]
fn test_ioc_order() -> Result<()> {
    let mut desk = Desk::open(&["TEST/USD"], "price-time")?;
    let sell_order =
        order("TEST/USD", Side::Sell, OrderType::Limit, 100, Some(100.0), TimeInForce::GTC);
    // More than available
    let ioc_buy_order =
        order("TEST/USD", Side::Buy, OrderType::Limit, 200, Some(100.0), TimeInForce::IOC);

    // Submit sell order
    desk.submit_order(sell_order)?;
    desk.collect_messages();

    // Submit IOC buy order
    let ioc_id = desk.submit_order(ioc_buy_order)?;
    let ioc_msgs = desk.collect_messages();

    // IOC order should be partially filled but not completely
    let ioc_status = ioc_msgs
        .iter()
        .filter_map(|message| match message {
            ExchangeMessage::OrderUpdate { order_id, status, filled_qty, .. }
                if *order_id == ioc_id =>
            {
                Some((*status, *filled_qty))
            }
            _ => None,
        })
        .last();

    assert!(ioc_status.is_some(), "Expected IOC order update");
    if let Some((status, filled_qty)) = ioc_status {
        assert_eq!(filled_qty, 100, "Expected 100 units filled");
        assert_eq!(
            status,
            OrderStatus::PartiallyFilled,
            "Expected IOC order to be partially filled"
        );
    }

    Ok(())
}

#[test]
fn test_time_expiration() -> Result<()> {
    let mut desk = Desk::open(&["TEST/USD"], "price-time")?;

    // Set fixed time
    desk.exchange.set_time_scale(TimeScale::Fixed)?;

    // Create GTD order that expires in 5 minutes
    let gtd_order = order(
        "TEST/USD",
        Side::Buy,
        OrderType::Limit,
        100,
        Some(90.0),
        TimeInForce::GTD(from_now(5 * 60)),
    );
    let gtd_id = desk.submit_order(gtd_order)?;
    desk.collect_messages();

    // Advance time by 10 minutes
    desk.exchange.advance_time(TimeSpan { secs: 10 * 60, nanos: 0 })?;
    desk.heartbeat()?;
    let expire_msgs = desk.collect_messages();

    // Verify order was canceled due to expiration
    let order_expired = match extract_order_updates(&expire_msgs).get(&gtd_id) {
        Some(status) => {
            *status == OrderStatus::Canceled || *status == OrderStatus::Expired
        }
        None => false,
    };
    assert!(order_expired, "Expected GTD order to be expired");

    // Reset time scale
    desk.exchange.set_time_scale(TimeScale::Normal)?;

    Ok(())
}

#[test]
fn test_fok_order() -> Result<()> {
    let mut desk = Desk::open(&["TEST/USD"], "price-time")?;
    let sell_order =
        order("TEST/USD", Side::Sell, OrderType::Limit, 100, Some(100.0), TimeInForce::GTC);
    // More than available
    let fok_buy_order =
        order("TEST/USD", Side::Buy, OrderType::Limit, 200, Some(100.0), TimeInForce::FOK);

    // Submit sell order
    desk.submit_order(sell_order)?;
    desk.collect_messages();

    // Submit FOK buy order
    let fok_id = desk.submit_order(fok_buy_order)?;
    let fok_msgs = desk.collect_messages();

    // FOK order should be rejected
    let fok_rejected = match extract_order_updates(&fok_msgs).get(&fok_id) {
        Some(status) => {
            *status == OrderStatus::Rejected || *status == OrderStatus::Canceled
        }
        None => false,
    };
    assert!(fok_rejected, "Expected FOK order to be rejected");

    Ok(())
}

#[test]
fn repeated_symbols_are_an_error() {
    let symbols = vec!["A".to_string(), "B".to_string(), "A".to_string(), "B".to_string()];
    match Exchange::new(symbols, 50, 100, "price-time".to_string()) {
        Err(error) => assert_eq!(
            error.message(),
            "Internal error: Order book for A already exists"
        ),
        Ok(_) => panic!("expected an error"),
    }
}

#[test]
fn new_exchanges_have_a_book_for_each_symbol() -> Result<()> {
    let desk = Desk::open(&["A", "B"], "PRO-RATA")?;
    assert_eq!(desk.exchange.symbols(), &["A".to_string(), "B".to_string()]);
    assert_eq!(desk.exchange.heartbeat_interval_ms(), 50);
    assert_eq!(desk.exchange.router().channel_capacity(), 100);
    let names: Vec<&str> = desk.books.iter().map(|book| book.symbol()).collect();
    assert_eq!(names, vec!["A", "B"]);
    for book in &desk.books {
        assert_eq!(book.algorithm_name(), "Pro-Rata");
    }
    Ok(())
}

#[test]
fn unknown_symbols_have_no_algorithm_to_set() -> Result<()> {
    let mut desk = Desk::open(&["A"], "price-time")?;
    match desk.exchange.set_matching_algorithm("B".to_string(), "pro-rata".to_string()) {
        Err(ExchangeError::SymbolNotFound(text)) => assert_eq!(text, "B"),
        other => panic!("unexpected: {:?}", other),
    }
    assert_eq!(desk.exchange.router().get_matching_algorithm("B"), "price-time");
    desk.exchange.set_matching_algorithm("A".to_string(), "pro-rata".to_string())?;
    assert_eq!(desk.exchange.router().get_matching_algorithm("A"), "pro-rata");
    Ok(())
}

#[test]
fn day_orders_end_with_their_day() -> Result<()> {
    let mut desk = Desk::open(&["TEST/USD"], "price-time")?;
    desk.exchange.set_time_scale(TimeScale::Fixed)?;
    let day =
        order("TEST/USD", Side::Buy, OrderType::Limit, 10, Some(90.0), TimeInForce::DAY);
    let lasting =
        order("TEST/USD", Side::Buy, OrderType::Limit, 10, Some(90.0), TimeInForce::GTC);
    // To the last second of the day that the order was created on
    let now = desk.exchange.current_time()?;
    let created = day.created_at.secs;
    let end = created - created.rem_euclid(86_400) + 86_399;
    desk.exchange.advance_time(TimeSpan { secs: end - now.secs, nanos: 0 })?;
    let day_id = desk.submit_order(day)?;
    desk.submit_order(lasting)?;
    desk.heartbeat()?;
    assert!(desk.collect_messages().is_empty());
    desk.exchange.advance_time(TimeSpan { secs: 1, nanos: 0 })?;
    desk.heartbeat()?;
    let messages = desk.collect_messages();
    assert_eq!(messages.len(), 1);
    assert_eq!(extract_order_updates(&messages).get(&day_id), Some(&OrderStatus::Canceled));
    assert_eq!(desk.books[0].best_bid(), Some(key(90.0)));
    Ok(())
}

#[test]
fn simulated_sleep_advances_a_fixed_clock() -> Result<()> {
    let mut desk = Desk::open(&["TEST/USD"], "price-time")?;
    let second = TimeSpan { secs: 1, nanos: 0 };
    assert!(desk.exchange.clock().can_sleep(second));
    assert_eq!(desk.exchange.sleep(second)?, Some(1_000_000_000));
    desk.exchange.set_time_scale(TimeScale::Fixed)?;
    let before = desk.exchange.current_time()?;
    assert_eq!(desk.exchange.sleep(second)?, None);
    assert_eq!(desk.exchange.current_time()?.secs, before.secs + 1);
    Ok(())
}
