use exchange_sim::calendar::{TimeSpan, Timestamp};
use exchange_sim::error::ExchangeError;
use exchange_sim::matching_engine::create_matching_algorithm;
use exchange_sim::model::{ExchangeMessage, Order, OrderStatus, OrderType, Side, TimeInForce};
use exchange_sim::order_book::OrderBook;
use exchange_sim::time::{ExchangeClock, TimeScale};

type Result<T> = std::result::Result<T, ExchangeError>;

const SYMBOL: &str = "TEST/USD";

fn key(price: f64) -> i64 {
    (price * 10000.0).round() as i64
}

fn new_book() -> OrderBook {
    OrderBook::new(SYMBOL.to_string(), create_matching_algorithm("price-time"))
}

fn limit(side: Side, quantity: u64, price: f64, time_in_force: TimeInForce) -> Order {
    Order::new(
        SYMBOL.to_string(),
        side,
        OrderType::Limit,
        quantity,
        Some(key(price)),
        None,
        time_in_force,
    )
}

fn market(side: Side, quantity: u64, time_in_force: TimeInForce) -> Order {
    Order::new(SYMBOL.to_string(), side, OrderType::Market, quantity, None, None, time_in_force)
}

/// The status updates among messages.
fn updates(messages: &[ExchangeMessage]) -> Vec<(u128, OrderStatus, u64)> {
    messages
        .iter()
        .filter_map(|message| match message {
            ExchangeMessage::OrderUpdate { order_id, status, filled_qty, .. } => {
                Some((*order_id, *status, *filled_qty))
            }
            _ => None,
        })
        .collect()
}

/// Buyer, seller, price and quantity of the trades among messages.
fn trades(messages: &[ExchangeMessage]) -> Vec<(u128, u128, i64, u64)> {
    messages
        .iter()
        .filter_map(|message| match message {
            ExchangeMessage::Trade(trade) => {
                Some((trade.buy_order_id, trade.sell_order_id, trade.price, trade.quantity))
            }
            _ => None,
        })
        .collect()
}

#[test]
fn test_order_book_add_limit_order() -> Result<()> {
    let mut order_book = new_book();
    let limit_order = limit(Side::Buy, 100, 100.0, TimeInForce::GTC);

    // Process the order
    order_book.process_order(limit_order.clone())?;

    // Verify the order was added (through best_bid inspection)
    assert_eq!(order_book.best_bid(), Some(key(100.0)));

    Ok(())
}

#[test]
fn test_order_book_match_orders() -> Result<()> {
    let mut order_book = new_book();

    // Add a resting limit order
    let limit_order = limit(Side::Sell, 100, 100.0, TimeInForce::GTC);
    order_book.process_order(limit_order.clone())?;

    // Partially fill the resting order
    let market_order = market(Side::Buy, 50, TimeInForce::GTC);
    order_book.process_order(market_order.clone())?;

    let mut received_order_update = false;
    let mut received_trade = false;
    for message in order_book.drain_messages() {
        match message {
            ExchangeMessage::OrderUpdate { .. } => received_order_update = true,
            ExchangeMessage::Trade(trade) => {
                received_trade = true;
                assert_eq!(trade.quantity, 50);
                assert_eq!(trade.price, key(100.0));
            }
            _ => {}
        }
    }
    assert!(received_order_update);
    assert!(received_trade);

    Ok(())
}

#[test]
fn test_order_book_cancel_order() -> Result<()> {
    let mut order_book = new_book();
    let limit_order = limit(Side::Buy, 100, 100.0, TimeInForce::GTC);

    // Add the order
    order_book.process_order(limit_order.clone())?;

    // Cancel the order
    order_book.cancel_order(limit_order.id)?;

    // Verify best bid is gone
    assert_eq!(order_book.best_bid(), None);

    // Check for cancel message
    let mut received_cancel = false;
    match order_book.drain_messages().first() {
        Some(ExchangeMessage::OrderUpdate { status, order_id, .. }) => {
            received_cancel = *status == OrderStatus::Canceled && *order_id == limit_order.id;
        }
        _ => {}
    }
    assert!(received_cancel);

    Ok(())
}

#[test]
fn test_order_book_time_in_force() -> Result<()> {
    let mut order_book = new_book();

    // IOC order with no match: too low to match anything
    let ioc_order = limit(Side::Buy, 100, 90.0, TimeInForce::IOC);
    order_book.process_order(ioc_order.clone())?;

    // Verify it was canceled
    let mut received_cancel = false;
    match order_book.drain_messages().first() {
        Some(ExchangeMessage::OrderUpdate { status, order_id, .. }) => {
            received_cancel = *status == OrderStatus::Canceled && *order_id == ioc_order.id;
        }
        _ => {}
    }
    assert!(received_cancel);

    // FOK order with no match: too low to match anything
    let fok_order = limit(Side::Buy, 100, 90.0, TimeInForce::FOK);
    order_book.process_order(fok_order.clone())?;

    // Verify it was rejected
    let mut received_reject = false;
    match order_book.drain_messages().first() {
        Some(ExchangeMessage::OrderUpdate { status, order_id, .. }) => {
            received_reject = *status == OrderStatus::Rejected && *order_id == fok_order.id;
        }
        _ => {}
    }
    assert!(received_reject);

    Ok(())
}

#[test]
fn test_order_book_stop_orders() -> Result<()> {
    let mut order_book = new_book();

    // Add a resting sell order to create market price
    let sell_order = limit(Side::Sell, 100, 100.0, TimeInForce::GTC);
    order_book.process_order(sell_order.clone())?;

    // Clear messages
    order_book.drain_messages();

    // Create a buy stop order with stop price above current best ask
    let stop_order = Order::new(
        SYMBOL.to_string(),
        Side::Buy,
        OrderType::StopLoss,
        50,
        None,
        Some(key(101.0)), // Stop price higher than current ask
        TimeInForce::GTC,
    );

    // Process the stop order - should not trigger yet
    order_book.process_order(stop_order.clone())?;
    assert_eq!(
        updates(&order_book.drain_messages()),
        vec![(stop_order.id, OrderStatus::New, 0)]
    );

    // Create another sell order at a lower price
    let trigger_sell = limit(Side::Sell, 100, 98.0, TimeInForce::GTC);
    order_book.process_order(trigger_sell.clone())?;
    assert_eq!(order_book.best_ask(), Some(key(98.0)));

    Ok(())
}

#[test]
fn stop_orders_trigger_once_the_market_is_there() -> Result<()> {
    let mut book = new_book();
    let ask = limit(Side::Sell, 100, 100.0, TimeInForce::GTC);
    book.process_order(ask.clone())?;

    let mut stop = market(Side::Buy, 30, TimeInForce::GTC);
    stop.order_type = OrderType::StopLoss;
    stop.stop_price = Some(key(100.0));
    book.process_order(stop.clone())?;
    let messages = book.drain_messages();
    assert_eq!(trades(&messages), vec![(stop.id, ask.id, key(100.0), 30)]);

    // A stop-limit order becomes a limit order and rests at its price
    let mut stop_limit = limit(Side::Buy, 40, 95.0, TimeInForce::GTC);
    stop_limit.order_type = OrderType::StopLimit;
    stop_limit.stop_price = Some(key(99.0));
    book.process_order(stop_limit.clone())?;
    assert_eq!(book.best_bid(), Some(key(95.0)));

    // A sell stop is reached by a bid that is no higher
    let mut sell_stop = market(Side::Sell, 10, TimeInForce::GTC);
    sell_stop.order_type = OrderType::StopLoss;
    sell_stop.stop_price = Some(key(94.0));
    book.process_order(sell_stop.clone())?;
    assert_eq!(
        updates(&book.drain_messages()),
        vec![(sell_stop.id, OrderStatus::New, 0)]
    );
    sell_stop.stop_price = Some(key(95.0));
    book.process_order(sell_stop.clone())?;
    assert_eq!(
        trades(&book.drain_messages()),
        vec![(stop_limit.id, sell_stop.id, key(95.0), 10)]
    );
    Ok(())
}

#[test]
fn better_prices_and_older_orders_come_first() -> Result<()> {
    let mut book = new_book();
    let late_best = limit(Side::Sell, 10, 100.0, TimeInForce::GTC);
    let worse = limit(Side::Sell, 10, 101.0, TimeInForce::GTC);
    let early_best = limit(Side::Sell, 10, 100.0, TimeInForce::GTC);
    book.process_order(worse.clone())?;
    book.process_order(early_best.clone())?;
    book.process_order(late_best.clone())?;
    let buy = market(Side::Buy, 25, TimeInForce::GTC);
    book.process_order(buy.clone())?;
    let messages = book.drain_messages();
    assert_eq!(
        trades(&messages),
        vec![
            (buy.id, early_best.id, key(100.0), 10),
            (buy.id, late_best.id, key(100.0), 10),
            (buy.id, worse.id, key(101.0), 5),
        ]
    );
    assert_eq!(
        updates(&messages),
        vec![
            (early_best.id, OrderStatus::Filled, 10),
            (late_best.id, OrderStatus::Filled, 10),
            (worse.id, OrderStatus::PartiallyFilled, 5),
            (buy.id, OrderStatus::Filled, 25),
        ]
    );
    assert_eq!(book.best_ask(), Some(key(101.0)));
    assert_eq!(book.get_quantity_at_price(Side::Sell, key(101.0)), 5);
    assert_eq!(book.get_quantity_at_price(Side::Sell, key(100.0)), 0);
    Ok(())
}

#[test]
fn bids_are_served_from_the_highest_down() -> Result<()> {
    let mut book = new_book();
    let low = limit(Side::Buy, 10, 99.0, TimeInForce::GTC);
    let high = limit(Side::Buy, 10, 99.5, TimeInForce::GTC);
    let higher_negative = limit(Side::Buy, 10, -1.0, TimeInForce::GTC);
    book.process_order(low.clone())?;
    book.process_order(high.clone())?;
    book.process_order(higher_negative.clone())?;
    assert_eq!(book.best_bid(), Some(key(99.5)));
    let sell = limit(Side::Sell, 15, 99.0, TimeInForce::GTC);
    book.process_order(sell.clone())?;
    assert_eq!(
        trades(&book.drain_messages()),
        vec![(high.id, sell.id, key(99.5), 10), (low.id, sell.id, key(99.0), 5)]
    );
    Ok(())
}

#[test]
fn a_limit_order_stops_at_its_price_and_rests() -> Result<()> {
    let mut book = new_book();
    let cheap = limit(Side::Sell, 5, 99.0, TimeInForce::GTC);
    let dear = limit(Side::Sell, 5, 101.0, TimeInForce::GTC);
    book.process_order(cheap.clone())?;
    book.process_order(dear.clone())?;
    let buy = limit(Side::Buy, 10, 100.0, TimeInForce::GTC);
    book.process_order(buy.clone())?;
    let messages = book.drain_messages();
    assert_eq!(trades(&messages), vec![(buy.id, cheap.id, key(99.0), 5)]);
    assert_eq!(updates(&messages).last(), Some(&(buy.id, OrderStatus::PartiallyFilled, 5)));
    assert_eq!(book.best_bid(), Some(key(100.0)));
    assert_eq!(book.best_ask(), Some(key(101.0)));
    assert_eq!(book.get_quantity_at_price(Side::Buy, key(100.0)), 5);
    assert_eq!(book.get_quantity_at_price(Side::Sell, key(101.0)), 5);

    // What has gone to rest can be canceled, with what it was filled by
    book.cancel_order(buy.id)?;
    assert_eq!(updates(&book.drain_messages()), vec![(buy.id, OrderStatus::Canceled, 5)]);
    Ok(())
}

#[test]
fn fill_or_kill_counts_only_prices_it_accepts() -> Result<()> {
    let mut book = new_book();
    book.process_order(limit(Side::Sell, 5, 99.0, TimeInForce::GTC))?;
    book.process_order(limit(Side::Sell, 50, 101.0, TimeInForce::GTC))?;
    let killed = limit(Side::Buy, 10, 100.0, TimeInForce::FOK);
    match book.process_order(killed.clone()) {
        Err(ExchangeError::TimeInForceViolation(text)) => {
            assert_eq!(text, "FOK order cannot be partially filled")
        }
        other => panic!("unexpected: {:?}", other),
    }
    let messages = book.drain_messages();
    assert_eq!(updates(&messages), vec![(killed.id, OrderStatus::Rejected, 0)]);
    assert!(trades(&messages).is_empty());
    assert_eq!(book.best_ask(), Some(key(99.0)));
    assert_eq!(book.best_bid(), None);

    let filled = limit(Side::Buy, 55, 101.0, TimeInForce::FOK);
    book.process_order(filled.clone())?;
    assert_eq!(
        updates(&book.drain_messages()).last(),
        Some(&(filled.id, OrderStatus::Filled, 55))
    );
    assert_eq!(book.best_ask(), None);
    Ok(())
}

#[test]
fn immediate_orders_never_rest() -> Result<()> {
    let mut book = new_book();
    let ask = limit(Side::Sell, 5, 99.0, TimeInForce::GTC);
    book.process_order(ask.clone())?;
    let ioc = limit(Side::Buy, 10, 100.0, TimeInForce::IOC);
    book.process_order(ioc.clone())?;
    let messages = book.drain_messages();
    assert_eq!(
        updates(&messages),
        vec![
            (ask.id, OrderStatus::Filled, 5),
            (ioc.id, OrderStatus::PartiallyFilled, 5),
            (ioc.id, OrderStatus::PartiallyFilled, 5),
        ]
    );
    assert_eq!(book.best_bid(), None);

    // Nothing to trade with
    let canceled = market(Side::Buy, 10, TimeInForce::IOC);
    book.process_order(canceled.clone())?;
    assert_eq!(
        updates(&book.drain_messages()),
        vec![(canceled.id, OrderStatus::Canceled, 0)]
    );
    let unfilled = market(Side::Sell, 10, TimeInForce::GTC);
    book.process_order(unfilled.clone())?;
    assert_eq!(
        updates(&book.drain_messages()),
        vec![(unfilled.id, OrderStatus::PartiallyFilled, 0)]
    );
    assert_eq!(book.best_bid(), None);
    assert_eq!(book.best_ask(), None);
    Ok(())
}

#[test]
fn a_partially_filled_order_keeps_its_place() -> Result<()> {
    let mut book = new_book();
    let first = limit(Side::Sell, 100, 100.0, TimeInForce::GTC);
    let second = limit(Side::Sell, 100, 100.0, TimeInForce::GTC);
    book.process_order(first.clone())?;
    book.process_order(second.clone())?;
    book.process_order(market(Side::Buy, 50, TimeInForce::IOC))?;
    assert_eq!(book.get_quantity_at_price(Side::Sell, key(100.0)), 150);
    book.drain_messages();
    let buy = market(Side::Buy, 50, TimeInForce::IOC);
    book.process_order(buy.clone())?;
    let messages = book.drain_messages();
    assert_eq!(trades(&messages), vec![(buy.id, first.id, key(100.0), 50)]);
    assert_eq!(
        updates(&messages),
        vec![(first.id, OrderStatus::Filled, 100), (buy.id, OrderStatus::Filled, 50)]
    );
    assert_eq!(book.get_quantity_at_price(Side::Sell, key(100.0)), 100);

    // The same on the buy side
    let older = limit(Side::Buy, 10, 99.0, TimeInForce::GTC);
    let newer = limit(Side::Buy, 10, 99.0, TimeInForce::GTC);
    book.process_order(older.clone())?;
    book.process_order(newer.clone())?;
    book.process_order(market(Side::Sell, 4, TimeInForce::IOC))?;
    book.drain_messages();
    let sell = market(Side::Sell, 12, TimeInForce::IOC);
    book.process_order(sell.clone())?;
    assert_eq!(
        trades(&book.drain_messages()),
        vec![(older.id, sell.id, key(99.0), 6), (newer.id, sell.id, key(99.0), 6)]
    );
    Ok(())
}

#[test]
fn market_orders_take_the_price_of_the_market() -> Result<()> {
    let mut book = new_book();
    let ask = limit(Side::Sell, 10, 105.0, TimeInForce::GTC);
    book.process_order(ask.clone())?;
    let mut buy = market(Side::Buy, 4, TimeInForce::GTC);
    buy.price = Some(key(100.0));
    book.process_order(buy.clone())?;
    assert_eq!(
        trades(&book.drain_messages()),
        vec![(buy.id, ask.id, key(105.0), 4)]
    );
    Ok(())
}

#[test]
fn trades_have_identifiers_and_times() -> Result<()> {
    let mut book = new_book();
    book.process_order(limit(Side::Sell, 10, 105.0, TimeInForce::GTC))?;
    let before = chrono::Utc::now().timestamp();
    book.process_order(market(Side::Buy, 4, TimeInForce::GTC))?;
    book.process_order(market(Side::Buy, 4, TimeInForce::GTC))?;
    let mut ids = Vec::new();
    for message in book.drain_messages() {
        if let ExchangeMessage::Trade(trade) = message {
            assert_eq!(uuid::Uuid::from_u128(trade.id).get_version_num(), 4);
            assert!(trade.timestamp.secs >= before);
            ids.push(trade.id);
        }
    }
    assert_eq!(ids.len(), 2);
    assert_ne!(ids[0], ids[1]);
    Ok(())
}

#[test]
fn overfilled_orders_are_rejected_where_they_meet_no_one() -> Result<()> {
    let mut book = new_book();
    let mut order = market(Side::Buy, 4, TimeInForce::GTC);
    order.filled_quantity = 5;
    assert!(book.can_process(&order));
    book.process_order(order.clone())?;
    assert_eq!(
        updates(&book.drain_messages()),
        vec![(order.id, OrderStatus::Rejected, 5)]
    );
    let mut ioc = limit(Side::Buy, 4, 10.0, TimeInForce::IOC);
    ioc.filled_quantity = 5;
    assert!(book.can_process(&ioc));
    book.process_order(ioc.clone())?;
    assert_eq!(
        updates(&book.drain_messages()),
        vec![(ioc.id, OrderStatus::Canceled, 0)]
    );
    ioc.time_in_force = TimeInForce::GTC;
    assert!(!book.can_process(&ioc));
    book.process_order(limit(Side::Sell, 1, 10.0, TimeInForce::GTC))?;
    assert!(!book.can_process(&order));

    // A fill-or-kill order is refused before it trades
    order.time_in_force = TimeInForce::FOK;
    assert!(book.can_process(&order));
    assert!(book.process_order(order.clone()).is_err());
    assert_eq!(
        updates(&book.drain_messages()),
        vec![(order.id, OrderStatus::Rejected, 0)]
    );
    order.quantity = 1;
    assert!(!book.can_process(&order));
    Ok(())
}

#[test]
fn messages_are_handled_in_order() -> Result<()> {
    let mut book = new_book();
    let mut clock = ExchangeClock::new(None);
    let ask = limit(Side::Sell, 10, 100.0, TimeInForce::GTC);
    let mut refused = limit(Side::Buy, 10, 100.0, TimeInForce::GTC);
    refused.price = None;
    let bid = limit(Side::Buy, 10, 100.0, TimeInForce::GTC);
    let mut overfilled = limit(Side::Buy, 10, 100.0, TimeInForce::GTC);
    overfilled.filled_quantity = 11;
    let messages = vec![
        ExchangeMessage::SubmitOrder(ask.clone()),
        ExchangeMessage::SubmitOrder(refused.clone()),
        ExchangeMessage::CancelOrder(99),
        ExchangeMessage::SubmitOrder(bid.clone()),
        ExchangeMessage::SubmitOrder(overfilled),
        ExchangeMessage::CancelOrder(98),
    ];
    assert_eq!(book.run(messages, &mut clock), 4);
    assert_eq!(
        updates(&book.drain_messages()),
        vec![
            (refused.id, OrderStatus::Rejected, 0),
            (99, OrderStatus::Rejected, 0),
            (ask.id, OrderStatus::Filled, 10),
            (bid.id, OrderStatus::Filled, 10),
        ]
    );
    Ok(())
}

#[test]
fn malformed_orders_are_refused_with_a_reason() {
    let mut book = new_book();
    let mut empty = limit(Side::Buy, 100, 100.0, TimeInForce::GTC);
    empty.quantity = 0;
    let mut foreign = limit(Side::Buy, 100, 100.0, TimeInForce::GTC);
    foreign.symbol = "OTHER/USD".to_string();
    let mut unpriced = limit(Side::Buy, 100, 100.0, TimeInForce::GTC);
    unpriced.price = None;
    let cases = vec![
        (empty, "Invalid order: Order quantity must be greater than 0"),
        (foreign, "Invalid order: Symbol mismatch: expected TEST/USD, got OTHER/USD"),
        (unpriced, "Invalid order: Invalid order parameters"),
    ];
    for (order, reason) in cases {
        assert!(book.can_process(&order));
        match book.process_order(order) {
            Err(error) => assert_eq!(error.message(), reason),
            Ok(()) => panic!("expected an error"),
        }
    }
    assert!(book.drain_messages().is_empty());
    assert_eq!(book.best_bid(), None);
}

#[test]
fn a_second_cancel_is_an_error() -> Result<()> {
    let mut book = new_book();
    let order = limit(Side::Sell, 7, 100.0, TimeInForce::GTC);
    book.process_order(order.clone())?;
    book.cancel_order(order.id)?;
    assert_eq!(book.get_quantity_at_price(Side::Sell, key(100.0)), 0);
    match book.cancel_order(order.id) {
        Err(ExchangeError::OrderNotFound(text)) => {
            assert_eq!(text, uuid::Uuid::from_u128(order.id).to_string())
        }
        other => panic!("unexpected: {:?}", other),
    }
    assert_eq!(
        updates(&book.drain_messages()),
        vec![(order.id, OrderStatus::Canceled, 0)]
    );
    Ok(())
}

#[test]
fn cancel_restores_the_book() -> Result<()> {
    let mut book = new_book();
    book.process_order(limit(Side::Buy, 3, 98.0, TimeInForce::GTC))?;
    let order = limit(Side::Buy, 7, 99.0, TimeInForce::GTC);
    book.process_order(order.clone())?;
    assert_eq!(book.best_bid(), Some(key(99.0)));
    book.cancel_order(order.id)?;
    assert_eq!(book.best_bid(), Some(key(98.0)));
    assert_eq!(book.get_quantity_at_price(Side::Buy, key(99.0)), 0);
    assert_eq!(book.get_quantity_at_price(Side::Buy, key(98.0)), 3);
    Ok(())
}

#[test]
fn counters_have_limits() -> Result<()> {
    let mut book = new_book();
    let large = limit(Side::Buy, u64::MAX - 5, 100.0, TimeInForce::GTC);
    book.process_order(large.clone())?;
    assert!(!book.can_process(&limit(Side::Buy, 6, 100.0, TimeInForce::GTC)));
    assert!(book.can_process(&limit(Side::Buy, 5, 100.0, TimeInForce::GTC)));
    assert!(book.can_process(&limit(Side::Buy, 6, 100.0, TimeInForce::IOC)));
    assert!(book.can_process(&limit(Side::Buy, 6, 99.0, TimeInForce::GTC)));
    let mut overfilled = limit(Side::Buy, 6, 99.0, TimeInForce::GTC);
    overfilled.filled_quantity = 7;
    assert!(!book.can_process(&overfilled));

    // An order in place of the one that rests finds its room
    let mut other = limit(Side::Buy, 6, 100.0, TimeInForce::GTC);
    other.id = large.id;
    assert!(book.can_process(&other));

    // A fill-or-kill order needs no room
    let fok = limit(Side::Buy, 6, 100.0, TimeInForce::FOK);
    assert!(book.can_process(&fok));
    let mut clock = ExchangeClock::new(None);
    let messages = vec![
        ExchangeMessage::SubmitOrder(fok.clone()),
        ExchangeMessage::CancelOrder(large.id),
    ];
    assert_eq!(book.run(messages, &mut clock), 2);
    assert_eq!(
        updates(&book.drain_messages()),
        vec![(fok.id, OrderStatus::Rejected, 0), (large.id, OrderStatus::Canceled, 0)]
    );
    Ok(())
}

#[test]
fn an_order_with_nothing_left_leaves_the_book_alone() -> Result<()> {
    let mut book = new_book();
    let date = Timestamp { secs: 1_700_000_000, nanos: 0 };
    let ask = limit(Side::Sell, 100, 100.0, TimeInForce::GTD(date));
    book.process_order(ask.clone())?;
    for time_in_force in [TimeInForce::GTC, TimeInForce::IOC, TimeInForce::FOK] {
        for mut idle in
            [market(Side::Buy, 10, time_in_force), limit(Side::Buy, 10, 100.0, time_in_force)]
        {
            idle.filled_quantity = 10;
            assert!(book.can_process(&idle));
            match book.process_order(idle) {
                Err(error) => assert_eq!(error.message(), "Internal error: No quantity to match"),
                Ok(()) => panic!("expected an error"),
            }
        }
    }
    assert!(book.drain_messages().is_empty());
    assert_eq!(book.best_ask(), Some(key(100.0)));
    assert_eq!(book.get_quantity_at_price(Side::Sell, key(100.0)), 100);
    let buy = market(Side::Buy, 40, TimeInForce::FOK);
    book.process_order(buy.clone())?;
    assert_eq!(
        trades(&book.drain_messages()),
        vec![(buy.id, ask.id, key(100.0), 40)]
    );
    book.cancel_expired(date)?;
    assert_eq!(
        updates(&book.drain_messages()),
        vec![(ask.id, OrderStatus::Canceled, 40)]
    );

    // Nor does it rest
    let mut idle = limit(Side::Sell, 100, 100.0, TimeInForce::GTC);
    idle.filled_quantity = 100;
    book.process_order(idle.clone())?;
    assert_eq!(book.best_ask(), None);
    assert!(book.cancel_order(idle.id).is_err());
    let next = limit(Side::Sell, 5, 101.0, TimeInForce::GTC);
    book.process_order(next.clone())?;
    let buy = market(Side::Buy, 5, TimeInForce::GTC);
    book.process_order(buy.clone())?;
    assert_eq!(
        trades(&book.drain_messages()),
        vec![(buy.id, next.id, key(101.0), 5)]
    );
    Ok(())
}

#[test]
fn a_second_order_under_an_identifier_replaces_the_first() -> Result<()> {
    let mut book = new_book();
    let first = limit(Side::Buy, 10, 99.0, TimeInForce::GTC);
    book.process_order(first.clone())?;
    let mut second = limit(Side::Sell, 7, 101.0, TimeInForce::GTC);
    second.id = first.id;
    book.process_order(second.clone())?;
    assert_eq!(book.best_bid(), None);
    assert_eq!(book.get_quantity_at_price(Side::Buy, key(99.0)), 0);
    assert_eq!(book.best_ask(), Some(key(101.0)));
    let mut third = limit(Side::Sell, 3, 101.0, TimeInForce::GTC);
    third.id = first.id;
    book.process_order(third)?;
    assert_eq!(book.get_quantity_at_price(Side::Sell, key(101.0)), 3);
    book.cancel_order(first.id)?;
    assert_eq!(book.best_ask(), None);
    assert_eq!(
        updates(&book.drain_messages()),
        vec![(first.id, OrderStatus::Canceled, 0)]
    );
    Ok(())
}

#[test]
fn dates_come_and_orders_go() -> Result<()> {
    let mut book = new_book();
    let date = Timestamp { secs: 1_700_000_000, nanos: 500 };
    let later = Timestamp { secs: 1_700_000_000, nanos: 501 };
    let due = limit(Side::Buy, 5, 99.0, TimeInForce::GTD(date));
    let lasting = limit(Side::Buy, 5, 98.0, TimeInForce::GTD(later));
    let mut day = limit(Side::Buy, 5, 97.0, TimeInForce::DAY);
    day.created_at = Timestamp { secs: 1_699_920_000 + 86_399, nanos: 0 };
    let filled = limit(Side::Sell, 2, 100.0, TimeInForce::GTD(date));
    for order in [&due, &lasting, &day, &filled] {
        book.process_order(order.clone())?;
    }
    book.process_order(market(Side::Buy, 2, TimeInForce::GTC))?;
    book.drain_messages();

    book.cancel_expired(Timestamp { secs: 1_700_000_000, nanos: 499 })?;
    assert!(book.drain_messages().is_empty());
    book.cancel_expired(date)?;
    assert_eq!(
        updates(&book.drain_messages()),
        vec![(due.id, OrderStatus::Canceled, 0)]
    );
    assert_eq!(book.best_bid(), Some(key(98.0)));
    book.cancel_expired(later)?;
    assert_eq!(
        updates(&book.drain_messages()),
        vec![(lasting.id, OrderStatus::Canceled, 0)]
    );
    assert_eq!(book.best_bid(), Some(key(97.0)));

    // The day of the last order ends at midnight
    book.cancel_expired(Timestamp { secs: 1_700_006_399, nanos: 999_999_999 })?;
    assert!(book.drain_messages().is_empty());
    book.cancel_expired(Timestamp { secs: 1_700_006_400, nanos: 0 })?;
    assert_eq!(
        updates(&book.drain_messages()),
        vec![(day.id, OrderStatus::Canceled, 0)]
    );
    assert_eq!(book.best_bid(), None);
    Ok(())
}

#[test]
fn messages_are_answered() -> Result<()> {
    let mut book = new_book();
    let start = Timestamp { secs: 1_000_000, nanos: 0 };
    let mut clock = ExchangeClock::new(Some(start));
    clock.set_time_scale(TimeScale::Fixed)?;
    clock.set_time(start)?;

    let order =
        limit(Side::Buy, 5, 99.0, TimeInForce::GTD(Timestamp { secs: 1_000_060, nanos: 0 }));
    book.handle_message(ExchangeMessage::SubmitOrder(order.clone()), &mut clock);
    assert!(book.drain_messages().is_empty());

    // A heartbeat goes by the clock of the exchange, not by what it carries
    let heartbeat = ExchangeMessage::Heartbeat(Timestamp { secs: 2_000_000, nanos: 0 });
    book.handle_message(heartbeat.clone(), &mut clock);
    assert!(book.drain_messages().is_empty());
    clock.advance_time(TimeSpan { secs: 60, nanos: 0 })?;
    book.handle_message(heartbeat, &mut clock);
    assert_eq!(
        updates(&book.drain_messages()),
        vec![(order.id, OrderStatus::Canceled, 0)]
    );

    // Requests that fail are answered with a rejection
    book.handle_message(ExchangeMessage::CancelOrder(order.id), &mut clock);
    let mut refused = order.clone();
    refused.quantity = 0;
    refused.id = 77;
    book.handle_message(ExchangeMessage::SubmitOrder(refused), &mut clock);
    let killed = market(Side::Sell, 5, TimeInForce::FOK);
    book.handle_message(ExchangeMessage::SubmitOrder(killed.clone()), &mut clock);
    let messages = book.drain_messages();
    assert_eq!(
        updates(&messages),
        vec![
            (order.id, OrderStatus::Rejected, 0),
            (77, OrderStatus::Rejected, 0),
            (killed.id, OrderStatus::Rejected, 0),
            (killed.id, OrderStatus::Rejected, 0),
        ]
    );

    // What is not for a book is let pass
    book.handle_message(messages[0].clone(), &mut clock);
    assert!(book.drain_messages().is_empty());
    Ok(())
}

#[test]
fn a_clock_that_cannot_answer_stops_expiry() -> Result<()> {
    let mut book = new_book();
    let mut clock = ExchangeClock::new(None);
    clock.set_time_scale(TimeScale::Slow(0))?;
    match book.check_expired_orders(&mut clock) {
        Err(error) => assert_eq!(error.message(), "Time error: Divisor cannot be zero"),
        Ok(()) => panic!("expected an error"),
    }
    Ok(())
}

#[test]
fn books_know_their_symbol_and_algorithm() {
    let book = OrderBook::new("BTC/USD".to_string(), create_matching_algorithm("pro-rata"));
    assert_eq!(book.symbol(), "BTC/USD");
    assert_eq!(book.algorithm_name(), "Pro-Rata");
}
