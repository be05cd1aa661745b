//! Orders, trades and the messages that carry them.

use crate::calendar::{utc_now, Timestamp};
use crate::identity::fresh_id;
use vstd::prelude::*;

verus! {

/// Order side.
#[derive(Debug, Clone, Copy, PartialEq, Eq, Structural)]
pub enum Side {
    Buy,
    Sell,
}

impl Side {
    /// The side that this one trades with.
    pub open spec fn other(self) -> Side {
        match self {
            Side::Buy => Side::Sell,
            Side::Sell => Side::Buy,
        }
    }
}

/// Order types.
#[derive(Debug, Clone, Copy, PartialEq, Eq, Structural)]
pub enum OrderType {
    /// Execute at current market price.
    Market,
    /// Execute at specified price or better.
    Limit,
    /// Market order when price reaches stop price.
    StopLoss,
    /// Limit order when price reaches stop price.
    StopLimit,
}

/// How long an order stays in force.
#[derive(Debug, Clone, Copy, PartialEq, Eq, Structural)]
pub enum TimeInForce {
    /// Immediate or Cancel: execute immediately (partially or completely) and
    /// cancel any unfilled portion.
    IOC,
    /// Fill or Kill: execute immediately and completely or cancel the entire
    /// order.
    FOK,
    /// Good Till Canceled: order remains active until it is explicitly
    /// canceled.
    GTC,
    /// Good Till Date: order remains active until the specified date.
    GTD(Timestamp),
    /// Day order: automatically canceled at the end of the trading day, which is
    /// the UTC day that the order was created on.
    DAY,
}

/// Order status.
#[derive(Debug, Clone, Copy, PartialEq, Eq, Structural)]
pub enum OrderStatus {
    New,
    PartiallyFilled,
    Filled,
    Canceled,
    Rejected,
    Expired,
}

/// Full order details. Prices are price keys: whole numbers of
/// ten-thousandths of the currency unit.
#[derive(Debug)]
pub struct Order {
    pub id: u128,
    pub symbol: String,
    pub side: Side,
    pub order_type: OrderType,
    pub quantity: u64,
    pub filled_quantity: u64,
    /// Required for Limit and StopLimit orders.
    pub price: Option<i64>,
    /// Required for StopLoss and StopLimit orders.
    pub stop_price: Option<i64>,
    pub time_in_force: TimeInForce,
    pub status: OrderStatus,
    pub created_at: Timestamp,
    pub updated_at: Timestamp,
}

/// An [`Order`] without the time of its last update.
pub struct OrderView {
    pub id: u128,
    pub symbol: Seq<char>,
    pub side: Side,
    pub order_type: OrderType,
    pub quantity: u64,
    pub filled_quantity: u64,
    pub price: Option<i64>,
    pub stop_price: Option<i64>,
    pub time_in_force: TimeInForce,
    pub status: OrderStatus,
    pub created_at: Timestamp,
}

impl View for Order {
    type V = OrderView;

    open spec fn view(&self) -> OrderView {
        OrderView {
            id: self.id,
            symbol: self.symbol@,
            side: self.side,
            order_type: self.order_type,
            quantity: self.quantity,
            filled_quantity: self.filled_quantity,
            price: self.price,
            stop_price: self.stop_price,
            time_in_force: self.time_in_force,
            status: self.status,
            created_at: self.created_at,
        }
    }
}

impl OrderView {
    /// What is left to trade.
    pub open spec fn remaining(self) -> int {
        self.quantity - self.filled_quantity
    }

    /// Whether the order has the prices that its type calls for.
    pub open spec fn has_required_prices(self) -> bool {
        match self.order_type {
            OrderType::Market => true,
            OrderType::Limit => self.price is Some,
            OrderType::StopLoss => self.stop_price is Some,
            OrderType::StopLimit => self.price is Some && self.stop_price is Some,
        }
    }

    /// Whether the order may trade at `price`: it names no price of its own, or
    /// `price` is as good as its own or better.
    pub open spec fn accepts(self, price: i64) -> bool {
        match self.price {
            Some(limit) => match self.side {
                Side::Buy => limit >= price,
                Side::Sell => limit <= price,
            },
            None => true,
        }
    }
}

impl Clone for Order {
    fn clone(&self) -> (copy: Self)
        ensures
            copy == *self,
    {
        Order {
            id: self.id,
            symbol: self.symbol.clone(),
            side: self.side,
            order_type: self.order_type,
            quantity: self.quantity,
            filled_quantity: self.filled_quantity,
            price: self.price,
            stop_price: self.stop_price,
            time_in_force: self.time_in_force,
            status: self.status,
            created_at: self.created_at,
            updated_at: self.updated_at,
        }
    }
}

impl Order {
    /// A new order under a fresh identifier, created now.
    pub fn new(
        symbol: String,
        side: Side,
        order_type: OrderType,
        quantity: u64,
        price: Option<i64>,
        stop_price: Option<i64>,
        time_in_force: TimeInForce,
    ) -> (order: Self)
        ensures
            crate::identity::is_random_id(order.id),
            order.symbol == symbol,
            order.side == side,
            order.order_type == order_type,
            order.quantity == quantity,
            order.filled_quantity == 0,
            order.price == price,
            order.stop_price == stop_price,
            order.time_in_force == time_in_force,
            order.status == OrderStatus::New,
            order.created_at.is_reading(),
            order.updated_at == order.created_at,
    {
        let now = utc_now();
        let id: u128 = fresh_id();
        Order::identified(
            id,
            now,
            symbol,
            side,
            order_type,
            quantity,
            price,
            stop_price,
            time_in_force,
        )
    }

    /// The new order with the given identifier and time of creation.
    pub fn identified(
        id: u128,
        created_at: Timestamp,
        symbol: String,
        side: Side,
        order_type: OrderType,
        quantity: u64,
        price: Option<i64>,
        stop_price: Option<i64>,
        time_in_force: TimeInForce,
    ) -> (order: Self)
        ensures
            order == (Order {
                id,
                symbol,
                side,
                order_type,
                quantity,
                filled_quantity: 0,
                price,
                stop_price,
                time_in_force,
                status: OrderStatus::New,
                created_at,
                updated_at: created_at,
            }),
    {
        Order {
            id,
            symbol,
            side,
            order_type,
            quantity,
            filled_quantity: 0,
            price,
            stop_price,
            time_in_force,
            status: OrderStatus::New,
            created_at,
            updated_at: created_at,
        }
    }

    /// Whether the order has the prices that its type calls for.
    pub fn validate(&self) -> (valid: bool)
        ensures
            valid == self@.has_required_prices(),
    {
        match self.order_type {
            OrderType::Market => true,
            OrderType::Limit => self.price.is_some(),
            OrderType::StopLoss => self.stop_price.is_some(),
            OrderType::StopLimit => self.price.is_some() && self.stop_price.is_some(),
        }
    }

    /// Whether the order may trade at `price`.
    pub(crate) fn accepts_price(&self, price: i64) -> (accepted: bool)
        ensures
            accepted == self@.accepts(price),
    {
        match (self.price, self.side) {
            (Some(limit), Side::Buy) => limit >= price,
            (Some(limit), Side::Sell) => limit <= price,
            (None, _) => true,
        }
    }

    /// Whether the order would trade at once against the best price of the
    /// other side: a market order always does where there is a price, a limit
    /// order where its own price reaches it, and no other order does.
    pub fn is_marketable(&self, best_price: Option<i64>) -> (marketable: bool)
        ensures
            marketable == (best_price is Some && match self.order_type {
                OrderType::Market => true,
                OrderType::Limit => self.price is Some && self@.accepts(best_price->0),
                _ => false,
            }),
    {
        match (self.order_type, self.price, best_price) {
            (OrderType::Market, _, Some(_)) => true,
            (OrderType::Limit, Some(limit), Some(best)) => match self.side {
                Side::Buy => limit >= best,
                Side::Sell => limit <= best,
            },
            _ => false,
        }
    }
}

/// Trade resulting from matching orders.
#[derive(Debug)]
pub struct Trade {
    pub id: u128,
    pub symbol: String,
    pub buy_order_id: u128,
    pub sell_order_id: u128,
    pub price: i64,
    pub quantity: u64,
    pub timestamp: Timestamp,
}

/// A [`Trade`] without its identifier and its time.
pub struct TradeView {
    pub symbol: Seq<char>,
    pub buy_order_id: u128,
    pub sell_order_id: u128,
    pub price: i64,
    pub quantity: u64,
}

impl View for Trade {
    type V = TradeView;

    open spec fn view(&self) -> TradeView {
        TradeView {
            symbol: self.symbol@,
            buy_order_id: self.buy_order_id,
            sell_order_id: self.sell_order_id,
            price: self.price,
            quantity: self.quantity,
        }
    }
}

impl Clone for Trade {
    fn clone(&self) -> (copy: Self)
        ensures
            copy == *self,
    {
        Trade {
            id: self.id,
            symbol: self.symbol.clone(),
            buy_order_id: self.buy_order_id,
            sell_order_id: self.sell_order_id,
            price: self.price,
            quantity: self.quantity,
            timestamp: self.timestamp,
        }
    }
}

impl Trade {
    /// A trade under a fresh identifier, made now.
    pub fn new(
        symbol: String,
        buy_order_id: u128,
        sell_order_id: u128,
        price: i64,
        quantity: u64,
    ) -> (trade: Self)
        ensures
            crate::identity::is_random_id(trade.id),
            trade@ == (TradeView { symbol: symbol@, buy_order_id, sell_order_id, price, quantity }),
            trade.symbol == symbol,
            trade.timestamp.is_reading(),
    {
        let timestamp = utc_now();
        let id: u128 = fresh_id();
        Trade::identified(id, timestamp, symbol, buy_order_id, sell_order_id, price, quantity)
    }

    /// The trade with the given identifier and time.
    pub fn identified(
        id: u128,
        timestamp: Timestamp,
        symbol: String,
        buy_order_id: u128,
        sell_order_id: u128,
        price: i64,
        quantity: u64,
    ) -> (trade: Self)
        ensures
            trade == (Trade {
                id,
                symbol,
                buy_order_id,
                sell_order_id,
                price,
                quantity,
                timestamp,
            }),
    {
        Trade { id, symbol, buy_order_id, sell_order_id, price, quantity, timestamp }
    }
}

/// Messages passed between components of the exchange.
#[derive(Debug)]
pub enum ExchangeMessage {
    /// Submit a new order to the exchange.
    SubmitOrder(Order),
    /// Cancel an existing order.
    CancelOrder(u128),
    /// Notification of order status update.
    OrderUpdate { order_id: u128, status: OrderStatus, filled_qty: u64, symbol: String },
    /// Notification of a trade.
    Trade(Trade),
    /// Periodic heartbeat for time-based operations.
    Heartbeat(Timestamp),
}

/// An [`ExchangeMessage`] by the views of what it carries.
pub enum MessageView {
    SubmitOrder(OrderView),
    CancelOrder(u128),
    OrderUpdate { order_id: u128, status: OrderStatus, filled_qty: u64, symbol: Seq<char> },
    Trade(TradeView),
    Heartbeat(Timestamp),
}

impl ExchangeMessage {
    /// Whether the message carries no trade, or one with a random identifier and a
    /// time that the system clock can read.
    pub open spec fn is_stamped(self) -> bool {
        self matches ExchangeMessage::Trade(trade) ==> crate::identity::is_random_id(trade.id)
            && trade.timestamp.is_reading()
    }
}

impl View for ExchangeMessage {
    type V = MessageView;

    open spec fn view(&self) -> MessageView {
        match self {
            ExchangeMessage::SubmitOrder(order) => MessageView::SubmitOrder(order@),
            ExchangeMessage::CancelOrder(order_id) => MessageView::CancelOrder(*order_id),
            ExchangeMessage::OrderUpdate { order_id, status, filled_qty, symbol } =>
                MessageView::OrderUpdate {
                    order_id: *order_id,
                    status: *status,
                    filled_qty: *filled_qty,
                    symbol: symbol@,
                },
            ExchangeMessage::Trade(trade) => MessageView::Trade(trade@),
            ExchangeMessage::Heartbeat(time) => MessageView::Heartbeat(*time),
        }
    }
}

impl Clone for ExchangeMessage {
    fn clone(&self) -> (copy: Self)
        ensures
            copy == *self,
    {
        match self {
            ExchangeMessage::SubmitOrder(order) => ExchangeMessage::SubmitOrder(order.clone()),
            ExchangeMessage::CancelOrder(order_id) => ExchangeMessage::CancelOrder(*order_id),
            ExchangeMessage::OrderUpdate { order_id, status, filled_qty, symbol } =>
                ExchangeMessage::OrderUpdate {
                    order_id: *order_id,
                    status: *status,
                    filled_qty: *filled_qty,
                    symbol: symbol.clone(),
                },
            ExchangeMessage::Trade(trade) => ExchangeMessage::Trade(trade.clone()),
            ExchangeMessage::Heartbeat(time) => ExchangeMessage::Heartbeat(*time),
        }
    }
}

} // verus!
