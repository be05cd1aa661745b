//! What an order book is: its contents, and what each operation makes of them.

use crate::error::ErrorView;
use crate::model::{MessageView, OrderStatus, OrderType, OrderView, Side, TimeInForce};
use vstd::prelude::*;

verus! {

/// The contents of an order book.
#[verifier::ext_equal]
pub struct BookView {
    /// The symbol that the book trades.
    pub symbol: Seq<char>,
    /// The queued buy orders, each with its price and its sequence number.
    pub bids: Map<u128, (i64, u64)>,
    /// The queued sell orders, each with its price and its sequence number.
    pub asks: Map<u128, (i64, u64)>,
    /// The orders that the book has taken in and not canceled.
    pub orders: Map<u128, OrderView>,
    /// Side and price of each order that is active.
    pub order_info: Map<u128, (Side, i64)>,
    /// The quantity on offer at each price of the buy side.
    pub bid_quantities: Map<i64, u64>,
    /// The quantity on offer at each price of the sell side.
    pub ask_quantities: Map<i64, u64>,
    /// The sequence number that the next queued order gets.
    pub next_sequence: u64,
    /// The last traded price of each symbol, as the matching engine keeps it.
    pub last_prices: Map<Seq<char>, i64>,
    /// The notifications that wait to be sent, the oldest first.
    pub sent: Seq<MessageView>,
}

/// What an operation on behalf of an order comes to: the book and the order
/// after it, and the error that it ends with, if any.
pub struct Outcome {
    pub book: BookView,
    pub order: OrderView,
    pub error: Option<ErrorView>,
}

/// Whether entry `a` of a queue of `side` is served before entry `b`: it has the
/// better price, or the same price and the lower sequence number.
pub open spec fn ahead(side: Side, a: (i64, u64), b: (i64, u64)) -> bool {
    ||| match side {
        Side::Buy => a.0 > b.0,
        Side::Sell => a.0 < b.0,
    }
    ||| (a.0 == b.0 && a.1 < b.1)
}

/// The status that an order ends with once it has met the other side.
pub open spec fn final_status(order: OrderView) -> OrderStatus {
    if order.filled_quantity == order.quantity {
        OrderStatus::Filled
    } else if order.filled_quantity > order.quantity {
        OrderStatus::Rejected
    } else if order.time_in_force == TimeInForce::IOC && order.filled_quantity == 0 {
        OrderStatus::Canceled
    } else {
        OrderStatus::PartiallyFilled
    }
}

/// The buy order of an incoming and a resting order.
pub open spec fn buy_of(taker: OrderView, resting: OrderView) -> OrderView {
    if taker.side == Side::Buy {
        taker
    } else {
        resting
    }
}

/// The sell order of an incoming and a resting order.
pub open spec fn sell_of(taker: OrderView, resting: OrderView) -> OrderView {
    if taker.side == Side::Buy {
        resting
    } else {
        taker
    }
}

/// The resting order after `quantity` more of it has traded.
pub open spec fn filled_by(resting: OrderView, quantity: int) -> OrderView {
    let filled_quantity = (resting.filled_quantity + quantity) as u64;
    OrderView {
        filled_quantity,
        status: if filled_quantity == resting.quantity {
            OrderStatus::Filled
        } else {
            OrderStatus::PartiallyFilled
        },
        ..resting
    }
}

/// Why two orders of a book do not trade, if they do not.
pub open spec fn pair_failure(taker: OrderView, resting: OrderView) -> Option<ErrorView> {
    crate::matching_engine::match_failure(buy_of(taker, resting), sell_of(taker, resting))
}

/// A market order without the price that it carries, and any other order as it is.
pub open spec fn at_market(order: OrderView) -> OrderView {
    if order.order_type == OrderType::Market {
        OrderView { price: None, ..order }
    } else {
        order
    }
}

/// The order that an incoming order executes as: a stop order as the market or the
/// limit order that it becomes, and a market order at whatever price the market has.
pub open spec fn effective(order: OrderView) -> OrderView {
    match order.order_type {
        OrderType::Market | OrderType::StopLoss => at_market(
            OrderView { order_type: OrderType::Market, ..order },
        ),
        OrderType::Limit | OrderType::StopLimit => OrderView {
            order_type: OrderType::Limit,
            ..order
        },
    }
}

/// The quantity of the price levels that an order accepts.
pub open spec fn quantity_accepted(order: OrderView, levels: Map<i64, u64>) -> nat {
    crate::sums::sum_over(
        levels.dom(),
        |price: i64|
            if order.accepts(price) {
                levels[price] as nat
            } else {
                0
            },
    )
}

/// A book for a symbol that has not taken in any order.
pub open spec fn empty_book(symbol: Seq<char>, last_prices: Map<Seq<char>, i64>) -> BookView {
    BookView {
        symbol,
        bids: Map::empty(),
        asks: Map::empty(),
        orders: Map::empty(),
        order_info: Map::empty(),
        bid_quantities: Map::empty(),
        ask_quantities: Map::empty(),
        next_sequence: 1,
        last_prices,
        sent: Seq::empty(),
    }
}

impl BookView {
    /// The queue of a side.
    pub open spec fn queue(self, side: Side) -> Map<u128, (i64, u64)> {
        match side {
            Side::Buy => self.bids,
            Side::Sell => self.asks,
        }
    }

    /// The book with another queue for a side.
    pub open spec fn with_queue(self, side: Side, queue: Map<u128, (i64, u64)>) -> BookView {
        match side {
            Side::Buy => BookView { bids: queue, ..self },
            Side::Sell => BookView { asks: queue, ..self },
        }
    }

    /// The price levels of a side.
    pub open spec fn levels(self, side: Side) -> Map<i64, u64> {
        match side {
            Side::Buy => self.bid_quantities,
            Side::Sell => self.ask_quantities,
        }
    }

    /// The quantity on offer at a price; 0 where there is no such level.
    pub open spec fn level(self, side: Side, price: i64) -> u64 {
        match self.levels(side).get(price) {
            Some(quantity) => quantity,
            None => 0,
        }
    }

    /// The book with another quantity at a price. A level without quantity is no
    /// level.
    pub open spec fn with_level(self, side: Side, price: i64, quantity: u64) -> BookView {
        let levels = if quantity > 0 {
            self.levels(side).insert(price, quantity)
        } else {
            self.levels(side).remove(price)
        };
        match side {
            Side::Buy => BookView { bid_quantities: levels, ..self },
            Side::Sell => BookView { ask_quantities: levels, ..self },
        }
    }

    /// The book with one more notification to send.
    pub open spec fn notify(self, message: MessageView) -> BookView {
        BookView { sent: self.sent.push(message), ..self }
    }

    /// The book with one more status update to send.
    pub open spec fn notify_update(
        self,
        order_id: u128,
        status: OrderStatus,
        filled_qty: u64,
    ) -> BookView {
        self.notify(
            MessageView::OrderUpdate { order_id, status, filled_qty, symbol: self.symbol },
        )
    }

    /// Whether `id` stands first in the queue of a side.
    pub open spec fn is_best(self, side: Side, id: u128) -> bool {
        &&& self.queue(side).contains_key(id)
        &&& forall|other: u128| #[trigger]
            self.queue(side).contains_key(other) ==> !ahead(
                side,
                self.queue(side)[other],
                self.queue(side)[id],
            )
    }

    /// The order that stands first in the queue of a side.
    pub open spec fn best(self, side: Side) -> u128 {
        choose|id: u128| self.is_best(side, id)
    }

    /// The best price of a side.
    pub open spec fn best_price(self, side: Side) -> Option<i64> {
        if self.queue(side).is_empty() {
            None
        } else {
            Some(self.queue(side)[self.best(side)].0)
        }
    }

    /// Whether an incoming order can trade at the best price of the other side.
    pub open spec fn reaches(self, order: OrderView) -> bool {
        match self.best_price(order.side.other()) {
            Some(price) => order.accepts(price),
            None => false,
        }
    }

    /// The quantity on the other side at prices that an order accepts.
    pub open spec fn available(self, order: OrderView) -> nat {
        quantity_accepted(order, self.levels(order.side.other()))
    }

    /// The book without the queue entry of `id`.
    pub open spec fn dequeue(self, side: Side, id: u128) -> BookView {
        self.with_queue(side, self.queue(side).remove(id))
    }

    /// An incoming order trades with the queued order `id`. The trade is notified,
    /// then the new state of the resting order, which leaves the queue and becomes
    /// inactive where nothing is left of it, and keeps its place where something is.
    pub open spec fn trade_with(self, taker: OrderView, id: u128) -> (BookView, OrderView) {
        let resting = self.orders[id];
        let buy = buy_of(taker, resting);
        let sell = sell_of(taker, resting);
        let trade = crate::matching_engine::match_trade(buy, sell, self.last_prices);
        let maker = filled_by(resting, trade.quantity as int);
        let price = match resting.price {
            Some(price) => price,
            None => trade.price,
        };
        let level = (self.level(resting.side, price) - trade.quantity) as u64;
        let traded = BookView {
            orders: self.orders.insert(id, maker),
            last_prices: self.last_prices.insert(buy.symbol, trade.price),
            ..self.with_level(resting.side, price, level)
        }.notify(MessageView::Trade(trade)).notify_update(id, maker.status, maker.filled_quantity);
        (
            if maker.status == OrderStatus::Filled {
                BookView {
                    order_info: traded.order_info.remove(id),
                    ..traded.dequeue(resting.side, id)
                }
            } else {
                traded
            },
            OrderView {
                filled_quantity: (taker.filled_quantity + trade.quantity) as u64,
                ..taker
            },
        )
    }

    /// Whether no order is filled beyond its quantity.
    pub open spec fn no_overfill(self) -> bool {
        forall|id: u128| #[trigger]
            self.orders.contains_key(id) ==> self.orders[id].filled_quantity
                <= self.orders[id].quantity
    }

    /// Whether `id` is in the queue of a side as an order of that side that has
    /// something left.
    pub open spec fn is_live(self, side: Side, id: u128) -> bool {
        &&& self.queue(side).contains_key(id)
        &&& self.orders.contains_key(id)
        &&& self.orders[id].side == side
        &&& self.orders[id].remaining() > 0
    }

    /// An incoming order trades with the orders of the other side, the best one
    /// first, until it is filled or the best one left is not acceptable to it. What
    /// offers nothing leaves the queue. An order that has nothing left to trade
    /// leaves everything as it is.
    pub open spec fn sweep(self, taker: OrderView) -> Outcome
        decreases self.queue(taker.side.other()).dom().len(),
        when self.queue(taker.side.other()).dom().finite() && self.no_overfill()
            && (taker.filled_quantity <= taker.quantity || !self.reaches(taker))
    {
        let side = taker.side.other();
        let id = self.best(side);
        let popped = self.dequeue(side, id);
        proof {
            if self.reaches(taker) {
                self.lemma_best_exists(side);
                assert(popped.queue(side).dom() =~= self.queue(side).dom().remove(id));
            }
        }
        if !self.reaches(taker) {
            Outcome { book: self, order: taker, error: None }
        } else if taker.filled_quantity == taker.quantity {
            Outcome {
                book: self,
                order: taker,
                error: Some(ErrorView::InternalError("No quantity to match"@)),
            }
        } else if !self.is_live(side, id) {
            popped.sweep(taker)
        } else if pair_failure(taker, self.orders[id]) is Some {
            Outcome { book: self, order: taker, error: pair_failure(taker, self.orders[id]) }
        } else {
            let (book, order) = self.trade_with(taker, id);
            if order.filled_quantity == order.quantity {
                Outcome { book, order, error: None }
            } else {
                book.sweep(order)
            }
        }
    }

    /// What becomes of an order that executes at once: a fill-or-kill order that
    /// the other side cannot fill is rejected; any other meets the other side, and
    /// its final state is notified. A market order pays no heed to a price that it
    /// carries.
    pub open spec fn market(self, order: OrderView) -> Outcome {
        let order = at_market(order);
        let refusal = crate::matching_engine::time_in_force_failure(
            order,
            self.available(order) as int,
        );
        if refusal is Some {
            Outcome {
                book: self.notify_update(order.id, OrderStatus::Rejected, 0),
                order: OrderView { status: OrderStatus::Rejected, ..order },
                error: refusal,
            }
        } else {
            let swept = self.sweep(order);
            if swept.error is Some {
                swept
            } else {
                let status = final_status(swept.order);
                Outcome {
                    book: swept.book.notify_update(order.id, status, swept.order.filled_quantity),
                    order: OrderView { status, ..swept.order },
                    error: None,
                }
            }
        }
    }

    /// An order goes to rest in the book with all that is left of it, in place of any
    /// that rests there under the same identifier. One with nothing left has nothing
    /// to rest with.
    pub open spec fn rest(self, order: OrderView) -> Outcome {
        match order.price {
            Some(price) => {
                let resting = OrderView { status: OrderStatus::New, ..order };
                Outcome {
                    book: if order.remaining() == 0 {
                        self
                    } else {
                        self.remove(order.id).0.with_resting(resting, price)
                    },
                    order: resting,
                    error: None,
                }
            },
            None => Outcome {
                book: self,
                order,
                error: Some(ErrorView::InvalidOrder("Limit orders must have a price"@)),
            },
        }
    }

    /// The book with one more order in it, queued last at its price.
    pub open spec fn with_resting(self, order: OrderView, price: i64) -> BookView {
        let level = (self.level(order.side, price) + order.remaining()) as u64;
        let queued = self.with_queue(
            order.side,
            self.queue(order.side).insert(order.id, (price, self.next_sequence)),
        ).with_level(order.side, price, level);
        BookView {
            next_sequence: (self.next_sequence + 1) as u64,
            order_info: self.order_info.insert(order.id, (order.side, price)),
            orders: self.orders.insert(order.id, order),
            ..queued
        }
    }

    /// What becomes of a limit order: where it reaches the other side it executes
    /// at once and what is left of it is canceled or goes to rest; where it does
    /// not, it is canceled, rejected or goes to rest as its time-in-force says.
    pub open spec fn limit(self, order: OrderView) -> Outcome {
        if self.reaches(order) {
            let met = self.market(order);
            if met.error is Some || met.order.filled_quantity >= met.order.quantity
                || met.order.status == OrderStatus::Canceled || met.order.status
                == OrderStatus::Rejected {
                met
            } else if order.time_in_force == TimeInForce::IOC {
                let status = if met.order.filled_quantity > 0 {
                    OrderStatus::PartiallyFilled
                } else {
                    OrderStatus::Canceled
                };
                Outcome {
                    book: met.book.notify_update(order.id, status, met.order.filled_quantity),
                    order: OrderView { status, ..met.order },
                    error: None,
                }
            } else {
                met.book.rest(met.order)
            }
        } else {
            match order.time_in_force {
                TimeInForce::IOC => Outcome {
                    book: self.notify_update(order.id, OrderStatus::Canceled, 0),
                    order: OrderView { status: OrderStatus::Canceled, ..order },
                    error: None,
                },
                TimeInForce::FOK => Outcome {
                    book: self.notify_update(order.id, OrderStatus::Rejected, 0),
                    order: OrderView { status: OrderStatus::Rejected, ..order },
                    error: None,
                },
                _ => self.rest(order),
            }
        }
    }

    /// Whether the market has reached a stop price: a buy stop is reached from
    /// below by the best ask, a sell stop from above by the best bid.
    pub open spec fn stop_reached(self, side: Side, stop_price: i64) -> bool {
        match self.best_price(side.other()) {
            Some(price) => match side {
                Side::Buy => price >= stop_price,
                Side::Sell => price <= stop_price,
            },
            None => false,
        }
    }

    /// What becomes of a stop order: once its stop price is reached it is a market
    /// or a limit order; before that it is only acknowledged.
    pub open spec fn stop(self, order: OrderView) -> Outcome {
        match order.stop_price {
            Some(stop_price) => if self.stop_reached(order.side, stop_price) {
                match order.order_type {
                    OrderType::StopLoss => self.market(
                        OrderView { order_type: OrderType::Market, ..order },
                    ),
                    OrderType::StopLimit => self.limit(
                        OrderView { order_type: OrderType::Limit, ..order },
                    ),
                    _ => Outcome {
                        book: self,
                        order,
                        error: Some(ErrorView::InvalidOrder("Invalid order type conversion"@)),
                    },
                }
            } else {
                Outcome {
                    book: self.notify_update(order.id, OrderStatus::New, 0),
                    order,
                    error: None,
                }
            },
            None => Outcome {
                book: self,
                order,
                error: Some(ErrorView::InvalidOrder("Stop orders must have a stop price"@)),
            },
        }
    }

    /// Why a book does not take an order in at all, if it does not.
    pub open spec fn objection(self, order: OrderView) -> Option<ErrorView> {
        if order.quantity == 0 {
            Some(ErrorView::InvalidOrder("Order quantity must be greater than 0"@))
        } else if order.symbol != self.symbol {
            Some(
                ErrorView::InvalidOrder(
                    "Symbol mismatch: expected "@ + self.symbol + ", got "@ + order.symbol,
                ),
            )
        } else if !order.has_required_prices() {
            Some(ErrorView::InvalidOrder("Invalid order parameters"@))
        } else {
            None
        }
    }

    /// What becomes of an incoming order.
    pub open spec fn process(self, order: OrderView) -> Outcome {
        if self.objection(order) is Some {
            Outcome { book: self, order, error: self.objection(order) }
        } else {
            match order.order_type {
                OrderType::Market => self.market(order),
                OrderType::Limit => self.limit(order),
                _ => self.stop(order),
            }
        }
    }

    /// Whether an incoming order is a stop order whose stop price is not reached.
    pub open spec fn must_wait(self, order: OrderView) -> bool {
        &&& order.order_type == OrderType::StopLoss || order.order_type == OrderType::StopLimit
        &&& order.stop_price matches Some(stop_price) && !self.stop_reached(order.side, stop_price)
    }

    /// The book that a limit order goes to rest in, and what is then left of it.
    pub open spec fn before_rest(self, order: OrderView) -> (BookView, OrderView) {
        if self.reaches(order) {
            (self.market(order).book, self.market(order).order)
        } else {
            (self, order)
        }
    }

    /// Whether something of a limit order goes to rest.
    pub open spec fn puts_to_rest(self, order: OrderView) -> bool {
        &&& order.time_in_force != TimeInForce::IOC
        &&& self.before_rest(order).1.filled_quantity != order.quantity
        &&& if self.reaches(order) {
            self.market(order).error is None
        } else {
            order.time_in_force != TimeInForce::FOK
        }
    }

    /// Whether there is room for an order to rest: it is not filled beyond its
    /// quantity, a sequence number is left, and its level does not outgrow its type.
    pub open spec fn has_room_for(self, order: OrderView) -> bool {
        &&& order.filled_quantity <= order.quantity
        &&& self.next_sequence < u64::MAX
        &&& order.price matches Some(price) ==> self.remove(order.id).0.level(order.side, price)
            + order.remaining() <= u64::MAX
    }

    /// Whether there is room for what is left of a limit order, if anything of it goes
    /// to rest.
    pub open spec fn has_room_to_rest(self, order: OrderView) -> bool {
        self.puts_to_rest(order) ==> self.before_rest(order).0.has_room_for(
            self.before_rest(order).1,
        )
    }

    /// Whether an order may meet the other side: it is not filled beyond its quantity,
    /// or there is no one for it to trade with, or it is refused before it trades.
    pub open spec fn may_execute(self, order: OrderView) -> bool {
        ||| order.filled_quantity <= order.quantity
        ||| !self.reaches(order)
        ||| crate::matching_engine::time_in_force_failure(
            order,
            self.available(order) as int,
        ) is Some
    }

    /// Whether the book can carry out an order that does not wait: it is not filled
    /// beyond its quantity where it is to trade or to rest, and there is room for
    /// what is to rest.
    pub open spec fn can_carry_out(self, order: OrderView) -> bool {
        &&& self.may_execute(order)
        &&& order.order_type == OrderType::Limit ==> self.has_room_to_rest(order)
    }

    /// Whether the book can process an order: it objects to it, lets it wait, or can
    /// carry it out.
    pub open spec fn admits(self, order: OrderView) -> bool {
        self.objection(order) is Some || self.must_wait(order) || self.can_carry_out(
            effective(order),
        )
    }

    /// The book without the order `id`, and that order if it was resting there.
    pub open spec fn remove(self, id: u128) -> (BookView, Option<OrderView>) {
        match self.order_info.get(id) {
            Some((side, price)) => {
                let inactive = BookView { order_info: self.order_info.remove(id), ..self };
                if !self.queue(side).contains_key(id) {
                    (inactive, None)
                } else {
                    let dequeued = inactive.dequeue(side, id);
                    match self.orders.get(id) {
                        Some(order) => {
                            let level = if self.level(side, price) >= order.remaining() {
                                (self.level(side, price) - order.remaining()) as u64
                            } else {
                                0
                            };
                            (
                                BookView {
                                    orders: self.orders.remove(id),
                                    ..dequeued.with_level(side, price, level)
                                },
                                Some(order),
                            )
                        },
                        None => (dequeued, None),
                    }
                }
            },
            None => (self, None),
        }
    }

    /// The book after the order `id` is canceled, which is notified, and the error
    /// where it is not resting there.
    pub open spec fn cancel(self, id: u128) -> (BookView, Option<ErrorView>) {
        match self.remove(id) {
            (book, Some(order)) => (
                book.notify_update(id, OrderStatus::Canceled, order.filled_quantity),
                None,
            ),
            (book, None) => (
                book,
                Some(ErrorView::OrderNotFound(crate::identity::id_text(id))),
            ),
        }
    }

    /// The book after the orders `ids` are canceled one after the other, up to the
    /// first that is not resting there.
    pub open spec fn cancel_each(self, ids: Seq<u128>) -> (BookView, Option<ErrorView>)
        decreases ids.len(),
    {
        if ids.len() == 0 {
            (self, None)
        } else {
            match self.cancel_each(ids.drop_last()) {
                (book, None) => book.cancel(ids.last()),
                failed => failed,
            }
        }
    }

    /// Whether `id` is an active order whose date has come or whose day is over.
    pub open spec fn is_expired(self, id: u128, now: crate::calendar::Timestamp) -> bool {
        &&& self.order_info.contains_key(id)
        &&& self.orders.contains_key(id)
        &&& match self.orders[id].time_in_force {
            TimeInForce::GTD(expiry) => !now.before(expiry),
            TimeInForce::DAY => now.day() > self.orders[id].created_at.day(),
            _ => false,
        }
    }

    /// Whether `ids` lists the active orders whose time is over, each once.
    pub open spec fn lists_expired(
        self,
        ids: Seq<u128>,
        now: crate::calendar::Timestamp,
    ) -> bool {
        &&& ids.no_duplicates()
        &&& forall|id: u128| #[trigger] ids.contains(id) <==> self.is_expired(id, now)
    }

    /// Whether canceling the active orders whose time is over, in one order or
    /// another, leads to `book` and ends with `error`, if any.
    pub open spec fn expires_to(
        self,
        now: crate::calendar::Timestamp,
        book: BookView,
        error: Option<ErrorView>,
    ) -> bool {
        exists|ids: Seq<u128>| #[trigger]
            self.lists_expired(ids, now) && self.cancel_each(ids) == (book, error)
    }

    /// The book after a request to take an order in, which is answered with a
    /// rejection where it fails.
    pub open spec fn submit(self, order: OrderView) -> BookView {
        let outcome = self.process(order);
        if outcome.error is Some {
            outcome.book.notify_update(order.id, OrderStatus::Rejected, 0)
        } else {
            outcome.book
        }
    }

    /// The book after a request to cancel an order, which is answered with a
    /// rejection where it fails.
    pub open spec fn request_cancel(self, id: u128) -> BookView {
        match self.cancel(id) {
            (book, None) => book,
            (book, Some(_)) => book.notify_update(id, OrderStatus::Rejected, 0),
        }
    }

    /// A queue that is not empty has an order that stands first in it.
    pub proof fn lemma_best_exists(self, side: Side)
        requires
            self.queue(side).dom().finite(),
            !self.queue(side).is_empty(),
        ensures
            self.is_best(side, self.best(side)),
        decreases self.queue(side).dom().len(),
    {
        let queue = self.queue(side);
        let id = queue.dom().choose();
        assert(queue.contains_key(id)) by {
            assert(!queue.dom().is_empty());
        }
        let rest = self.dequeue(side, id);
        assert(rest.queue(side).dom() =~= queue.dom().remove(id));
        if rest.queue(side).is_empty() {
            assert forall|other: u128| #[trigger] queue.contains_key(other) implies !ahead(
                side,
                queue[other],
                queue[id],
            ) by {
                if other != id {
                    assert(rest.queue(side).dom().contains(other));
                }
            }
            assert(self.is_best(side, id));
        } else {
            rest.lemma_best_exists(side);
            let second = rest.best(side);
            if ahead(side, queue[id], queue[second]) {
                assert forall|other: u128| #[trigger] queue.contains_key(other) implies !ahead(
                    side,
                    queue[other],
                    queue[id],
                ) by {
                    if other != id {
                        assert(rest.queue(side).contains_key(other));
                    }
                }
                assert(self.is_best(side, id));
            } else {
                assert forall|other: u128| #[trigger] queue.contains_key(other) implies !ahead(
                    side,
                    queue[other],
                    queue[second],
                ) by {
                    if other != id {
                        assert(rest.queue(side).contains_key(other));
                    }
                }
                assert(self.is_best(side, second));
            }
        }
    }
}

/// Cancellation stops at the first order that is not resting in the book.
pub proof fn lemma_cancel_each_stops(book: BookView, ids: Seq<u128>, n: int)
    requires
        0 <= n <= ids.len(),
        book.cancel_each(ids.take(n)).1 is Some,
    ensures
        book.cancel_each(ids) == book.cancel_each(ids.take(n)),
    decreases ids.len(),
{
    if n == ids.len() {
        assert(ids.take(n) =~= ids);
    } else {
        assert(ids.drop_last().take(n) =~= ids.take(n));
        lemma_cancel_each_stops(book, ids.drop_last(), n);
    }
}

} // verus!
