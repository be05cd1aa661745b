//! A limit order book with price-time priority.

use crate::calendar::{utc_now, Timestamp};
use crate::error::{joined, ExchangeError};
use crate::identity::write_id;
use crate::matching_engine::MatchingEngine;
use crate::model::{
    ExchangeMessage, MessageView, Order, OrderStatus, OrderType, Side, TimeInForce,
};
use crate::queue;
use crate::time::ExchangeClock;
use priority_queue::PriorityQueue;
use std::collections::HashMap;
use vstd::prelude::*;

verus! {

/// Limit order book with price-time priority using priority queues.
pub struct OrderBook {
    symbol: String,
    // Buy orders: highest price first, then oldest first
    bids: PriorityQueue<u128, (i64, u64)>,
    // Sell orders: lowest price first, then oldest first
    asks: PriorityQueue<u128, (i64, u64)>,
    // Map to quickly look up orders by ID
    orders: HashMap<u128, Order>,
    // Map order ID to its side and price
    order_info: HashMap<u128, (Side, i64)>,
    // For tracking total quantity at each price level
    bid_quantities: HashMap<i64, u64>,
    ask_quantities: HashMap<i64, u64>,
    // Next sequence number for time priority
    next_sequence: u64,
    // Matching algorithm
    matching_engine: MatchingEngine,
    // Notifications that wait to be sent
    outbox: Vec<ExchangeMessage>,
}

/// The price and the sequence number that a priority of a buy order stands for.
spec fn bid_entry(priority: (i64, u64)) -> (i64, u64) {
    (priority.0, (u64::MAX - priority.1) as u64)
}

/// The price and the sequence number that a priority of a sell order stands for.
spec fn ask_entry(priority: (i64, u64)) -> (i64, u64) {
    ((-1 - priority.0) as i64, (u64::MAX - priority.1) as u64)
}

/// Higher price first, then older orders.
fn bid_priority(price: i64, sequence: u64) -> (priority: (i64, u64))
    ensures
        bid_entry(priority) == (price, sequence),
{
    (price, u64::MAX - sequence)
}

/// Lower price first, then older orders.
fn ask_priority(price: i64, sequence: u64) -> (priority: (i64, u64))
    ensures
        ask_entry(priority) == (price, sequence),
{
    (-1 - price, u64::MAX - sequence)
}

impl View for OrderBook {
    type V = crate::book::BookView;

    closed spec fn view(&self) -> crate::book::BookView {
        crate::book::BookView {
            symbol: self.symbol@,
            bids: crate::queue::queue_contents(self.bids).map_values(
                |priority: (i64, u64)| bid_entry(priority),
            ),
            asks: crate::queue::queue_contents(self.asks).map_values(
                |priority: (i64, u64)| ask_entry(priority),
            ),
            orders: self.orders@.map_values(|order: Order| order@),
            order_info: self.order_info@,
            bid_quantities: self.bid_quantities@,
            ask_quantities: self.ask_quantities@,
            next_sequence: self.next_sequence,
            last_prices: self.matching_engine.last_prices(),
            sent: self.outbox@.map_values(|message: ExchangeMessage| message@),
        }
    }
}

impl OrderBook {
    /// The notifications that wait to be sent, the oldest first.
    pub closed spec fn waiting(&self) -> Seq<ExchangeMessage> {
        self.outbox@
    }

    /// The orders that the book has taken in and not canceled.
    pub closed spec fn stored(&self) -> Map<u128, Order> {
        self.orders@
    }

    /// Whether every trade that waits to be sent has a random identifier and a time
    /// that the system clock can read, and every order was last updated at such a
    /// time.
    pub open spec fn stamped(&self) -> bool {
        &&& forall|i: int|
            0 <= i < self.waiting().len() ==> (#[trigger] self.waiting()[i]).is_stamped()
        &&& forall|id: u128| #[trigger]
            self.stored().contains_key(id) ==> self.stored()[id].updated_at.is_reading()
    }

    /// What holds of every order book.
    pub open spec fn wf(&self) -> bool {
        self@.wf() && self.stamped()
    }

    /// The name of the algorithm that the book matches by.
    pub closed spec fn algorithm(&self) -> Seq<char> {
        self.matching_engine.title()
    }

    /// An empty book for a symbol.
    pub fn new(symbol: String, matching_engine: MatchingEngine) -> (book: Self)
        ensures
            book@ == crate::book::empty_book(symbol@, matching_engine.last_prices()),
            book.wf(),
            book.algorithm() == matching_engine.title(),
    {
        let book = OrderBook {
            symbol,
            bids: queue::new_queue(),
            asks: queue::new_queue(),
            orders: HashMap::new(),
            order_info: HashMap::new(),
            bid_quantities: HashMap::new(),
            ask_quantities: HashMap::new(),
            next_sequence: 1,
            matching_engine,
            outbox: Vec::new(),
        };
        proof {
            assert(book@ =~= crate::book::empty_book(symbol@, matching_engine.last_prices()));
            crate::invariants::lemma_empty_wf(symbol@, matching_engine.last_prices());
        }
        book
    }

    /// Get the best bid price.
    pub fn best_bid(&self) -> (price: Option<i64>)
        requires
            self@.wf(),
        ensures
            price == self@.best_price(Side::Buy),
            price is None <==> self@.bids.is_empty(),
            price matches Some(best) ==> forall|id: u128| #[trigger]
                self@.bids.contains_key(id) ==> self@.bids[id].0 <= best,
            price matches Some(best) ==> exists|id: u128| #[trigger]
                self@.bids.contains_key(id) && self@.bids[id].0 == best,
    {
        match queue::peek(&self.bids) {
            Some((id, priority)) => {
                proof {
                    self.lemma_first_bid(id, priority);
                }
                Some(priority.0)
            },
            None => None,
        }
    }

    /// Get the best ask price.
    pub fn best_ask(&self) -> (price: Option<i64>)
        requires
            self@.wf(),
        ensures
            price == self@.best_price(Side::Sell),
            price is None <==> self@.asks.is_empty(),
            price matches Some(best) ==> forall|id: u128| #[trigger]
                self@.asks.contains_key(id) ==> self@.asks[id].0 >= best,
            price matches Some(best) ==> exists|id: u128| #[trigger]
                self@.asks.contains_key(id) && self@.asks[id].0 == best,
    {
        match queue::peek(&self.asks) {
            Some((id, priority)) => {
                proof {
                    self.lemma_first_ask(id, priority);
                }
                Some(-1 - priority.0)
            },
            None => None,
        }
    }

    /// What the queue of buy orders puts first is the best bid.
    proof fn lemma_first_bid(&self, id: u128, priority: (i64, u64))
        requires
            self@.wf(),
            crate::queue::is_first(crate::queue::queue_contents(self.bids), id, priority),
        ensures
            self@.bids.contains_key(id),
            self@.bids[id] == bid_entry(priority),
            self@.best(Side::Buy) == id,
            self@.best_price(Side::Buy) == Some(priority.0),
    {
        let contents = crate::queue::queue_contents(self.bids);
        assert forall|other: u128| #[trigger]
            self@.queue(Side::Buy).contains_key(other) implies !crate::book::ahead(
            Side::Buy,
            self@.queue(Side::Buy)[other],
            self@.queue(Side::Buy)[id],
        ) by {
            assert(contents.contains_key(other));
        }
        assert(self@.is_best(Side::Buy, id));
        crate::invariants::lemma_best_is(self@, Side::Buy, id);
    }

    /// What the queue of sell orders puts first is the best ask.
    proof fn lemma_first_ask(&self, id: u128, priority: (i64, u64))
        requires
            self@.wf(),
            crate::queue::is_first(crate::queue::queue_contents(self.asks), id, priority),
        ensures
            self@.asks.contains_key(id),
            self@.asks[id] == ask_entry(priority),
            self@.best(Side::Sell) == id,
            self@.best_price(Side::Sell) == Some((-1 - priority.0) as i64),
    {
        let contents = crate::queue::queue_contents(self.asks);
        assert forall|other: u128| #[trigger]
            self@.queue(Side::Sell).contains_key(other) implies !crate::book::ahead(
            Side::Sell,
            self@.queue(Side::Sell)[other],
            self@.queue(Side::Sell)[id],
        ) by {
            assert(contents.contains_key(other));
        }
        assert(self@.is_best(Side::Sell, id));
        crate::invariants::lemma_best_is(self@, Side::Sell, id);
    }

    /// Get total quantity available at a price level.
    pub fn get_quantity_at_price(&self, side: Side, price_key: i64) -> (quantity: u64)
        ensures
            quantity == self@.level(side, price_key),
    {
        let found = match side {
            Side::Buy => self.bid_quantities.get(&price_key),
            Side::Sell => self.ask_quantities.get(&price_key),
        };
        match found {
            Some(quantity) => *quantity,
            None => 0,
        }
    }

    /// Update the quantity for a price level.
    fn update_quantity_at_price(&mut self, side: Side, price_key: i64, quantity: u64)
        ensures
            final(self)@ == old(self)@.with_level(side, price_key, quantity),
            final(self).algorithm() == old(self).algorithm(),
            final(self).waiting() == old(self).waiting(),
            final(self).stored() == old(self).stored(),
    {
        match side {
            Side::Buy => {
                if quantity > 0 {
                    self.bid_quantities.insert(price_key, quantity);
                } else {
                    self.bid_quantities.remove(&price_key);
                }
            },
            Side::Sell => {
                if quantity > 0 {
                    self.ask_quantities.insert(price_key, quantity);
                } else {
                    self.ask_quantities.remove(&price_key);
                }
            },
        }
    }

    /// Pop the best order that an order of `side` meets, with its price and its
    /// sequence number.
    fn pop_best_order(&mut self, side: Side) -> (popped: Option<(u128, (i64, u64))>)
        requires
            old(self)@.wf(),
        ensures
            final(self).algorithm() == old(self).algorithm(),
            final(self).waiting() == old(self).waiting(),
            final(self).stored() == old(self).stored(),
            match popped {
                Some((id, entry)) => {
                    &&& old(self)@.queue(side.other()).contains_key(id)
                    &&& old(self)@.queue(side.other())[id] == entry
                    &&& id == old(self)@.best(side.other())
                    &&& final(self)@ == old(self)@.dequeue(side.other(), id)
                },
                None => {
                    &&& old(self)@.queue(side.other()).is_empty()
                    &&& final(self)@ == old(self)@
                },
            },
    {
        match side {
            Side::Buy => match queue::pop(&mut self.asks) {
                Some((id, priority)) => {
                    proof {
                        old(self).lemma_first_ask(id, priority);
                        assert(self@ =~= old(self)@.dequeue(Side::Sell, id));
                    }
                    Some((id, (-1 - priority.0, u64::MAX - priority.1)))
                },
                None => None,
            },
            Side::Sell => match queue::pop(&mut self.bids) {
                Some((id, priority)) => {
                    proof {
                        old(self).lemma_first_bid(id, priority);
                        assert(self@ =~= old(self)@.dequeue(Side::Buy, id));
                    }
                    Some((id, (priority.0, u64::MAX - priority.1)))
                },
                None => None,
            },
        }
    }

    /// The quantity on the other side at prices that an order accepts, or the
    /// greatest one that a `u64` can hold.
    fn get_available_quantity(&self, order: &Order) -> (quantity: u64)
        ensures
            quantity == if self@.available(order@) <= u64::MAX {
                self@.available(order@) as int
            } else {
                u64::MAX as int
            },
    {
        match order.side {
            Side::Buy => sum_accepted(order, &self.ask_quantities),
            Side::Sell => sum_accepted(order, &self.bid_quantities),
        }
    }

    /// Put a notification behind those that wait to be sent.
    fn send(&mut self, message: ExchangeMessage)
        ensures
            final(self)@ == old(self)@.notify(message@),
            final(self).algorithm() == old(self).algorithm(),
            final(self).waiting() == old(self).waiting().push(message),
            final(self).stored() == old(self).stored(),
    {
        self.outbox.push(message);
        assert(self@ =~= old(self)@.notify(message@));
    }

    /// Put a status update behind the notifications that wait to be sent.
    fn send_update(&mut self, order_id: u128, status: OrderStatus, filled_qty: u64)
        ensures
            final(self)@ == old(self)@.notify_update(order_id, status, filled_qty),
            final(self).algorithm() == old(self).algorithm(),
            final(self).stored() == old(self).stored(),
            old(self).stamped() ==> final(self).stamped(),
    {
        let symbol = self.symbol.clone();
        self.send(ExchangeMessage::OrderUpdate { order_id, status, filled_qty, symbol });
    }

    /// Put an order into the queue of its side.
    fn enqueue(&mut self, side: Side, id: u128, price_key: i64, sequence: u64)
        ensures
            final(self)@ == old(self)@.with_queue(
                side,
                old(self)@.queue(side).insert(id, (price_key, sequence)),
            ),
            final(self).algorithm() == old(self).algorithm(),
            final(self).waiting() == old(self).waiting(),
            final(self).stored() == old(self).stored(),
    {
        match side {
            Side::Buy => {
                queue::push(&mut self.bids, id, bid_priority(price_key, sequence));
            },
            Side::Sell => {
                queue::push(&mut self.asks, id, ask_priority(price_key, sequence));
            },
        }
        assert(self@ =~= old(self)@.with_queue(
            side,
            old(self)@.queue(side).insert(id, (price_key, sequence)),
        ));
    }

    /// Trade an incoming order with a resting one that has just been popped. Where
    /// something is left of that one, it goes back to its place in the queue.
    fn trade_with_resting(
        &mut self,
        order: &mut Order,
        resting_order: Order,
        entry: (i64, u64),
    ) -> (result: Result<(), ExchangeError>)
        requires
            old(self)@.orders.contains_key(resting_order.id),
            old(self)@.orders[resting_order.id] == resting_order@,
            !old(self)@.queue(old(order).side.other()).contains_key(resting_order.id),
            resting_order.filled_quantity <= resting_order.quantity,
            resting_order.updated_at.is_reading(),
            crate::book::pair_failure(old(order)@, resting_order@) is None ==> (
            resting_order.price matches Some(price) && old(self)@.level(resting_order.side, price)
                >= resting_order@.remaining()),
            old(order).filled_quantity <= old(order).quantity,
        ensures
            crate::error::error_of(result) == crate::book::pair_failure(
                old(order)@,
                resting_order@,
            ),
            (final(self)@, final(order)@) == if result is Ok {
                old(self)@.with_queue(
                    old(order).side.other(),
                    old(self)@.queue(old(order).side.other()).insert(resting_order.id, entry),
                ).trade_with(old(order)@, resting_order.id)
            } else {
                (old(self)@, old(order)@)
            },
            final(self).algorithm() == old(self).algorithm(),
            old(self).stamped() ==> final(self).stamped(),
    {
        let ghost queued = self@.with_queue(
            order.side.other(),
            self@.queue(order.side.other()).insert(resting_order.id, entry),
        );
        let ghost taker = order@;
        let side = resting_order.side;
        let id: u128 = resting_order.id;
        // Use the matching engine to match orders
        let matched = match order.side {
            Side::Buy => self.matching_engine.algorithm.match_orders(order, &resting_order),
            Side::Sell => match self.matching_engine.algorithm.match_orders(&resting_order, order) {
                Ok((trade, buy_remaining, sell_remaining)) => Ok(
                    (trade, sell_remaining, buy_remaining),
                ),
                Err(error) => Err(error),
            },
        };
        let (trade, incoming_remaining, resting_remaining) = match matched {
            Ok(parts) => parts,
            Err(error) => {
                assert(self.waiting() == old(self).waiting() && self.stored() == old(self).stored());
                return Err(error);
            },
        };
        assert(self.waiting() == old(self).waiting() && self.stored() == old(self).stored());
        order.filled_quantity = order.quantity - incoming_remaining;
        // Update quantity tracking for the price level
        let price_key: i64 = match resting_order.price {
            Some(price) => price,
            None => trade.price,
        };
        let current_qty: u64 = self.get_quantity_at_price(resting_order.side, price_key);
        self.update_quantity_at_price(resting_order.side, price_key, current_qty - trade.quantity);
        // Send trade notification
        self.send(ExchangeMessage::Trade(trade));
        assert(old(self).stamped() ==> self.stamped());
        // Update the resting order in storage and notify its new state
        let fully_filled = resting_remaining == 0;
        let mut updated_resting = resting_order;
        updated_resting.filled_quantity = updated_resting.quantity - resting_remaining;
        updated_resting.status = if fully_filled {
            OrderStatus::Filled
        } else {
            OrderStatus::PartiallyFilled
        };
        self.send_update(id, updated_resting.status, updated_resting.filled_quantity);
        let ghost told = *self;
        self.orders.insert(id, updated_resting);
        assert(self.stored() == told.stored().insert(id, updated_resting) && self.waiting()
            == told.waiting());
        assert(old(self).stamped() ==> self.stamped());
        if fully_filled {
            self.order_info.remove(&id);
        } else {
            self.enqueue(side, id, entry.0, entry.1);
        }
        assert(self.stored() == told.stored().insert(id, updated_resting) && self.waiting()
            == told.waiting());
        assert(self@ =~= queued.trade_with(taker, id).0);
        Ok(())
    }

    /// Whether an incoming order can trade at the best price of the other side.
    fn can_reach(&self, order: &Order) -> (reached: bool)
        requires
            self@.wf(),
        ensures
            reached == self@.reaches(order@),
    {
        let best_price = match order.side {
            Side::Buy => self.best_ask(),
            Side::Sell => self.best_bid(),
        };
        match best_price {
            Some(price) => order.accepts_price(price),
            None => false,
        }
    }

    /// Process a market order - immediate execution at current market prices.
    fn process_market_order(&mut self, order: &mut Order) -> (result: Result<(), ExchangeError>)
        requires
            old(self).wf(),
            old(order).symbol@ == old(self)@.symbol,
            old(order).quantity > 0,
            old(self)@.may_execute(crate::book::at_market(old(order)@)),
        ensures
            final(self)@ == old(self)@.market(old(order)@).book,
            final(order)@ == old(self)@.market(old(order)@).order,
            crate::error::error_of(result) == old(self)@.market(old(order)@).error,
            final(self).wf(),
            final(self).algorithm() == old(self).algorithm(),
            old(self).stamped() ==> final(self).stamped(),
    {
        // A market order pays no heed to a price that it carries
        if order.order_type == OrderType::Market {
            order.price = None;
        }
        let ghost trader = order@;
        proof {
            crate::invariants::lemma_market_wf(self@, trader);
        }
        // Check if the order can be filled according to time-in-force
        if order.time_in_force == TimeInForce::FOK {
            let available_qty: u64 = self.get_available_quantity(order);
            if let Err(error) = self.matching_engine.algorithm.validate_time_in_force(
                order,
                available_qty,
            ) {
                // Can't satisfy FOK - reject the order
                order.status = OrderStatus::Rejected;
                self.send_update(order.id, OrderStatus::Rejected, 0);
                return Err(error);
            }
        }
        // An order that has nothing left to trade leaves the book alone
        if order.filled_quantity == order.quantity && self.can_reach(order) {
            return Err(ExchangeError::InternalError("No quantity to match".to_owned()));
        }
        let ghost swept = self@.sweep(order@);
        let mut unfilled = true;
        // Keep matching until the order is filled or nothing acceptable is left
        while unfilled && self.can_reach(order)
            invariant
                self.wf(),
                self.algorithm() == old(self).algorithm(),
                unfilled ==> order.filled_quantity < order.quantity || !self@.reaches(order@),
                order@ == (crate::model::OrderView {
                    filled_quantity: order.filled_quantity,
                    ..trader
                }),
                trader.symbol == self@.symbol,
                swept == (if unfilled {
                    self@.sweep(order@)
                } else {
                    crate::book::Outcome { book: self@, order: order@, error: None }
                }),
                swept == old(self)@.sweep(trader),
                crate::matching_engine::time_in_force_failure(
                    trader,
                    old(self)@.available(trader) as int,
                ) is None,
            decreases
                    (if unfilled {
                        1int
                    } else {
                        0
                    }),
                    self@.queue(order.side.other()).dom().len(),
        {
            let ghost book = self@;
            let ghost taker = order@;
            proof {
                crate::invariants::lemma_pair_trades(book, taker);
                crate::invariants::lemma_level_covers(
                    book,
                    taker.side.other(),
                    book.best(taker.side.other()),
                );
                crate::invariants::lemma_trade_wf(book, taker);
            }
            if let Some((order_id, entry)) = self.pop_best_order(order.side) {
                if let Some(resting_order) = self.orders.get(&order_id) {
                    let resting_order = resting_order.clone();
                    let resting_side = resting_order.side;
                    proof {
                        assert(self@.with_queue(
                            order.side.other(),
                            self@.queue(order.side.other()).insert(order_id, entry),
                        ) =~= book);
                        assert(self.stored().contains_key(order_id));
                    }
                    match self.trade_with_resting(order, resting_order, entry) {
                        Ok(()) => {
                            unfilled = order.filled_quantity < order.quantity;
                        },
                        Err(error) => {
                            self.enqueue(resting_side, order_id, entry.0, entry.1);
                            return Err(error);
                        },
                    }
                }
            }
        }
        // Update the incoming order's status based on fill and time in force
        order.status = if order.filled_quantity == order.quantity {
            OrderStatus::Filled
        } else if order.filled_quantity > order.quantity {
            OrderStatus::Rejected
        } else if order.time_in_force == TimeInForce::IOC && order.filled_quantity == 0 {
            OrderStatus::Canceled
        } else {
            OrderStatus::PartiallyFilled
        };
        self.send_update(order.id, order.status, order.filled_quantity);
        Ok(())
    }

    /// Add a limit order to the book, in place of any that rests there under the same
    /// identifier.
    fn add_limit_order(&mut self, order: Order) -> (result: Result<(), ExchangeError>)
        requires
            old(self)@.no_overfill(),
            order.filled_quantity == order.quantity || old(self)@.has_room_for(order@),
        ensures
            final(self)@ == old(self)@.rest(order@).book,
            crate::error::error_of(result) == old(self)@.rest(order@).error,
            final(self).algorithm() == old(self).algorithm(),
            old(self).stamped() ==> final(self).stamped(),
    {
        let price_key: i64 = match order.price {
            Some(price) => price,
            None => {
                return Err(
                    ExchangeError::InvalidOrder("Limit orders must have a price".to_owned()),
                );
            },
        };
        // An order that has nothing left has nothing to rest with
        if order.filled_quantity == order.quantity {
            return Ok(());
        }
        let _ = self.remove_order(order.id);
        let ghost cleared = *self;
        // Update order status and timestamps
        let mut order = order;
        order.status = OrderStatus::New;
        order.updated_at = utc_now();
        // Get sequence number for time priority
        let sequence: u64 = self.next_sequence;
        self.next_sequence = sequence + 1;
        // Add to the priority queue of its side and update quantity tracking
        self.enqueue(order.side, order.id, price_key, sequence);
        let current_qty: u64 = self.get_quantity_at_price(order.side, price_key);
        let new_qty: u64 = current_qty + (order.quantity - order.filled_quantity);
        self.update_quantity_at_price(order.side, price_key, new_qty);
        // Store order in lookups
        self.order_info.insert(order.id, (order.side, price_key));
        self.orders.insert(order.id, order);
        assert(self.waiting() == cleared.waiting());
        assert(self.stored() == cleared.stored().insert(order.id, order));
        assert(self@ =~= cleared@.with_resting(order@, price_key));
        Ok(())
    }

    /// Remove an order from the book.
    fn remove_order(&mut self, order_id: u128) -> (removed: Option<Order>)
        requires
            old(self)@.no_overfill(),
        ensures
            final(self)@ == old(self)@.remove(order_id).0,
            removed is Some <==> old(self)@.remove(order_id).1 is Some,
            removed matches Some(order) ==> old(self)@.remove(order_id).1 == Some(order@),
            final(self).algorithm() == old(self).algorithm(),
            old(self).stamped() ==> final(self).stamped(),
    {
        let (side, price_key): (Side, i64) = match self.order_info.remove(&order_id) {
            Some(info) => info,
            None => {
                assert(self.waiting() == old(self).waiting() && self.stored() == old(self).stored());
                return None;
            },
        };
        // Remove from the priority queue of its side
        let removed = match side {
            Side::Buy => queue::remove(&mut self.bids, order_id),
            Side::Sell => queue::remove(&mut self.asks, order_id),
        };
        assert(self@ =~= crate::book::BookView {
            order_info: old(self)@.order_info.remove(order_id),
            ..old(self)@
        }.dequeue(side, order_id));
        if removed.is_none() {
            assert(self@.queue(side) =~= old(self)@.queue(side));
            assert(self.waiting() == old(self).waiting() && self.stored() == old(self).stored());
            return None;
        }
        let order = match self.orders.remove(&order_id) {
            Some(order) => order,
            None => {
                assert(self.waiting() == old(self).waiting() && self.stored() =~= old(self).stored());
                return None;
            },
        };
        assert(self.waiting() == old(self).waiting() && self.stored() == old(self).stored().remove(
            order_id,
        ));
        // Update quantity tracking for the price level
        let order_qty: u64 = order.quantity - order.filled_quantity;
        let current_qty: u64 = self.get_quantity_at_price(side, price_key);
        self.update_quantity_at_price(side, price_key, current_qty.saturating_sub(order_qty));
        Some(order)
    }

    /// Process a limit order - can execute immediately if price conditions are met.
    fn process_limit_order(&mut self, order: Order) -> (result: Result<(), ExchangeError>)
        requires
            old(self).wf(),
            order.symbol@ == old(self)@.symbol,
            order.order_type == OrderType::Limit,
            order.quantity > 0,
            old(self)@.may_execute(order@),
            old(self)@.has_room_to_rest(order@),
        ensures
            final(self)@ == old(self)@.limit(order@).book,
            crate::error::error_of(result) == old(self)@.limit(order@).error,
            final(self).wf(),
            final(self).algorithm() == old(self).algorithm(),
            old(self).stamped() ==> final(self).stamped(),
    {
        let mut order = order;
        proof {
            crate::invariants::lemma_limit_wf(self@, order@);
            crate::invariants::lemma_market_wf(self@, order@);
        }
        if self.can_reach(&order) {
            // Process the marketable portion like a market order
            self.process_market_order(&mut order)?;
            // Check if order should be added to book after partial execution
            if order.filled_quantity >= order.quantity || order.status == OrderStatus::Canceled
                || order.status == OrderStatus::Rejected {
                return Ok(());
            }
            if order.time_in_force == TimeInForce::IOC {
                // For IOC orders, cancel any remaining quantity
                order.status = if order.filled_quantity > 0 {
                    OrderStatus::PartiallyFilled
                } else {
                    OrderStatus::Canceled
                };
                self.send_update(order.id, order.status, order.filled_quantity);
                return Ok(());
            }
            // Add remaining quantity to the book
            return self.add_limit_order(order);
        }
        // Not immediately marketable
        match order.time_in_force {
            // Cancel immediately since it can't be filled right now
            TimeInForce::IOC => {
                self.send_update(order.id, OrderStatus::Canceled, 0);
                Ok(())
            },
            // Reject since it can't be filled completely right now
            TimeInForce::FOK => {
                self.send_update(order.id, OrderStatus::Rejected, 0);
                Ok(())
            },
            // GTC, GTD, DAY - add to the book
            _ => self.add_limit_order(order),
        }
    }

    /// Whether the market has reached the stop price of an order.
    fn is_triggered(&self, order: &Order) -> (triggered: bool)
        requires
            self@.wf(),
        ensures
            triggered == (order.stop_price matches Some(stop_price) && self@.stop_reached(
                order.side,
                stop_price,
            )),
    {
        match (order.stop_price, order.side) {
            // Buy stop triggers when market price >= stop price
            (Some(stop_price), Side::Buy) => match self.best_ask() {
                Some(best_ask) => best_ask >= stop_price,
                None => false,
            },
            // Sell stop triggers when market price <= stop price
            (Some(stop_price), Side::Sell) => match self.best_bid() {
                Some(best_bid) => best_bid <= stop_price,
                None => false,
            },
            (None, _) => false,
        }
    }

    /// Process stop orders - trigger when price threshold is reached.
    fn process_stop_order(&mut self, order: Order) -> (result: Result<(), ExchangeError>)
        requires
            old(self).wf(),
            order.symbol@ == old(self)@.symbol,
            order.quantity > 0,
            old(self)@.must_wait(order@) || old(self)@.can_carry_out(
                crate::book::effective(order@),
            ),
        ensures
            final(self)@ == old(self)@.stop(order@).book,
            crate::error::error_of(result) == old(self)@.stop(order@).error,
            final(self).wf(),
            final(self).algorithm() == old(self).algorithm(),
            old(self).stamped() ==> final(self).stamped(),
    {
        if order.stop_price.is_none() {
            return Err(
                ExchangeError::InvalidOrder("Stop orders must have a stop price".to_owned()),
            );
        }
        proof {
            crate::invariants::lemma_notify_wf(self@);
        }
        let triggered = self.is_triggered(&order);
        if !triggered {
            self.send_update(order.id, OrderStatus::New, 0);
            return Ok(());
        }
        // Convert to market or limit order and process
        let mut triggered_order = order;
        match triggered_order.order_type {
            OrderType::StopLoss => {
                triggered_order.order_type = OrderType::Market;
                self.process_market_order(&mut triggered_order)
            },
            OrderType::StopLimit => {
                triggered_order.order_type = OrderType::Limit;
                self.process_limit_order(triggered_order)
            },
            _ => Err(ExchangeError::InvalidOrder("Invalid order type conversion".to_owned())),
        }
    }

    /// Process an incoming order.
    pub fn process_order(&mut self, order: Order) -> (result: Result<(), ExchangeError>)
        requires
            old(self).wf(),
            old(self)@.admits(order@),
        ensures
            final(self)@ == old(self)@.process(order@).book,
            crate::error::error_of(result) == old(self)@.process(order@).error,
            final(self).wf(),
            final(self).algorithm() == old(self).algorithm(),
            old(self).stamped() ==> final(self).stamped(),
    {
        // Validate order
        if order.quantity == 0 {
            return Err(
                ExchangeError::InvalidOrder("Order quantity must be greater than 0".to_owned()),
            );
        }
        if !(order.symbol == self.symbol) {
            let expected = joined("Symbol mismatch: expected ", self.symbol.as_str());
            let reason = joined(
                joined(expected.as_str(), ", got ").as_str(),
                order.symbol.as_str(),
            );
            return Err(ExchangeError::InvalidOrder(reason));
        }
        if !order.validate() {
            return Err(ExchangeError::InvalidOrder("Invalid order parameters".to_owned()));
        }
        // Process based on order type
        match order.order_type {
            OrderType::Market => {
                let mut order = order;
                self.process_market_order(&mut order)
            },
            OrderType::Limit => self.process_limit_order(order),
            _ => self.process_stop_order(order),
        }
    }

    /// Whether the book can process an order: it objects to it, lets it wait, or can
    /// carry it out.
    pub fn can_process(&self, order: &Order) -> (possible: bool)
        requires
            self@.wf(),
        ensures
            possible == self@.admits(order@),
    {
        if order.quantity == 0 || !(order.symbol == self.symbol) || !order.validate() {
            return true;
        }
        let mut trader = order.clone();
        if order.order_type == OrderType::StopLoss || order.order_type == OrderType::StopLimit {
            if !self.is_triggered(order) {
                return true;
            }
        }
        let at_market = order.order_type == OrderType::Market || order.order_type
            == OrderType::StopLoss;
        if at_market {
            trader.order_type = OrderType::Market;
            trader.price = None;
        } else {
            trader.order_type = OrderType::Limit;
        }
        let killed = order.time_in_force == TimeInForce::FOK;
        // An order that is filled beyond its quantity must not trade
        if order.filled_quantity > order.quantity && self.can_reach(&trader) && !(killed
            && self.get_available_quantity(&trader) < order.quantity) {
            return false;
        }
        if at_market || order.time_in_force == TimeInForce::IOC {
            return true;
        }
        proof {
            crate::invariants::lemma_market_wf(self@, trader@);
            if order.filled_quantity < order.quantity {
                crate::trading::lemma_left_over(self@, trader@);
            }
        }
        if killed || order.filled_quantity == order.quantity {
            return true;
        }
        // Nor must it rest
        if order.filled_quantity > order.quantity {
            return false;
        }
        let remaining: u64 = order.quantity - order.filled_quantity;
        let available: u64 = self.get_available_quantity(&trader);
        if available >= remaining {
            return true;
        }
        match order.price {
            Some(price) => self.next_sequence < u64::MAX && remaining - available <= u64::MAX
                - self.level_without(order.side, price, order.id),
            None => false,
        }
    }

    /// Get total quantity available at a price level without the order `id`.
    fn level_without(&self, side: Side, price_key: i64, id: u128) -> (quantity: u64)
        requires
            self@.wf(),
        ensures
            quantity == self@.remove(id).0.level(side, price_key),
    {
        let level: u64 = self.get_quantity_at_price(side, price_key);
        if let Some(info) = self.order_info.get(&id) {
            proof {
                crate::invariants::lemma_level_covers(self@, info.0, id);
            }
            if info.0 == side && info.1 == price_key {
                if let Some(order) = self.orders.get(&id) {
                    return level - (order.quantity - order.filled_quantity);
                }
            }
        }
        level
    }

    /// Cancel an order.
    pub fn cancel_order(&mut self, order_id: u128) -> (result: Result<(), ExchangeError>)
        requires
            old(self).wf(),
        ensures
            final(self)@ == old(self)@.cancel(order_id).0,
            crate::error::error_of(result) == old(self)@.cancel(order_id).1,
            final(self).wf(),
            final(self).algorithm() == old(self).algorithm(),
            old(self).stamped() ==> final(self).stamped(),
    {
        proof {
            crate::invariants::lemma_cancel_wf(self@, order_id);
        }
        match self.remove_order(order_id) {
            Some(order) => {
                self.send_update(order_id, OrderStatus::Canceled, order.filled_quantity);
                Ok(())
            },
            None => Err(ExchangeError::OrderNotFound(write_id(order_id))),
        }
    }

    /// The active orders whose time is over.
    fn expired_orders(&self, now: Timestamp) -> (ids: Vec<u128>)
        ensures
            self@.lists_expired(ids@, now),
    {
        broadcast use vstd::std_specs::hash::group_hash_axioms;

        let mut ids: Vec<u128> = Vec::new();
        let ghost mut seen = Set::<u128>::empty();
        for order_id in keys: self.orders.keys()
            invariant
                keys.seq().no_duplicates(),
                keys.seq().unref().to_set() == self.orders@.dom(),
                forall|i: int|
                    0 <= i < keys.seq().len() ==> (seen.contains(*#[trigger] keys.seq()[i]) <==> i
                        < keys.index()),
                ids@.no_duplicates(),
                forall|id: u128| #[trigger]
                    ids@.contains(id) <==> seen.contains(id) && self@.is_expired(id, now),
        {
            let ghost before = ids@;
            proof {
                let found = keys.seq().unref();
                assert(found[keys.index() as int] == *order_id);
                assert(found.to_set().contains(*order_id));
                assert(!seen.contains(*keys.seq()[keys.index() as int]));
                assert(!before.contains(*order_id));
            }
            if let Some(order) = self.orders.get(order_id) {
                let over = match order.time_in_force {
                    TimeInForce::GTD(expiry) => !now.is_before(&expiry),
                    TimeInForce::DAY => now.is_on_later_day(&order.created_at),
                    _ => false,
                };
                if over && self.order_info.contains_key(order_id) {
                    ids.push(*order_id);
                    assert forall|id: u128| #[trigger] ids@.contains(id) <==> before.contains(id)
                        || id == *order_id by {
                        assert(ids@[ids@.len() - 1] == *order_id);
                        if before.contains(id) {
                            let i = before.index_of(id);
                            assert(ids@[i] == id);
                        }
                    }
                }
            }
            proof {
                seen = seen.insert(*order_id);
            }
        }
        assert forall|id: u128| #[trigger] ids@.contains(id) <==> self@.is_expired(id, now) by {
            if self@.is_expired(id, now) {
                assert(self.orders@.dom().contains(id));
            }
        }
        ids
    }

    /// Cancel the active orders whose date has come or whose day is over.
    pub fn cancel_expired(&mut self, now: Timestamp) -> (result: Result<(), ExchangeError>)
        requires
            old(self).wf(),
        ensures
            old(self)@.expires_to(now, final(self)@, crate::error::error_of(result)),
            final(self).wf(),
            final(self).algorithm() == old(self).algorithm(),
            old(self).stamped() ==> final(self).stamped(),
    {
        let ids = self.expired_orders(now);
        for i in 0..ids.len()
            invariant
                self.wf(),
                self.algorithm() == old(self).algorithm(),
                old(self)@.lists_expired(ids@, now),
                old(self)@.cancel_each(ids@.take(i as int)) == (self@, None::<crate::error::ErrorView>),
        {
            proof {
                assert(ids@.take(i + 1).drop_last() =~= ids@.take(i as int));
            }
            if let Err(error) = self.cancel_order(ids[i]) {
                proof {
                    crate::book::lemma_cancel_each_stops(old(self)@, ids@, i + 1);
                }
                return Err(error);
            }
        }
        assert(ids@.take(ids@.len() as int) =~= ids@);
        Ok(())
    }

    /// Check for expired orders, by the time of the exchange clock.
    pub fn check_expired_orders(&mut self, clock: &mut ExchangeClock) -> (result: Result<
        (),
        ExchangeError,
    >)
        requires
            old(self).wf(),
            old(clock)@.wf(),
        ensures
            exists|real_now: Timestamp| #[trigger]
                real_now.is_reading() && final(clock)@ == old(clock)@.updated(real_now)
                    && expiry_checked(
                    old(self)@,
                    old(clock)@,
                    real_now,
                    final(self)@,
                    crate::error::error_of(result),
                ),
            final(self).wf(),
            final(self).algorithm() == old(self).algorithm(),
            old(self).stamped() ==> final(self).stamped(),
            final(clock)@.wf(),
    {
        match clock.now() {
            Ok(now) => self.cancel_expired(now),
            Err(error) => Err(error),
        }
    }

    /// Take in a message: orders are processed, cancellations carried out, and on a
    /// heartbeat the expired orders are canceled. A request that fails is answered
    /// with a rejection. Other messages are not for the book.
    pub fn handle_message(&mut self, message: ExchangeMessage, clock: &mut ExchangeClock)
        requires
            old(self).wf(),
            old(clock)@.wf(),
            message matches ExchangeMessage::SubmitOrder(order) ==> old(self)@.admits(order@),
        ensures
            handled(old(self)@, old(clock)@, message@, final(self)@, final(clock)@),
            final(self).wf(),
            final(self).algorithm() == old(self).algorithm(),
            final(clock)@.wf(),
    {
        match message {
            ExchangeMessage::SubmitOrder(order) => {
                let order_id: u128 = order.id;
                if self.process_order(order).is_err() {
                    self.send_rejection(order_id);
                }
            },
            ExchangeMessage::CancelOrder(order_id) => {
                if self.cancel_order(order_id).is_err() {
                    self.send_rejection(order_id);
                }
            },
            ExchangeMessage::Heartbeat(_) => {
                let _ = self.check_expired_orders(clock);
            },
            _ => {},
        }
    }

    /// Take in messages one after the other, up to the first order that the book
    /// cannot process. The result is how many were taken in.
    pub fn run(&mut self, messages: Vec<ExchangeMessage>, clock: &mut ExchangeClock) -> (count:
        usize)
        requires
            old(self).wf(),
            old(clock)@.wf(),
        ensures
            count <= messages.len(),
            exists|books: Seq<crate::book::BookView>, clocks: Seq<crate::time::ClockView>| #[trigger]
                is_run(books, clocks, message_views(messages@).take(count as int)) && books.first()
                    == old(self)@ && books.last() == final(self)@ && clocks.first() == old(clock)@
                    && clocks.last() == final(clock)@,
            count < messages.len() ==> (messages[count as int] matches ExchangeMessage::SubmitOrder(
                order,
            ) && !final(self)@.admits(order@)),
            final(self).wf(),
            final(self).algorithm() == old(self).algorithm(),
            final(clock)@.wf(),
    {
        let mut count: usize = 0;
        let ghost mut books = seq![self@];
        let ghost mut clocks = seq![clock@];
        while count < messages.len()
            invariant
                count <= messages.len(),
                self.wf(),
                self.algorithm() == old(self).algorithm(),
                clock@.wf(),
                is_run(books, clocks, message_views(messages@).take(count as int)),
                books.first() == old(self)@,
                books.last() == self@,
                clocks.first() == old(clock)@,
                clocks.last() == clock@,
            decreases messages.len() - count,
        {
            if let ExchangeMessage::SubmitOrder(order) = &messages[count] {
                if !self.can_process(order) {
                    return count;
                }
            }
            let ghost before = message_views(messages@).take(count as int);
            self.handle_message(messages[count].clone(), clock);
            proof {
                let views = message_views(messages@);
                assert(views.take(count + 1) =~= before.push(views[count as int]));
                lemma_run_push(books, clocks, before, views[count as int], self@, clock@);
                books = books.push(self@);
                clocks = clocks.push(clock@);
            }
            count = count + 1;
        }
        count
    }

    /// Answer a request that failed.
    fn send_rejection(&mut self, order_id: u128)
        requires
            old(self).wf(),
        ensures
            final(self)@ == old(self)@.notify_update(order_id, OrderStatus::Rejected, 0),
            final(self).wf(),
            final(self).algorithm() == old(self).algorithm(),
            old(self).stamped() ==> final(self).stamped(),
    {
        proof {
            crate::invariants::lemma_notify_wf(self@);
        }
        self.send_update(order_id, OrderStatus::Rejected, 0);
    }

    /// Hand out the notifications that wait to be sent, the oldest first.
    pub fn drain_messages(&mut self) -> (messages: Vec<ExchangeMessage>)
        requires
            old(self).wf(),
        ensures
            messages@.map_values(|message: ExchangeMessage| message@) == old(self)@.sent,
            messages@ == old(self).waiting(),
            forall|i: int| 0 <= i < messages.len() ==> (#[trigger] messages[i]).is_stamped(),
            final(self)@ == (crate::book::BookView { sent: Seq::empty(), ..old(self)@ }),
            final(self).wf(),
            final(self).algorithm() == old(self).algorithm(),
            old(self).stamped() ==> final(self).stamped(),
    {
        let mut messages: Vec<ExchangeMessage> = Vec::new();
        std::mem::swap(&mut messages, &mut self.outbox);
        proof {
            assert(self@ =~= crate::book::BookView { sent: Seq::empty(), ..old(self)@ });
            crate::invariants::lemma_drained_wf(old(self)@, Seq::empty());
        }
        messages
    }

    /// The symbol that the book trades.
    pub fn symbol(&self) -> (symbol: &str)
        ensures
            symbol@ == self@.symbol,
    {
        self.symbol.as_str()
    }

    /// The name of the algorithm that the book matches by.
    pub fn algorithm_name(&self) -> (name: &str)
        ensures
            name@ == self.algorithm(),
    {
        self.matching_engine.algorithm.name()
    }
}

/// The views of messages.
pub open spec fn message_views(messages: Seq<ExchangeMessage>) -> Seq<MessageView> {
    messages.map_values(|message: ExchangeMessage| message@)
}

/// Whether taking in a message leads a book and a clock from one state to another:
/// orders are processed and cancellations carried out, each answered with a
/// rejection where it fails; on a heartbeat the expired orders are canceled, and a
/// failure is let pass; other messages do nothing.
pub open spec fn handled(
    before: crate::book::BookView,
    clock: crate::time::ClockView,
    message: MessageView,
    after: crate::book::BookView,
    clock_after: crate::time::ClockView,
) -> bool {
    match message {
        MessageView::SubmitOrder(order) => after == before.submit(order) && clock_after == clock,
        MessageView::CancelOrder(id) => after == before.request_cancel(id) && clock_after == clock,
        MessageView::Heartbeat(_) => exists|
            real_now: Timestamp,
            error: Option<crate::error::ErrorView>,
        |
            real_now.is_reading() && clock_after == clock.updated(real_now)
                && #[trigger] expiry_checked(before, clock, real_now, after, error),
        _ => after == before && clock_after == clock,
    }
}

/// Whether a book and a clock go through these states when these messages come in.
pub open spec fn is_run(
    books: Seq<crate::book::BookView>,
    clocks: Seq<crate::time::ClockView>,
    messages: Seq<MessageView>,
) -> bool {
    &&& books.len() == messages.len() + 1
    &&& clocks.len() == messages.len() + 1
    &&& forall|i: int|
        #![trigger messages[i]]
        0 <= i < messages.len() ==> handled(
            books[i],
            clocks[i],
            messages[i],
            books[i + 1],
            clocks[i + 1],
        )
}

/// A run goes on with one more message.
proof fn lemma_run_push(
    books: Seq<crate::book::BookView>,
    clocks: Seq<crate::time::ClockView>,
    messages: Seq<MessageView>,
    message: MessageView,
    book: crate::book::BookView,
    clock: crate::time::ClockView,
)
    requires
        is_run(books, clocks, messages),
        handled(books.last(), clocks.last(), message, book, clock),
    ensures
        is_run(books.push(book), clocks.push(clock), messages.push(message)),
{
    let more = messages.push(message);
    assert forall|i: int| #![trigger more[i]] 0 <= i < more.len() implies handled(
        books.push(book)[i],
        clocks.push(clock)[i],
        more[i],
        books.push(book)[i + 1],
        clocks.push(clock)[i + 1],
    ) by {
        if i < messages.len() {
            assert(more[i] == messages[i]);
        }
    }
}

/// Whether a check for expired orders, made by a clock when the real time is
/// `real_now`, leads from `before` to `after` and ends with `error`, if any.
pub open spec fn expiry_checked(
    before: crate::book::BookView,
    clock: crate::time::ClockView,
    real_now: Timestamp,
    after: crate::book::BookView,
    error: Option<crate::error::ErrorView>,
) -> bool {
    if clock.failure_at(real_now) is Some {
        after == before && error == clock.failure_at(real_now)
    } else {
        before.expires_to(clock.time_at(real_now)->0, after, error)
    }
}

/// The sum of the levels at prices that an order accepts, or the greatest that a
/// `u64` can hold.
fn sum_accepted(order: &Order, levels: &HashMap<i64, u64>) -> (quantity: u64)
    ensures
        quantity == if crate::book::quantity_accepted(order@, levels@) <= u64::MAX {
            crate::book::quantity_accepted(order@, levels@) as int
        } else {
            u64::MAX as int
        },
{
    broadcast use vstd::std_specs::hash::group_hash_axioms;

    let ghost amount = |price: i64|
        if order@.accepts(price) {
            levels@[price] as nat
        } else {
            0
        };
    let mut total: u64 = 0;
    let ghost mut seen = Set::<i64>::empty();
    for price in prices: levels.keys()
        invariant
            prices.seq().no_duplicates(),
            prices.seq().unref().to_set() == levels@.dom(),
            amount == (|price: i64|
                if order@.accepts(price) {
                    levels@[price] as nat
                } else {
                    0
                }),
            seen.subset_of(levels@.dom()),
            forall|i: int|
                0 <= i < prices.seq().len() ==> (seen.contains(*#[trigger] prices.seq()[i])
                    <==> i < prices.index()),
            total == crate::sums::sum_over(seen, amount),
    {
        proof {
            let found = prices.seq().unref();
            assert(found[prices.index() as int] == *price);
            assert(found.to_set().contains(*price));
            crate::sums::lemma_sum_subset(seen, levels@.dom(), amount);
            crate::sums::lemma_sum_insert(seen, amount, *price);
            crate::sums::lemma_sum_subset(seen.insert(*price), levels@.dom(), amount);
            seen = seen.insert(*price);
        }
        if order.accepts_price(*price) {
            if let Some(quantity) = levels.get(price) {
                if *quantity > u64::MAX - total {
                    return u64::MAX;
                }
                total = total + *quantity;
            }
        }
    }
    assert(seen =~= levels@.dom());
    total
}

} // verus!
