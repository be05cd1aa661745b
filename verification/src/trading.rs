//! What an incoming order does to the orders that it meets, and what is told of it.

use crate::book::{BookView, Outcome};
use crate::model::{MessageView, OrderType, OrderView, Side, TimeInForce, TradeView};
use vstd::prelude::*;

verus! {

/// Whether an order is the same but that more of it is filled; where no more of it
/// is, it is the same altogether.
pub open spec fn only_filled(before: OrderView, after: OrderView) -> bool {
    &&& after == (OrderView {
        filled_quantity: after.filled_quantity,
        status: after.status,
        ..before
    })
    &&& before.filled_quantity <= after.filled_quantity <= before.quantity
    &&& after.filled_quantity == before.filled_quantity ==> after == before
}

/// Whether a trade is one that the incoming order `taker` may make with a book: it
/// is with an order that is queued on the other side, and both accept the price.
pub open spec fn is_fair(book: BookView, taker: OrderView, trade: TradeView) -> bool {
    let (taker_id, resting_id) = match taker.side {
        Side::Buy => (trade.buy_order_id, trade.sell_order_id),
        Side::Sell => (trade.sell_order_id, trade.buy_order_id),
    };
    &&& trade.symbol == book.symbol
    &&& trade.quantity > 0
    &&& taker_id == taker.id
    &&& taker.accepts(trade.price)
    &&& book.queue(taker.side.other()).contains_key(resting_id)
    &&& book.orders[resting_id].accepts(trade.price)
}

/// The quantity of the trades that messages tell of.
pub open spec fn traded(messages: Seq<MessageView>) -> nat
    decreases messages.len(),
{
    if messages.len() == 0 {
        0
    } else {
        traded(messages.drop_last()) + match messages.last() {
            MessageView::Trade(trade) => trade.quantity as nat,
            _ => 0,
        }
    }
}

/// The trades of one more message.
pub proof fn lemma_traded_push(messages: Seq<MessageView>, message: MessageView)
    ensures
        traded(messages.push(message)) == traded(messages) + match message {
            MessageView::Trade(trade) => trade.quantity as nat,
            _ => 0,
        },
{
    assert(messages.push(message).drop_last() =~= messages);
}

/// A trade takes place at a price that both orders accept.
pub proof fn lemma_price_accepted(
    buy: OrderView,
    sell: OrderView,
    last_prices: Map<Seq<char>, i64>,
)
    requires
        crate::matching_engine::can_trade(buy, sell),
    ensures
        buy.accepts(crate::matching_engine::match_price(buy, sell, last_prices)),
        sell.accepts(crate::matching_engine::match_price(buy, sell, last_prices)),
{
}

/// What a trade with the first order of the other side does to the orders of a
/// book, and what is told of it.
pub proof fn lemma_trade_step(book: BookView, taker: OrderView)
    requires
        book.wf(),
        taker.symbol == book.symbol,
        taker.filled_quantity < taker.quantity,
        book.reaches(taker),
    ensures
        ({
            let side = taker.side.other();
            let id = book.best(side);
            let (after, order) = book.trade_with(taker, id);
            let trade = crate::matching_engine::match_trade(
                crate::book::buy_of(taker, book.orders[id]),
                crate::book::sell_of(taker, book.orders[id]),
                book.last_prices,
            );
            &&& after.wf()
            &&& after.symbol == book.symbol
            &&& order == (OrderView { filled_quantity: order.filled_quantity, ..taker })
            &&& order.filled_quantity == taker.filled_quantity + trade.quantity
            &&& order.filled_quantity <= taker.quantity
            &&& book.is_best(side, id)
            &&& after.orders.dom() == book.orders.dom()
            &&& after.orders == book.orders.insert(id, after.orders[id])
            &&& only_filled(book.orders[id], after.orders[id])
            &&& order.filled_quantity < order.quantity ==> {
                &&& after.orders[id].remaining() == 0
                &&& after.queue(side) == book.queue(side).remove(id)
                &&& after.queue(side).dom().len() < book.queue(side).dom().len()
                &&& after.next_sequence == book.next_sequence
            }
            &&& is_fair(book, taker, trade)
            &&& after.sent == book.sent.push(MessageView::Trade(trade)).push(
                MessageView::OrderUpdate {
                    order_id: id,
                    status: after.orders[id].status,
                    filled_qty: after.orders[id].filled_quantity,
                    symbol: book.symbol,
                },
            )
        }),
{
    let side = taker.side.other();
    let id = book.best(side);
    assert(book.queue_wf(side));
    crate::invariants::lemma_pair_trades(book, taker);
    crate::invariants::lemma_trade_wf(book, taker);
    crate::invariants::lemma_level_covers(book, side, id);
    let popped = book.dequeue(side, id);
    assert(popped.queue(side).dom() =~= book.queue(side).dom().remove(id));
    let (after, order) = book.trade_with(taker, id);
    assert(after.orders.dom() =~= book.orders.dom());
    lemma_price_accepted(
        crate::book::buy_of(taker, book.orders[id]),
        crate::book::sell_of(taker, book.orders[id]),
        book.last_prices,
    );
}

/// Meeting the other side fills queued orders of that side and touches no other
/// order.
pub proof fn lemma_sweep_orders(book: BookView, taker: OrderView)
    requires
        book.wf(),
        taker.symbol == book.symbol,
        taker.filled_quantity <= taker.quantity || !book.reaches(taker),
    ensures
        ({
            let after = book.sweep(taker).book;
            &&& forall|id: u128| #[trigger]
                book.orders.contains_key(id) ==> only_filled(book.orders[id], after.orders[id])
            &&& forall|id: u128| #[trigger]
                book.orders.contains_key(id) && !book.queue(taker.side.other()).contains_key(id)
                    ==> after.orders[id] == book.orders[id]
        }),
    decreases book.queue(taker.side.other()).dom().len(),
{
    if book.reaches(taker) && taker.filled_quantity < taker.quantity {
        let side = taker.side.other();
        let id = book.best(side);
        lemma_trade_step(book, taker);
        crate::invariants::lemma_pair_trades(book, taker);
        let (after, order) = book.trade_with(taker, id);
        if order.filled_quantity != order.quantity {
            lemma_sweep_orders(after, order);
            assert forall|other: u128| #[trigger] book.orders.contains_key(other) implies only_filled(
                book.orders[other],
                book.sweep(taker).book.orders[other],
            ) by {
                assert(after.orders.dom().contains(other));
                assert(after.orders.contains_key(other));
            }
            assert forall|other: u128| #[trigger]
                book.orders.contains_key(other) && !book.queue(side).contains_key(
                    other,
                ) implies book.sweep(taker).book.orders[other] == book.orders[other] by {
                assert(after.orders.dom().contains(other));
                assert(after.orders.contains_key(other));
            }
        }
    }
}

/// Meeting the other side moves no order: those that stay in the queue stay in
/// their place.
pub proof fn lemma_sweep_places(book: BookView, taker: OrderView)
    requires
        book.wf(),
        taker.symbol == book.symbol,
        taker.filled_quantity <= taker.quantity || !book.reaches(taker),
    ensures
        forall|id: u128| #[trigger]
            book.sweep(taker).book.queue(taker.side.other()).contains_key(id) ==> book.queue(
                taker.side.other(),
            ).contains_key(id) && book.sweep(taker).book.queue(taker.side.other())[id]
                == book.queue(taker.side.other())[id],
    decreases book.queue(taker.side.other()).dom().len(),
{
    if book.reaches(taker) && taker.filled_quantity < taker.quantity {
        lemma_trade_step(book, taker);
        crate::invariants::lemma_pair_trades(book, taker);
        let side = taker.side.other();
        let id = book.best(side);
        let (after, order) = book.trade_with(taker, id);
        if order.filled_quantity != order.quantity {
            lemma_sweep_places(after, order);
        }
    }
}

/// Meeting the other side goes by its queue: where an order was filled any further,
/// every order ahead of it was filled completely.
pub proof fn lemma_sweep_priority(book: BookView, taker: OrderView, first: u128, second: u128)
    requires
        book.wf(),
        taker.symbol == book.symbol,
        taker.filled_quantity <= taker.quantity || !book.reaches(taker),
        book.queue(taker.side.other()).contains_key(first),
        book.queue(taker.side.other()).contains_key(second),
        crate::book::ahead(
            taker.side.other(),
            book.queue(taker.side.other())[first],
            book.queue(taker.side.other())[second],
        ),
        book.sweep(taker).book.orders[second] != book.orders[second],
    ensures
        book.sweep(taker).book.orders[first].remaining() == 0,
    decreases book.queue(taker.side.other()).dom().len(),
{
    let side = taker.side.other();
    let id = book.best(side);
    assert(book.queue_wf(side));
    if book.reaches(taker) && taker.filled_quantity < taker.quantity {
        lemma_trade_step(book, taker);
        crate::invariants::lemma_pair_trades(book, taker);
        let (after, order) = book.trade_with(taker, id);
        assert(second != id);
        if order.filled_quantity != order.quantity {
            if first == id {
                lemma_sweep_orders(after, order);
                assert(after.orders.dom().contains(first));
                assert(after.orders.contains_key(first));
            } else {
                lemma_sweep_priority(after, order, first, second);
            }
        }
    }
}

/// Meeting the other side tells of fair trades, and of as much trading as the order
/// is filled by.
pub proof fn lemma_sweep_trades(book: BookView, taker: OrderView)
    requires
        book.wf(),
        taker.symbol == book.symbol,
        taker.filled_quantity <= taker.quantity || !book.reaches(taker),
    ensures
        ({
            let swept = book.sweep(taker);
            &&& book.sent.is_prefix_of(swept.book.sent)
            &&& forall|i: int|
                book.sent.len() <= i < swept.book.sent.len() ==> (
                #[trigger] swept.book.sent[i] matches MessageView::Trade(trade) ==> is_fair(
                    book,
                    taker,
                    trade,
                ))
            &&& traded(swept.book.sent) - traded(book.sent) == swept.order.filled_quantity
                - taker.filled_quantity
        }),
    decreases book.queue(taker.side.other()).dom().len(),
{
    if book.reaches(taker) && taker.filled_quantity < taker.quantity {
        let side = taker.side.other();
        let id = book.best(side);
        lemma_trade_step(book, taker);
        crate::invariants::lemma_pair_trades(book, taker);
        let (after, order) = book.trade_with(taker, id);
        let swept = book.sweep(taker);
        let told = after.sent[book.sent.len() as int];
        let middle = book.sent.push(told);
        lemma_traded_push(book.sent, told);
        lemma_traded_push(middle, after.sent.last());
        assert(after.sent =~= middle.push(after.sent.last()));
        if order.filled_quantity != order.quantity {
            lemma_sweep_trades(after, order);
            assert forall|i: int| book.sent.len() <= i < swept.book.sent.len() implies (
            #[trigger] swept.book.sent[i] matches MessageView::Trade(trade) ==> is_fair(
                book,
                taker,
                trade,
            )) by {
                if i >= after.sent.len() {
                    if let MessageView::Trade(trade) = swept.book.sent[i] {
                        assert(is_fair(after, order, trade));
                    }
                } else {
                    assert(swept.book.sent[i] == after.sent[i]);
                }
            }
        }
    }
}

/// What is left of a limit order that lasts is known before it trades, and so is the
/// room that it finds at its level.
pub proof fn lemma_left_over(book: BookView, order: OrderView)
    requires
        book.wf(),
        order.symbol == book.symbol,
        order.order_type == OrderType::Limit,
        order.price is Some,
        order.filled_quantity < order.quantity,
        order.time_in_force != TimeInForce::IOC,
    ensures
        ({
            let (place, rest) = book.before_rest(order);
            let fill = if book.available(order) < order.remaining() {
                book.available(order) as int
            } else {
                order.remaining()
            };
            &&& order.time_in_force == TimeInForce::FOK ==> !book.puts_to_rest(order)
            &&& order.time_in_force != TimeInForce::FOK ==> {
                &&& rest.filled_quantity == order.filled_quantity + fill
                &&& book.puts_to_rest(order) <==> fill < order.remaining()
            }
            &&& rest.side == order.side && rest.price == order.price && rest.id == order.id
                && rest.quantity == order.quantity
            &&& place.next_sequence == book.next_sequence
            &&& place.remove(order.id).0.level(order.side, order.price->0) == book.remove(
                order.id,
            ).0.level(order.side, order.price->0)
        }),
{
    let (place, rest) = book.before_rest(order);
    let side = order.side;
    let id = order.id;
    crate::invariants::lemma_market_wf(book, order);
    crate::depth::lemma_sweep_takes_available(book, order);
    if !book.reaches(order) {
        crate::depth::lemma_nothing_available(book, order);
    }
    lemma_sweep_orders(book, order);
    crate::invariants::lemma_sweep_wf(book, order);
    assert(place.wf());
    assert(place.queue_wf(side) && place.queue_wf(side.other()));
    assert(book.queue_wf(side) && book.queue_wf(side.other()));
    assert(place.queue(side) == book.queue(side));
    assert(place.levels(side) == book.levels(side));
    if book.queue(side).contains_key(id) {
        crate::invariants::lemma_level_covers(book, side, id);
        crate::invariants::lemma_level_covers(place, side, id);
        assert(book.orders.contains_key(id));
        assert(place.orders[id] == book.orders[id]);
    } else {
        assert(book.order_info.contains_key(id) ==> book.order_info[id].0 == side.other());
        assert(place.order_info.contains_key(id) ==> place.order_info[id].0 == side.other());
    }
}

impl BookView {
    /// Whether an incoming order gets to meet the other side.
    pub open spec fn lets_execute(self, order: OrderView) -> bool {
        &&& self.objection(order) is None
        &&& match order.order_type {
            OrderType::Market => true,
            OrderType::Limit => self.reaches(order),
            OrderType::StopLoss => self.stop_reached(order.side, order.stop_price->0),
            OrderType::StopLimit => self.stop_reached(order.side, order.stop_price->0)
                && self.reaches(crate::book::effective(order)),
        }
        &&& order.time_in_force == TimeInForce::FOK ==> self.available(crate::book::effective(order))
            >= order.quantity
    }

    /// The book and the order once an incoming order has met the other side, if it
    /// gets to do so.
    pub open spec fn executed(self, order: OrderView) -> (BookView, OrderView) {
        if self.lets_execute(order) {
            let swept = self.sweep(crate::book::effective(order));
            (swept.book, swept.order)
        } else {
            (self, order)
        }
    }
}

/// Whether messages tell of no trade from the `n`th on.
pub open spec fn no_trade_from(messages: Seq<MessageView>, n: int) -> bool {
    forall|i: int| n <= i < messages.len() ==> !(#[trigger] messages[i] is Trade)
}

/// Messages that tell of no trade add nothing to what is traded.
proof fn lemma_traded_no_trade(messages: Seq<MessageView>, n: int)
    requires
        0 <= n <= messages.len(),
        no_trade_from(messages, n),
    ensures
        traded(messages) == traded(messages.take(n)),
    decreases messages.len(),
{
    if n == messages.len() {
        assert(messages.take(n) =~= messages);
    } else {
        assert(messages.drop_last().take(n) =~= messages.take(n));
        lemma_traded_no_trade(messages.drop_last(), n);
    }
}

/// Whether an outcome adds to the book and the order of an execution only what is
/// told and what goes to rest under `id`.
pub open spec fn follows(met: BookView, taker: OrderView, id: u128, outcome: Outcome) -> bool {
    &&& outcome.order.filled_quantity == taker.filled_quantity
    &&& outcome.order.id == id
    &&& outcome.book.orders.remove(id) == met.orders.remove(id)
    &&& outcome.book.order_info.remove(id) == met.order_info.remove(id)
    &&& outcome.book.bids.remove(id) == met.bids.remove(id)
    &&& outcome.book.asks.remove(id) == met.asks.remove(id)
    &&& met.sent.is_prefix_of(outcome.book.sent)
    &&& no_trade_from(outcome.book.sent, met.sent.len() as int)
}

/// An order that executes at once only tells of its final state.
proof fn lemma_market_follows(book: BookView, order: OrderView)
    requires
        book.wf(),
        order.symbol == book.symbol,
        order.order_type == OrderType::Market ==> order.price is None,
        book.may_execute(order),
    ensures
        book.market(order).error is Some ==> follows(book, order, order.id, book.market(order)),
        book.market(order).error is None ==> follows(
            book.sweep(order).book,
            book.sweep(order).order,
            order.id,
            book.market(order),
        ),
{
    if order.filled_quantity <= order.quantity || !book.reaches(order) {
        crate::invariants::lemma_sweep_wf(book, order);
    }
}

/// What goes to rest adds nothing but itself.
proof fn lemma_rest_follows(met: BookView, taker: OrderView, id: u128, outcome: Outcome)
    requires
        follows(met, taker, id, outcome),
    ensures
        follows(met, taker, id, outcome.book.rest(outcome.order)),
{
    let rested = outcome.book.rest(outcome.order);
    assert(rested.book.bids.remove(id) =~= outcome.book.bids.remove(id));
    assert(rested.book.asks.remove(id) =~= outcome.book.asks.remove(id));
    assert(rested.book.orders.remove(id) =~= outcome.book.orders.remove(id));
    assert(rested.book.order_info.remove(id) =~= outcome.book.order_info.remove(id));
}

/// A limit order only tells of its final state and goes to rest.
proof fn lemma_limit_follows(book: BookView, order: OrderView)
    requires
        book.wf(),
        order.symbol == book.symbol,
        order.order_type == OrderType::Limit,
        book.may_execute(order),
    ensures
        ({
            let executes = book.reaches(order) && book.market(order).error is None;
            &&& executes ==> follows(
                book.sweep(order).book,
                book.sweep(order).order,
                order.id,
                book.limit(order),
            )
            &&& !executes ==> follows(book, order, order.id, book.limit(order))
        }),
{
    lemma_market_follows(book, order);
    let met = book.market(order);
    let swept = book.sweep(order);
    lemma_rest_follows(book, order, order.id, Outcome { book, order, error: None });
    if met.error is None {
        lemma_rest_follows(swept.book, swept.order, order.id, met);
    }
}

/// What is left of an incoming order beyond its meeting the other side touches no
/// other order and tells of no trade.
pub proof fn lemma_process_decomposed(book: BookView, order: OrderView)
    requires
        book.wf(),
        book.admits(order),
    ensures
        ({
            let (met, taker) = book.executed(order);
            &&& follows(met, taker, order.id, book.process(order))
            &&& traded(book.process(order).book.sent) == traded(met.sent)
            &&& met.wf()
        }),
{
    let outcome = book.process(order);
    let (met, taker) = book.executed(order);
    let trader = crate::book::effective(order);
    if book.objection(order) is None && !book.must_wait(order) {
        lemma_market_follows(book, trader);
        if trader.order_type == OrderType::Limit {
            lemma_limit_follows(book, trader);
        }
        crate::invariants::lemma_market_wf(book, trader);
        if order.filled_quantity <= order.quantity || !book.reaches(trader) {
            crate::invariants::lemma_sweep_wf(book, trader);
        }
    }
    lemma_traded_no_trade(outcome.book.sent, met.sent.len() as int);
    assert(outcome.book.sent.take(met.sent.len() as int) =~= met.sent);
}

} // verus!
