//! What can be relied on over several operations of the exchange.

use crate::book::BookView;
use crate::model::{MessageView, OrderStatus, OrderType, OrderView, Side, TimeInForce};
use vstd::prelude::*;

verus! {

/// An empty book is well-formed.
pub proof fn law_empty_book_is_well_formed(symbol: Seq<char>, last_prices: Map<Seq<char>, i64>)
    ensures
        crate::book::empty_book(symbol, last_prices).wf(),
{
    crate::invariants::lemma_empty_wf(symbol, last_prices);
}

/// A book stays well-formed whatever order comes in and whatever becomes of it:
/// queues, orders and levels agree, and no orders cross.
pub proof fn law_process_keeps_well_formed(book: BookView, order: OrderView)
    requires
        book.wf(),
        book.admits(order),
    ensures
        book.process(order).book.wf(),
        book.submit(order).wf(),
{
    crate::invariants::lemma_process_wf(book, order);
    crate::invariants::lemma_notify_wf(book.process(order).book);
}

/// A book stays well-formed when an order is canceled, and the cancellation succeeds
/// on every active order and on no other.
pub proof fn law_cancel_keeps_well_formed(book: BookView, id: u128)
    requires
        book.wf(),
    ensures
        book.cancel(id).0.wf(),
        book.request_cancel(id).wf(),
        book.cancel(id).1 is None <==> book.order_info.contains_key(id),
{
    crate::invariants::lemma_remove_wf(book, id);
    crate::invariants::lemma_notify_wf(book.remove(id).0);
    crate::invariants::lemma_notify_wf(book.cancel(id).0);
}

/// The best bid is below the best ask.
pub proof fn law_best_bid_is_below_best_ask(book: BookView)
    requires
        book.wf(),
        book.best_price(Side::Buy) is Some,
        book.best_price(Side::Sell) is Some,
    ensures
        book.best_price(Side::Buy)->0 < book.best_price(Side::Sell)->0,
{
    book.lemma_best_exists(Side::Buy);
    book.lemma_best_exists(Side::Sell);
    assert(book.bids.contains_key(book.best(Side::Buy)));
    assert(book.asks.contains_key(book.best(Side::Sell)));
}

/// An order that executes at once takes all that is available to it, up to its own
/// quantity, unless it is a fill-or-kill order that would not be filled. The only
/// other error is that of an order that has nothing left and someone to trade with.
pub proof fn law_market_takes_what_is_available(book: BookView, order: OrderView)
    requires
        book.wf(),
        order.symbol == book.symbol,
        order.filled_quantity <= order.quantity,
        order.time_in_force == TimeInForce::FOK ==> book.available(crate::book::at_market(order))
            >= order.quantity,
    ensures
        ({
            let trader = crate::book::at_market(order);
            let met = book.market(order);
            &&& met.error is Some <==> order.filled_quantity == order.quantity && book.reaches(
                trader,
            )
            &&& met.order.filled_quantity == order.filled_quantity + if book.available(trader)
                < order.remaining() {
                book.available(trader) as int
            } else {
                order.remaining()
            }
        }),
{
    let trader = crate::book::at_market(order);
    crate::depth::lemma_sweep_takes_available(book, trader);
    crate::invariants::lemma_market_wf(book, trader);
}

/// Quantity is conserved: what an order that executes at once is filled by is what
/// the price levels that it accepts lose.
pub proof fn law_levels_lose_what_is_filled(book: BookView, order: OrderView)
    requires
        book.wf(),
        order.symbol == book.symbol,
        order.filled_quantity <= order.quantity,
    ensures
        ({
            let trader = crate::book::at_market(order);
            let met = book.market(order);
            book.available(trader) - met.book.available(trader) == met.order.filled_quantity
                - order.filled_quantity
        }),
{
    let trader = crate::book::at_market(order);
    crate::depth::lemma_sweep_available(book, trader);
    crate::invariants::lemma_sweep_wf(book, trader);
}

/// Fill or kill: a fill-or-kill order is filled completely, or the book holds what
/// it held before.
pub proof fn law_fill_or_kill(book: BookView, order: OrderView)
    requires
        book.wf(),
        book.admits(order),
        order.time_in_force == TimeInForce::FOK,
    ensures
        ({
            let outcome = book.process(order);
            outcome.order.filled_quantity == order.quantity || outcome.book == (BookView {
                sent: outcome.book.sent,
                ..book
            })
        }),
{
    let trader = crate::book::effective(order);
    if book.objection(order) is None && !book.must_wait(order) {
        crate::invariants::lemma_market_wf(book, trader);
        if order.filled_quantity <= order.quantity && book.available(trader) >= order.quantity {
            law_market_takes_what_is_available(book, trader);
        }
        if !book.reaches(trader) {
            crate::invariants::lemma_sweep_wf(book, trader);
        }
    }
}

/// Immediate orders never rest: an order whose time-in-force is immediate-or-cancel
/// or fill-or-kill, or which executes at the market, adds no order to the book and
/// makes none active.
pub proof fn law_immediate_orders_do_not_rest(book: BookView, order: OrderView, id: u128)
    requires
        book.wf(),
        book.admits(order),
        order.time_in_force == TimeInForce::IOC || order.time_in_force == TimeInForce::FOK
            || order.order_type == OrderType::Market || order.order_type == OrderType::StopLoss,
    ensures
        ({
            let after = book.process(order).book;
            &&& after.orders.dom() == book.orders.dom()
            &&& after.order_info.contains_key(id) ==> book.order_info.contains_key(id)
            &&& after.bids.contains_key(id) ==> book.bids.contains_key(id)
            &&& after.asks.contains_key(id) ==> book.asks.contains_key(id)
        }),
{
    let after = book.process(order).book;
    let trader = crate::book::effective(order);
    if book.objection(order) is None && !book.must_wait(order) {
        crate::invariants::lemma_market_wf(book, trader);
        if order.filled_quantity <= order.quantity || !book.reaches(trader) {
            crate::invariants::lemma_sweep_wf(book, trader);
            crate::trading::lemma_sweep_places(book, trader);
            crate::trading::lemma_sweep_orders(book, trader);
            let swept = book.sweep(trader).book;
            assert(swept.queue(order.side.other()).contains_key(id) ==> book.queue(
                order.side.other(),
            ).contains_key(id));
            if swept.order_info.contains_key(id) {
                assert(swept.orders.dom().contains(id));
                assert(book.orders.contains_key(id));
                assert(swept.queue(swept.order_info[id].0).contains_key(id));
                assert(book.queue_wf(Side::Buy) && book.queue_wf(Side::Sell));
                assert(book.queue(swept.order_info[id].0).contains_key(id));
            }
        }
        if order.time_in_force == TimeInForce::FOK && order.filled_quantity <= order.quantity
            && book.available(trader) >= order.quantity {
            law_market_takes_what_is_available(book, trader);
        }
    }
}

/// Lasting limit orders rest: once a limit order is processed that is good till
/// canceled, till a date or for the day, it is filled, or it is active at its price
/// with all that is left of it. The only error is that of an order that has nothing
/// left and someone to trade with.
pub proof fn law_lasting_limit_orders_rest(book: BookView, order: OrderView)
    requires
        book.wf(),
        book.admits(order),
        book.objection(order) is None,
        order.order_type == OrderType::Limit,
        order.time_in_force != TimeInForce::IOC,
        order.time_in_force != TimeInForce::FOK,
    ensures
        ({
            let outcome = book.process(order);
            let after = outcome.book;
            &&& outcome.error is Some <==> order.filled_quantity == order.quantity && book.reaches(
                order,
            )
            &&& outcome.order.filled_quantity <= order.quantity
            &&& outcome.order.filled_quantity < order.quantity ==> {
                &&& after.order_info.contains_key(order.id)
                &&& after.order_info[order.id] == (order.side, order.price->0)
                &&& after.queue(order.side).contains_key(order.id)
                &&& after.orders.contains_key(order.id)
                &&& after.orders[order.id] == (OrderView {
                    filled_quantity: outcome.order.filled_quantity,
                    status: OrderStatus::New,
                    ..order
                })
            }
        }),
{
    crate::invariants::lemma_market_wf(book, order);
}

/// The better of the best price of a side, if there is any, and another price.
pub open spec fn better_price(side: Side, best: Option<i64>, price: i64) -> i64 {
    match (best, side) {
        (Some(old), Side::Buy) if old > price => old,
        (Some(old), Side::Sell) if old < price => old,
        _ => price,
    }
}

/// A lasting limit order that reaches no one just goes to rest: it succeeds and
/// tells of nothing; the other side stays as it was; the total of its own side
/// grows by what is left of the order; the best price there is the better of the
/// old one and its own, unless nothing is left of it; and bids stay below asks.
pub proof fn law_unreached_limit_orders_rest(book: BookView, order: OrderView)
    requires
        book.wf(),
        book.admits(order),
        book.objection(order) is None,
        !book.order_info.contains_key(order.id),
        order.order_type == OrderType::Limit,
        order.time_in_force != TimeInForce::IOC,
        order.time_in_force != TimeInForce::FOK,
        !book.reaches(order),
    ensures
        ({
            let outcome = book.process(order);
            let after = outcome.book;
            let side = order.side;
            &&& outcome.error is None
            &&& after.sent == book.sent
            &&& after.queue(side.other()) == book.queue(side.other())
            &&& after.levels(side.other()) == book.levels(side.other())
            &&& after.best_price(side.other()) == book.best_price(side.other())
            &&& after.best_price(side) == if order.remaining() == 0 {
                book.best_price(side)
            } else {
                Some(better_price(side, book.best_price(side), order.price->0))
            }
            &&& after.total(side) == book.total(side) + order.remaining()
            &&& after.best_price(Side::Buy) is Some && after.best_price(Side::Sell) is Some
                ==> after.best_price(Side::Buy)->0 < after.best_price(Side::Sell)->0
        }),
{
    let after = book.process(order).book;
    let side = order.side;
    let price = order.price->0;
    law_process_keeps_well_formed(book, order);
    if after.best_price(Side::Buy) is Some && after.best_price(Side::Sell) is Some {
        law_best_bid_is_below_best_ask(after);
    }
    if order.remaining() != 0 {
        crate::depth::lemma_total_after_rest(book, order);
        assert(book.queue_wf(side) && book.queue_wf(side.other()));
        assert(after.queue_wf(side) && after.queue_wf(side.other()));
        if !book.queue(side.other()).is_empty() {
            book.lemma_best_exists(side.other());
            let best = book.best(side.other());
            assert(after.is_best(side.other(), best));
            crate::invariants::lemma_best_is(after, side.other(), best);
        }
        assert(!book.queue(side).contains_key(order.id));
        assert(after.queue(side).contains_key(order.id));
        if book.queue(side).is_empty() {
            assert(after.is_best(side, order.id));
            crate::invariants::lemma_best_is(after, side, order.id);
        } else {
            book.lemma_best_exists(side);
            let best = book.best(side);
            let old = book.queue(side)[best];
            if crate::book::ahead(side, old, (price, book.next_sequence)) {
                assert(after.is_best(side, best));
                crate::invariants::lemma_best_is(after, side, best);
            } else {
                assert forall|other: u128| #[trigger] after.queue(side).contains_key(
                    other,
                ) implies !crate::book::ahead(
                    side,
                    after.queue(side)[other],
                    after.queue(side)[order.id],
                ) by {
                    if other != order.id {
                        assert(book.queue(side).contains_key(other));
                    }
                }
                assert(after.is_best(side, order.id));
                crate::invariants::lemma_best_is(after, side, order.id);
            }
        }
    }
}

/// To an order that names no price, what is available is what is left of the orders
/// that rest on the other side, and the sum of the levels there.
pub proof fn law_available_is_what_rests(book: BookView, order: OrderView)
    requires
        book.wf(),
        order.price is None,
    ensures
        book.available(order) == book.resting(order.side.other()),
        book.available(order) == book.total(order.side.other()),
{
    crate::depth::lemma_total_is_resting(book, order.side.other());
    crate::depth::lemma_available_is_total(book, order);
}

/// Taken out one after the other, the orders of a side come out by price and, at
/// the same price, in the order that they went in; all of them, each once.
pub proof fn law_sides_come_out_in_order(book: BookView, side: Side)
    requires
        book.wf(),
    ensures
        ({
            let out = book.taken_out(side);
            &&& out.no_duplicates()
            &&& forall|id: u128| #[trigger] out.contains(id) <==> book.queue(side).contains_key(id)
            &&& forall|i: int, j: int|
                0 <= i < j < out.len() ==> crate::book::ahead(
                    side,
                    book.queue(side)[#[trigger] out[i]],
                    book.queue(side)[#[trigger] out[j]],
                )
        }),
{
    assert(book.queue_wf(side));
    crate::depth::lemma_taken_out_in_order(book, side);
}

/// Arrival order holds: an order that is queued before and after another order is
/// processed keeps its place, price and sequence number, however much of it was
/// filled.
pub proof fn law_places_are_kept(book: BookView, order: OrderView, side: Side, id: u128)
    requires
        book.wf(),
        book.admits(order),
        id != order.id,
        book.queue(side).contains_key(id),
        book.process(order).book.queue(side).contains_key(id),
    ensures
        book.process(order).book.queue(side)[id] == book.queue(side)[id],
{
    crate::trading::lemma_process_decomposed(book, order);
    let after = book.process(order).book;
    let (met, taker) = book.executed(order);
    assert(book.queue_wf(side));
    assert(book.is_live(side, id));
    if book.lets_execute(order) {
        let trader = crate::book::effective(order);
        crate::trading::lemma_sweep_places(book, trader);
        crate::invariants::lemma_sweep_wf(book, trader);
    }
    assert(after.queue(side).remove(order.id) == met.queue(side).remove(order.id));
    assert(after.queue(side).remove(order.id).contains_key(id));
    assert(met.queue(side).contains_key(id));
    assert(after.queue(side).remove(order.id)[id] == after.queue(side)[id]);
}

/// Newer orders come later: an order that goes to rest is served after every other
/// order that is queued at its price.
pub proof fn law_new_orders_queue_last(book: BookView, order: OrderView, id: u128)
    requires
        book.wf(),
        order.price is Some,
        order.filled_quantity != order.quantity,
        id != order.id,
        book.queue(order.side).contains_key(id),
        book.queue(order.side)[id].0 == order.price->0,
    ensures
        ({
            let after = book.rest(order).book;
            &&& after.queue(order.side).contains_key(id)
            &&& after.queue(order.side)[id] == book.queue(order.side)[id]
            &&& after.queue(order.side)[order.id] == (order.price->0, book.next_sequence)
            &&& crate::book::ahead(
                order.side,
                after.queue(order.side)[id],
                after.queue(order.side)[order.id],
            )
        }),
{
    assert(book.queue_wf(order.side));
    crate::invariants::lemma_remove_wf(book, order.id);
    let cleared = book.remove(order.id).0;
    assert(cleared.queue(order.side).contains_key(id));
    assert(cleared.queue(order.side)[id] == book.queue(order.side)[id]);
}

/// Price-time priority: where an incoming order trades with an order of the other
/// side, every order that was ahead of that one, by price or at the same price by
/// sequence, is filled completely.
pub proof fn law_price_time_priority(book: BookView, order: OrderView, first: u128, second: u128)
    requires
        book.wf(),
        book.admits(order),
        first != order.id && second != order.id,
        book.queue(order.side.other()).contains_key(first),
        book.queue(order.side.other()).contains_key(second),
        crate::book::ahead(
            order.side.other(),
            book.queue(order.side.other())[first],
            book.queue(order.side.other())[second],
        ),
        book.process(order).book.orders[second] != book.orders[second],
    ensures
        book.process(order).book.orders[first].remaining() == 0,
{
    crate::trading::lemma_process_decomposed(book, order);
    let side = order.side.other();
    let after = book.process(order).book;
    let (met, taker) = book.executed(order);
    assert(book.queue_wf(side));
    assert(book.is_live(side, first) && book.is_live(side, second));
    assert(after.orders[first] == after.orders.remove(order.id)[first]);
    assert(after.orders[second] == after.orders.remove(order.id)[second]);
    assert(met.orders[first] == met.orders.remove(order.id)[first]);
    assert(met.orders[second] == met.orders.remove(order.id)[second]);
    if book.lets_execute(order) {
        crate::trading::lemma_sweep_priority(
            book,
            crate::book::effective(order),
            first,
            second,
        );
    }
}

/// Every trade that an incoming order makes is with an order queued on the other
/// side, at a price that both orders accept; and what was told before stays told.
pub proof fn law_trades_are_fair(book: BookView, order: OrderView, i: int)
    requires
        book.wf(),
        book.admits(order),
    ensures
        book.sent.is_prefix_of(book.process(order).book.sent),
        book.sent.len() <= i < book.process(order).book.sent.len() ==> (book.process(
            order,
        ).book.sent[i] matches MessageView::Trade(trade) ==> crate::trading::is_fair(
            book,
            crate::book::effective(order),
            trade,
        )),
{
    crate::trading::lemma_process_decomposed(book, order);
    let after = book.process(order).book;
    let (met, taker) = book.executed(order);
    if book.lets_execute(order) {
        crate::trading::lemma_sweep_trades(book, crate::book::effective(order));
    }
    if book.sent.len() <= i < met.sent.len() {
        assert(after.sent[i] == met.sent[i]);
    }
}

/// What an incoming order is filled by is what the trades that are told of add up
/// to.
pub proof fn law_fills_are_trades(book: BookView, order: OrderView)
    requires
        book.wf(),
        book.admits(order),
    ensures
        book.process(order).order.filled_quantity - order.filled_quantity
            == crate::trading::traded(book.process(order).book.sent) - crate::trading::traded(
            book.sent,
        ),
{
    crate::trading::lemma_process_decomposed(book, order);
    if book.lets_execute(order) {
        crate::trading::lemma_sweep_trades(book, crate::book::effective(order));
    }
}

/// An incoming order takes no order out of the book. It leaves every order of its
/// own side as it was; an order of the other side is at most filled further, and
/// stays active until it is filled completely.
pub proof fn law_resting_orders_stay(book: BookView, order: OrderView, id: u128)
    requires
        book.wf(),
        book.admits(order),
        id != order.id,
        book.orders.contains_key(id),
    ensures
        ({
            let after = book.process(order).book;
            &&& after.orders.contains_key(id)
            &&& crate::trading::only_filled(book.orders[id], after.orders[id])
            &&& book.orders[id].side == order.side ==> after.orders[id] == book.orders[id]
            &&& after.order_info.contains_key(id) <==> after.orders[id].remaining() > 0
        }),
{
    crate::trading::lemma_process_decomposed(book, order);
    law_process_keeps_well_formed(book, order);
    let after = book.process(order).book;
    let (met, taker) = book.executed(order);
    let side = order.side.other();
    assert(book.queue_wf(side));
    if book.lets_execute(order) {
        let trader = crate::book::effective(order);
        crate::trading::lemma_sweep_orders(book, trader);
        crate::invariants::lemma_sweep_wf(book, trader);
        assert(met.orders.dom().contains(id));
        if book.orders[id].side == order.side {
            assert(!book.is_live(side, id));
            assert(!book.queue(side).contains_key(id));
        }
    }
    assert(met.orders.contains_key(id));
    assert(met.orders.remove(order.id).contains_key(id));
    assert(after.orders.remove(order.id).contains_key(id));
    assert(met.orders[id] == met.orders.remove(order.id)[id]);
    assert(after.orders[id] == after.orders.remove(order.id)[id]);
    if after.order_info.contains_key(id) {
        assert(after.queue_wf(Side::Buy) && after.queue_wf(Side::Sell));
        assert(after.queue(after.order_info[id].0).contains_key(id));
    }
}

/// Once its stop price is reached, a stop order becomes what it is to become:
/// everything goes as if it had come in as a market order, or as a limit order.
pub proof fn law_reached_stops_are_market_or_limit_orders(book: BookView, order: OrderView)
    requires
        order.stop_price matches Some(stop_price) && book.stop_reached(order.side, stop_price),
    ensures
        ({
            let as_market = book.process(OrderView { order_type: OrderType::Market, ..order });
            order.order_type == OrderType::StopLoss ==> book.process(order).book == as_market.book
                && book.process(order).error == as_market.error
        }),
        ({
            let as_limit = book.process(OrderView { order_type: OrderType::Limit, ..order });
            order.order_type == OrderType::StopLimit ==> book.process(order).book == as_limit.book
                && book.process(order).error == as_limit.error
        }),
{
}

/// A stop order whose stop price is not reached is acknowledged and changes nothing
/// else.
pub proof fn law_other_stops_are_acknowledged(book: BookView, order: OrderView)
    requires
        book.objection(order) is None,
        book.must_wait(order),
    ensures
        book.process(order).error is None,
        book.process(order).book == book.notify_update(order.id, OrderStatus::New, 0),
{
}

/// Setting a level sets this level and no other, and drops it where it is set to 0.
pub proof fn law_levels_are_set_one_by_one(
    book: BookView,
    side: Side,
    price: i64,
    quantity: u64,
    other_side: Side,
    other: i64,
)
    ensures
        ({
            let after = book.with_level(side, price, quantity);
            &&& after.level(side, price) == quantity
            &&& after.levels(side).contains_key(price) <==> quantity > 0
            &&& other_side != side || other != price ==> after.level(other_side, other)
                == book.level(other_side, other) && after.levels(other_side).contains_key(other)
                == book.levels(other_side).contains_key(other)
            &&& after.bids == book.bids && after.asks == book.asks
            &&& after.orders == book.orders && after.order_info == book.order_info
            &&& after.sent == book.sent
        }),
{
}

/// Removing an order that has just gone to rest gives it back and restores what the
/// book held; removing it again gives nothing and changes nothing. An order that has
/// nothing left does not change the book to begin with.
pub proof fn law_remove_undoes_rest(book: BookView, order: OrderView)
    requires
        book.wf(),
        !book.orders.contains_key(order.id),
        order.filled_quantity <= order.quantity,
        order.price matches Some(price) && book.level(order.side, price) + order.remaining()
            <= u64::MAX,
        book.next_sequence < u64::MAX,
    ensures
        ({
            let rested = book.rest(order).book;
            let (after, removed) = rested.remove(order.id);
            &&& removed == if order.remaining() == 0 {
                None
            } else {
                Some(OrderView { status: OrderStatus::New, ..order })
            }
            &&& after == (BookView { next_sequence: rested.next_sequence, ..book })
            &&& after.remove(order.id) == (after, None::<OrderView>)
        }),
{
    let rested = book.rest(order).book;
    let (after, removed) = rested.remove(order.id);
    let side = order.side;
    assert(book.levels_wf(side));
    assert(book.queue_wf(Side::Buy) && book.queue_wf(Side::Sell));
    assert(!book.order_info.contains_key(order.id));
    assert(!book.queue(side).contains_key(order.id));
    assert(after.queue(side) =~= book.queue(side));
    assert(after.orders =~= book.orders);
    assert(after.order_info =~= book.order_info);
    assert(after.levels(side) =~= book.levels(side));
}

/// Canceling an order that has just gone to rest restores what the book held: its
/// queues, its orders and its levels.
pub proof fn law_cancel_undoes_rest(book: BookView, order: OrderView)
    requires
        book.wf(),
        !book.orders.contains_key(order.id),
        order.filled_quantity < order.quantity,
        order.price matches Some(price) && book.level(order.side, price) + order.remaining()
            <= u64::MAX,
        book.next_sequence < u64::MAX,
    ensures
        ({
            let rested = book.rest(order).book;
            let (after, error) = rested.cancel(order.id);
            &&& error is None
            &&& after == (BookView {
                next_sequence: rested.next_sequence,
                ..book.notify_update(order.id, OrderStatus::Canceled, order.filled_quantity)
            })
        }),
{
    law_remove_undoes_rest(book, order);
}

/// A canceled order is gone: canceling it again is an error that changes nothing.
pub proof fn law_second_cancel_fails(book: BookView, id: u128)
    requires
        book.wf(),
    ensures
        ({
            let once = book.cancel(id).0;
            &&& once.cancel(id) == (
                once,
                Some(crate::error::ErrorView::OrderNotFound(crate::identity::id_text(id))),
            )
        }),
{
    assert(!book.remove(id).0.order_info.contains_key(id));
}

/// Canceling an order leaves every other order as it was.
pub proof fn law_cancel_touches_one_order(book: BookView, id: u128, other: u128)
    requires
        book.wf(),
        other != id,
    ensures
        ({
            let after = book.cancel(id).0;
            &&& after.orders.get(other) == book.orders.get(other)
            &&& after.order_info.get(other) == book.order_info.get(other)
            &&& after.bids.get(other) == book.bids.get(other)
            &&& after.asks.get(other) == book.asks.get(other)
        }),
{
}

/// A request that the book objects to is answered with a rejection and changes
/// nothing else; so is the cancellation of an order that is not active.
pub proof fn law_refused_requests_are_answered(book: BookView, order: OrderView, id: u128)
    requires
        book.wf(),
        book.objection(order) is Some,
        !book.order_info.contains_key(id),
    ensures
        book.submit(order) == book.notify_update(order.id, OrderStatus::Rejected, 0),
        book.request_cancel(id) == book.notify_update(id, OrderStatus::Rejected, 0),
{
}

/// Whether `id` has the same place in the queues of two books.
pub open spec fn same_place(a: BookView, b: BookView, id: u128) -> bool {
    a.bids.get(id) == b.bids.get(id) && a.asks.get(id) == b.asks.get(id)
}

/// The messages that tell of the cancellation of orders.
pub open spec fn cancellations(book: BookView, ids: Seq<u128>) -> Seq<MessageView> {
    ids.map_values(
        |id: u128|
            MessageView::OrderUpdate {
                order_id: id,
                status: OrderStatus::Canceled,
                filled_qty: book.orders[id].filled_quantity,
                symbol: book.symbol,
            },
    )
}

/// Canceling active orders one after the other, none of them twice, takes out these
/// orders and no other, and tells of each in turn.
pub proof fn lemma_cancel_each(book: BookView, ids: Seq<u128>)
    requires
        book.wf(),
        ids.no_duplicates(),
        forall|id: u128| #[trigger] ids.contains(id) ==> book.order_info.contains_key(id),
    ensures
        ({
            let (after, error) = book.cancel_each(ids);
            &&& error is None
            &&& after.wf()
            &&& after.symbol == book.symbol
            &&& forall|id: u128| #[trigger]
                after.orders.contains_key(id) <==> book.orders.contains_key(id) && !ids.contains(id)
            &&& forall|id: u128| #[trigger]
                after.order_info.contains_key(id) <==> book.order_info.contains_key(id)
                    && !ids.contains(id)
            &&& forall|id: u128| #[trigger]
                after.orders.contains_key(id) ==> after.orders[id] == book.orders[id]
            &&& forall|id: u128| !ids.contains(id) ==> #[trigger] same_place(book, after, id)
            &&& after.sent == book.sent + cancellations(book, ids)
        }),
    decreases ids.len(),
{
    let told = |id: u128|
        MessageView::OrderUpdate {
            order_id: id,
            status: OrderStatus::Canceled,
            filled_qty: book.orders[id].filled_quantity,
            symbol: book.symbol,
        };
    if ids.len() == 0 {
        assert(book.sent + cancellations(book, ids) =~= book.sent);
    } else {
        let fewer = ids.drop_last();
        let id = ids.last();
        assert forall|other: u128| #[trigger] fewer.contains(
            other,
        ) implies book.order_info.contains_key(other) by {
            assert(ids[fewer.index_of(other)] == other);
            assert(ids.contains(other));
        }
        lemma_cancel_each(book, fewer);
        let middle = book.cancel_each(fewer).0;
        assert(ids.contains(id));
        assert(!fewer.contains(id));
        assert forall|other: u128| #[trigger] ids.contains(other) <==> fewer.contains(other)
            || other == id by {
            if ids.contains(other) {
                let i = ids.index_of(other);
                if i < fewer.len() {
                    assert(fewer[i] == other);
                }
            }
            if fewer.contains(other) {
                assert(ids[fewer.index_of(other)] == other);
            }
        }
        assert(middle.order_info.contains_key(id));
        assert(middle.orders.contains_key(id));
        law_cancel_keeps_well_formed(middle, id);
        assert forall|other: u128| !ids.contains(other) implies #[trigger] same_place(
            book,
            book.cancel_each(ids).0,
            other,
        ) by {
            assert(same_place(book, middle, other));
            law_cancel_touches_one_order(middle, id, other);
        }
        crate::invariants::lemma_remove_wf(middle, id);
        assert(cancellations(book, ids) =~= cancellations(book, fewer).push(told(id)));
        assert(book.cancel_each(ids).0.sent =~= book.sent + cancellations(book, ids));
    }
}

/// Expiry takes out exactly the active orders whose date has come or whose day is
/// over, leaves every other order as it was and in its place, tells of each that it
/// takes out once and of nothing else, and never fails.
pub proof fn law_expiry_is_exact(
    book: BookView,
    now: crate::calendar::Timestamp,
    after: BookView,
    error: Option<crate::error::ErrorView>,
)
    requires
        book.wf(),
        book.expires_to(now, after, error),
    ensures
        error is None,
        after.wf(),
        forall|id: u128| #[trigger]
            after.orders.contains_key(id) <==> book.orders.contains_key(id) && !book.is_expired(
                id,
                now,
            ),
        forall|id: u128| #[trigger]
            after.orders.contains_key(id) ==> after.orders[id] == book.orders[id],
        forall|id: u128| !after.is_expired(id, now),
        forall|id: u128| !book.is_expired(id, now) ==> #[trigger] same_place(book, after, id),
        exists|ids: Seq<u128>| #[trigger]
            book.lists_expired(ids, now) && after.sent == book.sent + cancellations(book, ids),
{
    let ids = choose|ids: Seq<u128>| #[trigger]
        book.lists_expired(ids, now) && book.cancel_each(ids) == (after, error);
    lemma_cancel_each(book, ids);
    assert forall|id: u128| !after.is_expired(id, now) by {
        if after.is_expired(id, now) {
            assert(after.orders.contains_key(id));
            assert(book.is_expired(id, now));
        }
    }
    assert forall|id: u128| !book.is_expired(id, now) implies #[trigger] same_place(
        book,
        after,
        id,
    ) by {
        assert(!ids.contains(id));
    }
}

/// Advancing a fixed clock to or past the date of an active order, or past the day
/// of a day order, makes the next check for expired orders cancel it, and tell of
/// it, whatever the real time is.
pub proof fn law_advancing_past_the_end_expires(
    book: BookView,
    clock: crate::time::ClockView,
    advance: int,
    real_now: crate::calendar::Timestamp,
    after: BookView,
    error: Option<crate::error::ErrorView>,
    id: u128,
)
    requires
        book.wf(),
        clock.wf(),
        clock.scale == crate::time::TimeScale::Fixed,
        clock.current_time.plus(advance) is Some,
        book.order_info.contains_key(id),
        match book.orders[id].time_in_force {
            TimeInForce::GTD(expiry) => !(clock.current_time.plus(advance)->0).before(expiry),
            TimeInForce::DAY => (clock.current_time.plus(advance)->0).day()
                > book.orders[id].created_at.day(),
            _ => false,
        },
        crate::order_book::expiry_checked(
            book,
            crate::time::ClockView { current_time: clock.current_time.plus(advance)->0, ..clock },
            real_now,
            after,
            error,
        ),
    ensures
        error is None,
        !after.orders.contains_key(id),
        !after.order_info.contains_key(id),
        after.sent.contains(
            MessageView::OrderUpdate {
                order_id: id,
                status: OrderStatus::Canceled,
                filled_qty: book.orders[id].filled_quantity,
                symbol: book.symbol,
            },
        ),
{
    let time = clock.current_time.plus(advance)->0;
    assert(book.is_expired(id, time));
    law_expiry_is_exact(book, time, after, error);
    let ids = choose|ids: Seq<u128>| #[trigger]
        book.lists_expired(ids, time) && after.sent == book.sent + cancellations(book, ids);
    assert(ids.contains(id));
    let i = ids.index_of(id);
    assert(after.sent[book.sent.len() + i] == cancellations(book, ids)[i]);
}

/// An order is not taken out before its date or during its day: expiry at such a
/// time leaves it as it was.
pub proof fn law_orders_outlive_earlier_times(
    book: BookView,
    now: crate::calendar::Timestamp,
    after: BookView,
    error: Option<crate::error::ErrorView>,
    id: u128,
)
    requires
        book.wf(),
        book.expires_to(now, after, error),
        book.orders.contains_key(id),
        match book.orders[id].time_in_force {
            TimeInForce::GTD(expiry) => now.before(expiry),
            TimeInForce::DAY => now.day() <= book.orders[id].created_at.day(),
            _ => true,
        },
    ensures
        after.orders.contains_key(id) && after.orders[id] == book.orders[id],
        same_place(book, after, id),
{
    assert(!book.is_expired(id, now));
    law_expiry_is_exact(book, now, after, error);
    assert(after.orders.contains_key(id));
}

/// Taking in a message leaves a well-formed book and takes back nothing that was
/// told.
proof fn lemma_handled(
    before: BookView,
    clock: crate::time::ClockView,
    message: MessageView,
    after: BookView,
    clock_after: crate::time::ClockView,
)
    requires
        before.wf(),
        message matches MessageView::SubmitOrder(order) ==> before.admits(order),
        crate::order_book::handled(before, clock, message, after, clock_after),
    ensures
        after.wf(),
        before.sent.is_prefix_of(after.sent),
{
    match message {
        MessageView::SubmitOrder(order) => {
            crate::invariants::lemma_process_wf(before, order);
            crate::invariants::lemma_process_tells(before, order);
            crate::invariants::lemma_notify_wf(before.process(order).book);
        },
        MessageView::CancelOrder(id) => {
            crate::invariants::lemma_cancel_wf(before, id);
            crate::invariants::lemma_notify_wf(before.cancel(id).0);
        },
        MessageView::Heartbeat(_) => {
            let (real_now, error) = choose|
                real_now: crate::calendar::Timestamp,
                error: Option<crate::error::ErrorView>,
            |
                real_now.is_reading() && clock_after == clock.updated(real_now)
                    && #[trigger] crate::order_book::expiry_checked(
                    before,
                    clock,
                    real_now,
                    after,
                    error,
                );
            if clock.failure_at(real_now) is None {
                let ids = choose|ids: Seq<u128>| #[trigger]
                    before.lists_expired(ids, clock.time_at(real_now)->0) && before.cancel_each(ids)
                        == (after, error);
                crate::invariants::lemma_cancel_each_wf(before, ids);
            }
        },
        _ => {},
    }
}

/// Messages are handled in the order that they come in, each of them, whether
/// earlier ones failed or not: what has been told of an earlier one stands before
/// what is told of a later one, and every book on the way is well-formed.
pub proof fn law_messages_are_handled_in_order(
    books: Seq<BookView>,
    clocks: Seq<crate::time::ClockView>,
    messages: Seq<MessageView>,
    i: int,
    j: int,
)
    requires
        crate::order_book::is_run(books, clocks, messages),
        books[0].wf(),
        forall|k: int|
            0 <= k < messages.len() ==> (#[trigger] messages[k] matches MessageView::SubmitOrder(
                order,
            ) ==> books[k].admits(order)),
        0 <= i <= j <= messages.len(),
    ensures
        books.len() == messages.len() + 1,
        books[i].wf() && books[j].wf(),
        books[i].sent.is_prefix_of(books[j].sent),
        j < messages.len() ==> crate::order_book::handled(
            books[j],
            clocks[j],
            messages[j],
            books[j + 1],
            clocks[j + 1],
        ),
    decreases j,
{
    if j > 0 {
        let before = j - 1;
        law_messages_are_handled_in_order(
            books,
            clocks,
            messages,
            if i < j {
                i
            } else {
                before
            },
            before,
        );
        assert(messages[before] == messages[before]);
        lemma_handled(
            books[before],
            clocks[before],
            messages[before],
            books[j],
            clocks[j],
        );
    }
}

/// A request that fails gets one rejection right behind what it had told until then,
/// a request that succeeds gets none, and what is not for a book does nothing.
pub proof fn law_only_failures_are_rejected(
    before: BookView,
    clock: crate::time::ClockView,
    message: MessageView,
    after: BookView,
    clock_after: crate::time::ClockView,
)
    requires
        before.wf(),
        crate::order_book::handled(before, clock, message, after, clock_after),
        message matches MessageView::SubmitOrder(order) ==> before.admits(order),
    ensures
        match message {
            MessageView::SubmitOrder(order) => {
                let outcome = before.process(order);
                after == if outcome.error is Some {
                    outcome.book.notify_update(order.id, OrderStatus::Rejected, 0)
                } else {
                    outcome.book
                }
            },
            MessageView::CancelOrder(id) => {
                let (book, error) = before.cancel(id);
                after == if error is Some {
                    book.notify_update(id, OrderStatus::Rejected, 0)
                } else {
                    book
                }
            },
            MessageView::Heartbeat(_) => clock.scale == crate::time::TimeScale::Slow(0) ==> after
                == before,
            _ => after == before,
        },
{
}

/// Handing out the notifications leaves a well-formed book.
pub proof fn law_draining_keeps_well_formed(book: BookView)
    requires
        book.wf(),
    ensures
        (BookView { sent: Seq::empty(), ..book }).wf(),
{
    crate::invariants::lemma_drained_wf(book, Seq::empty());
}

/// Two orders trade at a price that both accept, and one of them is filled by the
/// trade.
pub proof fn law_trade_suits_both(
    buy: OrderView,
    sell: OrderView,
    last_prices: Map<Seq<char>, i64>,
)
    requires
        buy.filled_quantity <= buy.quantity,
        sell.filled_quantity <= sell.quantity,
        crate::matching_engine::match_failure(buy, sell) is None,
    ensures
        ({
            let trade = crate::matching_engine::match_trade(buy, sell, last_prices);
            &&& buy.accepts(trade.price)
            &&& sell.accepts(trade.price)
            &&& 0 < trade.quantity <= buy.remaining()
            &&& trade.quantity <= sell.remaining()
            &&& trade.quantity == buy.remaining() || trade.quantity == sell.remaining()
        }),
{
    crate::trading::lemma_price_accepted(buy, sell, last_prices);
}

/// A fixed clock stands still, whatever the real time is.
pub proof fn law_fixed_clock_stands_still(
    clock: crate::time::ClockView,
    real_now: crate::calendar::Timestamp,
)
    requires
        clock.wf(),
        clock.scale == crate::time::TimeScale::Fixed,
    ensures
        clock.failure_at(real_now) is None,
        clock.time_at(real_now) == Some(clock.current_time),
        clock.updated(real_now) == clock,
{
}

/// Moving on twice is moving on once by both lengths. From inside a leap second this
/// is so where both lead forward.
pub proof fn law_advances_add_up(time: crate::calendar::Timestamp, first: int, second: int)
    requires
        time.is_valid(),
        time.nanos < 1_000_000_000 || (first >= 0 && second >= 0),
        time.plus(first) is Some,
    ensures
        (time.plus(first)->0).is_valid(),
        (time.plus(first)->0).plus(second) == time.plus(first + second),
        time.nanos < 1_000_000_000 ==> (time.plus(first)->0).total() == time.total() + first,
{
}

/// A clock of normal scale moves on by as much as the real time does. From a start
/// inside a leap second this is so from the start on.
pub proof fn law_normal_clock_keeps_pace(
    clock: crate::time::ClockView,
    earlier: crate::calendar::Timestamp,
    later: crate::calendar::Timestamp,
)
    requires
        clock.wf(),
        clock.scale == crate::time::TimeScale::Normal,
        earlier.is_reading(),
        later.is_reading(),
        clock.start_sim.nanos < 1_000_000_000 || clock.start_real.total() <= earlier.total()
            <= later.total(),
        clock.time_at(earlier) is Some,
    ensures
        (clock.time_at(earlier)->0).plus(later.total() - earlier.total()) == clock.time_at(later),
{
    law_advances_add_up(
        clock.start_sim,
        earlier.total() - clock.start_real.total(),
        later.total() - earlier.total(),
    );
}

/// A fast clock moves on by its multiplier times as much as the real time does. From
/// a start inside a leap second this is so from the start on.
pub proof fn law_fast_clock_multiplies(
    clock: crate::time::ClockView,
    multiplier: u32,
    earlier: crate::calendar::Timestamp,
    later: crate::calendar::Timestamp,
)
    requires
        clock.wf(),
        clock.scale == crate::time::TimeScale::Fast(multiplier),
        earlier.is_reading(),
        later.is_reading(),
        clock.start_sim.nanos < 1_000_000_000 || clock.start_real.total() <= earlier.total()
            <= later.total(),
        clock.time_at(earlier) is Some,
    ensures
        (clock.time_at(earlier)->0).plus(multiplier * (later.total() - earlier.total()))
            == clock.time_at(later),
{
    let start = clock.start_real.total();
    let first = (earlier.total() - start) * multiplier;
    let second = multiplier * (later.total() - earlier.total());
    assert(first + second == (later.total() - start) * multiplier) by (nonlinear_arith)
        requires
            first == (earlier.total() - start) * multiplier,
            second == multiplier * (later.total() - earlier.total()),
    ;
    if start <= earlier.total() <= later.total() {
        assert(first >= 0 && second >= 0) by (nonlinear_arith)
            requires
                first == (earlier.total() - start) * multiplier,
                second == multiplier * (later.total() - earlier.total()),
                start <= earlier.total() <= later.total(),
                multiplier >= 0,
        ;
    }
    law_advances_add_up(clock.start_sim, first, second);
}

/// A slow clock moves on by the real time divided by its divisor, but for what
/// rounding takes away.
pub proof fn law_slow_clock_divides(
    clock: crate::time::ClockView,
    divisor: u32,
    real_now: crate::calendar::Timestamp,
)
    requires
        clock.wf(),
        clock.scale == crate::time::TimeScale::Slow(divisor),
        divisor > 0,
        real_now.is_reading(),
    ensures
        ({
            let moved = clock.real_elapsed(real_now).quotient(divisor as int);
            let elapsed = real_now.total() - clock.start_real.total();
            &&& clock.time_at(real_now) == clock.start_sim.plus(moved)
            &&& -2 * divisor < elapsed - moved * divisor < 2 * divisor
            &&& elapsed >= 0 ==> moved * divisor <= elapsed
        }),
{
    let span = clock.real_elapsed(real_now);
    let d = divisor as int;
    let s = span.secs as int;
    let n = span.nanos as int;
    let whole = crate::calendar::truncated_quotient(s, d);
    let carry = s - whole * d;
    let c = carry * 1_000_000_000;
    let q = crate::calendar::truncated_quotient(c, d);
    lemma_truncated(s, d);
    lemma_truncated(n, d);
    lemma_truncated(c, d);
    assert((whole * 1_000_000_000 + n / d + q) * d == whole * d * 1_000_000_000 + (n / d) * d + q
        * d) by (nonlinear_arith);
}

/// A length of time divided differs from the true quotient by less than rounding two
/// parts can make it.
pub proof fn lemma_quotient_near(span: crate::calendar::TimeSpan, d: int)
    requires
        span.nanos < 1_000_000_000,
        d > 0,
    ensures
        -2 * d < span.total() - span.quotient(d) * d < 2 * d,
        span.secs >= 0 ==> span.quotient(d) * d <= span.total() && span.quotient(d) >= 0,
{
    let s = span.secs as int;
    let n = span.nanos as int;
    let whole = crate::calendar::truncated_quotient(s, d);
    let carry = s - whole * d;
    let c = carry * 1_000_000_000;
    let q = crate::calendar::truncated_quotient(c, d);
    lemma_truncated(s, d);
    lemma_truncated(n, d);
    lemma_truncated(c, d);
    assert((whole * 1_000_000_000 + n / d + q) * d == whole * d * 1_000_000_000 + (n / d) * d + q
        * d) by (nonlinear_arith);
    if s >= 0 {
        assert(s / d >= 0 && n / d >= 0 && c / d >= 0) by (nonlinear_arith)
            requires
                s >= 0,
                n >= 0,
                c >= 0,
                d > 0,
        ;
    }
}

/// A quotient rounded towards zero leaves less than the divisor over, on the side of
/// what was divided.
proof fn lemma_truncated(a: int, d: int)
    requires
        d > 0,
    ensures
        a >= 0 ==> 0 <= a - crate::calendar::truncated_quotient(a, d) * d < d,
        a < 0 ==> -d < a - crate::calendar::truncated_quotient(a, d) * d <= 0,
{
    let m = if a >= 0 {
        a
    } else {
        -a
    };
    vstd::arithmetic::div_mod::lemma_fundamental_div_mod(m, d);
    vstd::arithmetic::div_mod::lemma_mod_bound(m, d);
    assert((m / d) * d == d * (m / d)) by (nonlinear_arith);
    assert((-(m / d)) * d == -(d * (m / d))) by (nonlinear_arith);
}

/// A matching algorithm that is set for a symbol is the one that the symbol has
/// from then on; other symbols keep theirs.
pub proof fn law_algorithm_is_kept(
    router: crate::router::RouterView,
    symbol: Seq<char>,
    algorithm: Seq<char>,
    other: Seq<char>,
)
    ensures
        router.with_algorithm(symbol, algorithm).algorithm_of(symbol) == algorithm,
        other != symbol ==> router.with_algorithm(symbol, algorithm).algorithm_of(other)
            == router.algorithm_of(other),
        router.with_algorithm(symbol, algorithm).books == router.books,
{
}

/// A new order book gets messages of its own: it has a handle that no other book
/// has, and the other books keep theirs.
pub proof fn law_books_are_told_apart(
    router: crate::router::RouterView,
    symbol: Seq<char>,
    other: Seq<char>,
)
    requires
        router.wf(),
        router.next_handle < usize::MAX,
        !router.books.contains_key(symbol),
        router.books.contains_key(other),
    ensures
        router.with_book(symbol).books[other] == router.books[other],
        router.with_book(symbol).books[symbol] != router.books[other],
{
}

/// A symbol gets one order book, by the algorithm that was last set for it: once it
/// has one, it keeps it, and other symbols keep theirs or still have none.
pub proof fn law_symbols_have_one_book(
    router: crate::router::RouterView,
    symbol: Seq<char>,
    algorithm: Seq<char>,
    other: Seq<char>,
)
    requires
        router.wf(),
    ensures
        ({
            let after = router.with_book(symbol);
            &&& after.books.contains_key(symbol)
            &&& other != symbol ==> after.books.get(other) == router.books.get(other)
            &&& after.algorithms == router.algorithms
            &&& after.default_algorithm == router.default_algorithm
        }),
        router.with_algorithm(symbol, algorithm).title_of(symbol)
            == crate::matching_engine::title_for(crate::text::lower_case(algorithm)),
        !router.algorithms.contains_key(symbol) ==> router.title_of(symbol)
            == crate::matching_engine::title_for(
            crate::text::lower_case(router.default_algorithm),
        ),
{
}

/// An order for a symbol that the exchange offers finds its order book.
pub proof fn law_offered_symbols_have_books(
    exchange: crate::exchange::ExchangeView,
    symbol: Seq<char>,
)
    requires
        exchange.wf(),
        exchange.symbols.contains(symbol),
    ensures
        exchange.router.books.contains_key(symbol),
{
}

} // verus!
