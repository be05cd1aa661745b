//! What holds of every order book, and that every operation keeps it: the queues,
//! the orders and the price levels tell the same story, and buyers and sellers do
//! not cross.

use crate::book::BookView;
use crate::model::{OrderType, OrderView, Side, TimeInForce};
use vstd::prelude::*;

verus! {

impl BookView {
    /// What the order `id` offers at a price of a side.
    pub open spec fn offer(self, side: Side, price: i64, id: u128) -> nat {
        if self.is_live(side, id) && self.queue(side)[id].0 == price {
            self.orders[id].remaining() as nat
        } else {
            0
        }
    }

    /// What the queued orders of a side offer at a price.
    pub open spec fn offered(self, side: Side, price: i64) -> nat {
        crate::sums::sum_over(self.queue(side).dom(), |id: u128| self.offer(side, price, id))
    }

    /// What holds of the orders that a book has taken in.
    pub open spec fn orders_wf(self) -> bool {
        &&& self.no_overfill()
        &&& forall|id: u128| #[trigger]
            self.orders.contains_key(id) ==> {
                &&& self.orders[id].id == id
                &&& self.orders[id].symbol == self.symbol
                &&& self.orders[id].price is Some
            }
        &&& forall|id: u128| #[trigger]
            self.order_info.contains_key(id) ==> {
                &&& self.orders.contains_key(id)
                &&& self.orders[id].side == self.order_info[id].0
                &&& self.orders[id].price == Some(self.order_info[id].1)
            }
    }

    /// What holds of the queue of a side: its sequence numbers have all been given
    /// out, each to one order; and every order in it has something left and is
    /// active on that side, at the price that it is queued for.
    pub open spec fn queue_wf(self, side: Side) -> bool {
        &&& self.queue(side).dom().finite()
        &&& forall|id: u128| #[trigger]
            self.queue(side).contains_key(id) ==> {
                &&& self.queue(side)[id].1 < self.next_sequence
                &&& self.is_live(side, id)
                &&& self.order_info.contains_key(id)
                &&& self.order_info[id] == (side, self.queue(side)[id].0)
            }
        &&& forall|a: u128, b: u128|
            #![trigger self.queue(side)[a], self.queue(side)[b]]
            self.queue(side).contains_key(a) && self.queue(side).contains_key(b) && self.queue(
                side,
            )[a].1 == self.queue(side)[b].1 ==> a == b
    }

    /// What holds of the price levels of a side: each is what the orders queued at
    /// its price offer, and none is empty.
    pub open spec fn levels_wf(self, side: Side) -> bool {
        &&& self.levels(side).dom().finite()
        &&& forall|price: i64| #[trigger]
            self.levels(side).contains_key(price) ==> self.levels(side)[price] > 0
        &&& forall|price: i64| #[trigger] self.level(side, price) == self.offered(side, price)
    }

    /// Whether every order that the book has taken in is active and queued, or
    /// filled.
    pub open spec fn accounted(self) -> bool {
        &&& forall|id: u128| #[trigger]
            self.order_info.contains_key(id) ==> self.queue(self.order_info[id].0).contains_key(id)
        &&& forall|id: u128| #[trigger]
            self.orders.contains_key(id) ==> self.order_info.contains_key(id)
                || self.orders[id].remaining() == 0
    }

    /// Whether every buyer offers less than every seller asks.
    pub open spec fn uncrossed(self) -> bool {
        forall|bid: u128, ask: u128| #[trigger]
            self.bids.contains_key(bid) && #[trigger] self.asks.contains_key(ask)
                ==> self.bids[bid].0 < self.asks[ask].0
    }

    /// What holds of every order book.
    pub open spec fn wf(self) -> bool {
        &&& self.orders_wf()
        &&& self.queue_wf(Side::Buy)
        &&& self.queue_wf(Side::Sell)
        &&& self.levels_wf(Side::Buy)
        &&& self.levels_wf(Side::Sell)
        &&& self.accounted()
        &&& self.uncrossed()
    }
}

/// Whether two books hold the same but for the order `id`, as far as queues and
/// orders go.
pub open spec fn differ_at(a: BookView, b: BookView, id: u128) -> bool {
    &&& forall|side: Side, other: u128|
        other != id ==> #[trigger] a.queue(side).contains_key(other) == b.queue(side).contains_key(
            other,
        )
    &&& forall|side: Side, other: u128|
        other != id && a.queue(side).contains_key(other) ==> #[trigger] b.queue(side)[other]
            == a.queue(side)[other]
    &&& forall|other: u128|
        other != id ==> #[trigger] a.orders.contains_key(other) == b.orders.contains_key(other)
    &&& forall|other: u128|
        other != id && a.orders.contains_key(other) ==> #[trigger] b.orders[other]
            == a.orders[other]
}

/// What one order offers and what the others offer make up what is offered.
proof fn lemma_offered_split(book: BookView, side: Side, price: i64, id: u128)
    requires
        book.queue(side).dom().finite(),
    ensures
        book.offered(side, price) == book.offer(side, price, id) + crate::sums::sum_over(
            book.queue(side).dom().remove(id),
            |other: u128| book.offer(side, price, other),
        ),
{
    let dom = book.queue(side).dom();
    if dom.contains(id) {
        crate::sums::lemma_sum_remove(dom, |other: u128| book.offer(side, price, other), id);
    } else {
        assert(dom.remove(id) =~= dom);
    }
}

/// Two books that differ at one order only differ in what is offered by what that
/// order offers.
pub proof fn lemma_offered_differ(a: BookView, b: BookView, side: Side, price: i64, id: u128)
    requires
        a.queue(side).dom().finite(),
        b.queue(side).dom().finite(),
        differ_at(a, b, id),
    ensures
        b.offered(side, price) + a.offer(side, price, id) == a.offered(side, price) + b.offer(
            side,
            price,
            id,
        ),
{
    lemma_offered_split(a, side, price, id);
    lemma_offered_split(b, side, price, id);
    let others = a.queue(side).dom().remove(id);
    assert forall|other: u128| #[trigger]
        b.queue(side).dom().remove(id).contains(other) == others.contains(other) by {
        if other != id {
            assert(a.queue(side).contains_key(other) == b.queue(side).contains_key(other));
        }
    }
    assert(b.queue(side).dom().remove(id) =~= others);
    let f = |other: u128| a.offer(side, price, other);
    let g = |other: u128| b.offer(side, price, other);
    assert forall|other: u128| #[trigger] others.contains(other) implies f(other) == g(other) by {
        assert(a.queue(side).contains_key(other));
        assert(b.queue(side)[other] == a.queue(side)[other]);
        assert(a.orders.contains_key(other) == b.orders.contains_key(other));
        if a.orders.contains_key(other) {
            assert(b.orders[other] == a.orders[other]);
        }
    }
    crate::sums::lemma_sum_same(others, f, g);
}

/// An empty book is well-formed.
pub proof fn lemma_empty_wf(symbol: Seq<char>, last_prices: Map<Seq<char>, i64>)
    ensures
        crate::book::empty_book(symbol, last_prices).wf(),
{
    let book = crate::book::empty_book(symbol, last_prices);
    assert forall|side: Side, price: i64| #[trigger] book.offered(side, price) == 0 by {
        crate::sums::lemma_sum_zero(
            book.queue(side).dom(),
            |id: u128| book.offer(side, price, id),
        );
    }
    assert(book.levels_wf(Side::Buy) && book.levels_wf(Side::Sell));
}

/// Only one order of a queue stands first.
pub proof fn lemma_best_is(book: BookView, side: Side, id: u128)
    requires
        book.queue_wf(side),
        book.is_best(side, id),
    ensures
        book.best(side) == id,
        book.best_price(side) == Some(book.queue(side)[id].0),
{
    let best = book.best(side);
    assert(book.is_best(side, best));
    assert(!crate::book::ahead(side, book.queue(side)[best], book.queue(side)[id]));
    assert(!crate::book::ahead(side, book.queue(side)[id], book.queue(side)[best]));
    assert(book.queue(side).dom().contains(id));
}

/// What waits to be sent does not touch what `wf` speaks of.
pub proof fn lemma_drained_wf(book: BookView, sent: Seq<crate::model::MessageView>)
    requires
        book.wf(),
    ensures
        (BookView { sent, ..book }).wf(),
{
    let after = BookView { sent, ..book };
    assert forall|side: Side, price: i64| #[trigger]
        after.offered(side, price) == book.offered(side, price) by {
        assert((|id: u128| after.offer(side, price, id)) =~= (|id: u128|
            book.offer(side, price, id)));
    }
    assert(forall|side: Side, id: u128| after.is_live(side, id) == book.is_live(side, id));
    assert forall|side: Side, price: i64| #[trigger]
        after.level(side, price) == after.offered(side, price) by {
        assert(book.level(side, price) == book.offered(side, price));
    }
    assert(after.queue_wf(Side::Buy) && after.queue_wf(Side::Sell));
    assert(after.levels_wf(Side::Buy) && after.levels_wf(Side::Sell));
    assert(after.accounted() && after.uncrossed());
}

/// Notifications do not touch what `wf` speaks of.
pub proof fn lemma_notify_wf(book: BookView)
    requires
        book.wf(),
    ensures
        forall|message: crate::model::MessageView| #[trigger] book.notify(message).wf(),
{
    assert forall|message: crate::model::MessageView| #[trigger] book.notify(message).wf() by {
        lemma_drained_wf(book, book.sent.push(message));
    }
}

/// A queued order is queued on one side only, and its level accounts for all that is
/// left of it.
pub proof fn lemma_level_covers(book: BookView, side: Side, id: u128)
    requires
        book.wf(),
        book.queue(side).contains_key(id),
    ensures
        book.is_live(side, id),
        !book.queue(side.other()).contains_key(id),
        book.order_info.contains_key(id),
        book.order_info[id] == (side, book.queue(side)[id].0),
        book.orders[id].price == Some(book.queue(side)[id].0),
        book.level(side, book.queue(side)[id].0) >= book.orders[id].remaining(),
{
    assert(book.queue_wf(side) && book.queue_wf(side.other()) && book.levels_wf(side));
    let price = book.queue(side)[id].0;
    lemma_offered_split(book, side, price, id);
    assert(book.level(side, price) == book.offered(side, price));
}

/// Two orders that a book brings together do trade.
pub proof fn lemma_pair_trades(book: BookView, taker: OrderView)
    requires
        book.wf(),
        taker.symbol == book.symbol,
        taker.filled_quantity < taker.quantity,
        book.reaches(taker),
    ensures
        ({
            let side = taker.side.other();
            let id = book.best(side);
            &&& book.is_best(side, id)
            &&& book.is_live(side, id)
            &&& crate::book::pair_failure(taker, book.orders[id]) is None
            &&& taker.accepts(book.queue(side)[id].0)
        }),
{
    let side = taker.side.other();
    let id = book.best(side);
    assert(book.queue_wf(side));
    book.lemma_best_exists(side);
    lemma_level_covers(book, side, id);
}

/// A trade with the first order of the other side leaves a well-formed book.
pub proof fn lemma_trade_wf(book: BookView, taker: OrderView)
    requires
        book.wf(),
        taker.symbol == book.symbol,
        taker.filled_quantity < taker.quantity,
        book.reaches(taker),
    ensures
        book.trade_with(taker, book.best(taker.side.other())).0.wf(),
{
    let side = taker.side.other();
    let id = book.best(side);
    lemma_pair_trades(book, taker);
    lemma_level_covers(book, side, id);
    let (after, order) = book.trade_with(taker, id);
    let price = book.queue(side)[id].0;
    assert(book.queue_wf(side) && book.queue_wf(side.other()));
    assert(book.levels_wf(side) && book.levels_wf(side.other()));
    assert(after.queue(side.other()) == book.queue(side.other()));
    assert(after.queue(side).remove(id) =~= book.queue(side).remove(id));
    assert(after.queue(side).dom().finite());
    assert(after.levels(side.other()) == book.levels(side.other()));
    assert(differ_at(book, after, id));
    assert forall|s: Side, p: i64| #[trigger] after.level(s, p) == after.offered(s, p) by {
        lemma_offered_differ(book, after, s, p, id);
        assert(book.level(s, p) == book.offered(s, p));
    }
    assert(after.orders_wf());
    assert forall|s: Side, other: u128| #[trigger] after.queue(s).contains_key(other) implies {
        &&& after.queue(s)[other].1 < after.next_sequence
        &&& after.is_live(s, other)
        &&& after.order_info.contains_key(other)
        &&& after.order_info[other] == (s, after.queue(s)[other].0)
    } by {
        assert(book.queue(s).contains_key(other));
        assert(book.queue_wf(s));
    }
    assert(after.queue_wf(side) && after.queue_wf(side.other()));
    assert(after.levels_wf(side) && after.levels_wf(side.other()));
    assert(after.uncrossed());
    assert(after.accounted());
}

/// Meeting the other side leaves a well-formed book. The order is none but more
/// filled; its own side of the book is as it was; no order is taken out and no
/// sequence number given out. An order that has something left always gets as far
/// as it can: it is filled, or nothing that it accepts is left. One that has
/// nothing left changes nothing.
pub proof fn lemma_sweep_wf(book: BookView, taker: OrderView)
    requires
        book.wf(),
        taker.symbol == book.symbol,
        taker.filled_quantity <= taker.quantity || !book.reaches(taker),
    ensures
        ({
            let swept = book.sweep(taker);
            &&& swept.book.wf()
            &&& swept.book.symbol == book.symbol
            &&& swept.book.next_sequence == book.next_sequence
            &&& swept.book.queue(taker.side) == book.queue(taker.side)
            &&& swept.book.levels(taker.side) == book.levels(taker.side)
            &&& swept.book.orders.dom() == book.orders.dom()
            &&& swept.order == (OrderView {
                filled_quantity: swept.order.filled_quantity,
                ..taker
            })
            &&& taker.filled_quantity <= swept.order.filled_quantity
            &&& taker.filled_quantity <= taker.quantity ==> swept.order.filled_quantity
                <= taker.quantity
            &&& swept.error is Some <==> book.reaches(taker) && taker.filled_quantity
                == taker.quantity
            &&& swept.error is Some || !book.reaches(taker) ==> swept.book == book && swept.order
                == taker
            &&& swept.error is None ==> swept.order.filled_quantity == taker.quantity
                || !swept.book.reaches(swept.order)
        }),
    decreases book.queue(taker.side.other()).dom().len(),
{
    let side = taker.side.other();
    let id = book.best(side);
    assert(book.queue_wf(side));
    if book.reaches(taker) && taker.filled_quantity < taker.quantity {
        lemma_pair_trades(book, taker);
        lemma_trade_wf(book, taker);
        let popped = book.dequeue(side, id);
        assert(popped.queue(side).dom() =~= book.queue(side).dom().remove(id));
        let (after, order) = book.trade_with(taker, id);
        assert(after.orders.dom() =~= book.orders.dom());
        if order.filled_quantity != order.quantity {
            assert(after.queue(side) == popped.queue(side));
            lemma_sweep_wf(after, order);
        }
    }
}

/// Where an order does not reach the other side, it accepts no price there.
pub proof fn lemma_unreached(book: BookView, order: OrderView, id: u128)
    requires
        book.wf(),
        !book.reaches(order),
        book.queue(order.side.other()).contains_key(id),
    ensures
        !order.accepts(book.queue(order.side.other())[id].0),
{
    let side = order.side.other();
    let best = book.best(side);
    assert(book.queue_wf(side));
    book.lemma_best_exists(side);
    assert(book.is_best(side, best));
    assert(!crate::book::ahead(side, book.queue(side)[id], book.queue(side)[best]));
}

/// Whether an order reaches the other side rests on its side and price and on the
/// queue that it meets.
pub proof fn lemma_reaches_same(a: BookView, b: BookView, order: OrderView, other: OrderView)
    requires
        order.side == other.side,
        order.price == other.price,
        a.queue_wf(order.side.other()),
        b.queue(order.side.other()) == a.queue(order.side.other()),
    ensures
        b.reaches(other) == a.reaches(order),
{
    let side = order.side.other();
    if !a.queue(side).is_empty() {
        a.lemma_best_exists(side);
        b.lemma_best_exists(side);
        let best = b.best(side);
        assert(a.is_best(side, best));
        lemma_best_is(a, side, best);
    }
}

/// A book without one of its orders is well-formed; an active order is always found,
/// and no other.
pub proof fn lemma_remove_wf(book: BookView, id: u128)
    requires
        book.wf(),
    ensures
        ({
            let (after, removed) = book.remove(id);
            &&& after.wf()
            &&& removed is Some <==> book.order_info.contains_key(id)
            &&& removed matches Some(order) ==> order == book.orders[id]
            &&& !after.order_info.contains_key(id)
            &&& !after.bids.contains_key(id) && !after.asks.contains_key(id)
            &&& differ_at(book, after, id)
        }),
{
    if book.order_info.contains_key(id) {
        let (side, price) = book.order_info[id];
        lemma_level_covers(book, side, id);
        let (after, _) = book.remove(id);
        assert(book.queue_wf(side) && book.queue_wf(side.other()));
        assert(book.levels_wf(side) && book.levels_wf(side.other()));
        assert(after.queue(side.other()) == book.queue(side.other()));
        assert(after.queue(side) =~= book.queue(side).remove(id));
        assert(after.levels(side.other()) == book.levels(side.other()));
        assert(differ_at(book, after, id));
        assert forall|s: Side, p: i64| #[trigger] after.level(s, p) == after.offered(s, p) by {
            lemma_offered_differ(book, after, s, p, id);
            assert(book.level(s, p) == book.offered(s, p));
        }
        assert(after.orders_wf());
        assert forall|s: Side, other: u128| #[trigger] after.queue(s).contains_key(other) implies {
            &&& after.queue(s)[other].1 < after.next_sequence
            &&& after.is_live(s, other)
            &&& after.order_info.contains_key(other)
            &&& after.order_info[other] == (s, after.queue(s)[other].0)
        } by {
            assert(book.queue(s).contains_key(other));
            assert(book.queue_wf(s));
        }
        assert(after.queue_wf(side) && after.queue_wf(side.other()));
        assert(after.levels_wf(side) && after.levels_wf(side.other()));
        assert(after.uncrossed());
        assert(after.accounted());
    } else {
        assert(book.queue_wf(Side::Buy) && book.queue_wf(Side::Sell));
    }
}

/// A book in which one more order has gone to rest is well-formed.
proof fn lemma_with_resting_wf(book: BookView, order: OrderView, price: i64)
    requires
        book.wf(),
        order.symbol == book.symbol,
        order.filled_quantity < order.quantity,
        order.price == Some(price),
        !book.order_info.contains_key(order.id),
        forall|other: u128| #[trigger]
            book.queue(order.side.other()).contains_key(other) ==> !order.accepts(
                book.queue(order.side.other())[other].0,
            ),
        book.level(order.side, price) + order.remaining() <= u64::MAX,
        book.next_sequence < u64::MAX,
    ensures
        book.with_resting(order, price).wf(),
{
    let after = book.with_resting(order, price);
    let side = order.side;
    let id = order.id;
    assert(book.queue_wf(side) && book.queue_wf(side.other()));
    assert(book.levels_wf(side) && book.levels_wf(side.other()));
    assert(!book.queue(side).contains_key(id) && !book.queue(side.other()).contains_key(id));
    assert(after.queue(side.other()) == book.queue(side.other()));
    assert(after.queue(side) == book.queue(side).insert(id, (price, book.next_sequence)));
    assert(after.levels(side.other()) == book.levels(side.other()));
    assert(differ_at(book, after, id));
    assert forall|s: Side, p: i64| #[trigger] after.level(s, p) == after.offered(s, p) by {
        lemma_offered_differ(book, after, s, p, id);
        assert(book.level(s, p) == book.offered(s, p));
    }
    assert(after.orders_wf());
    assert forall|s: Side, other: u128| #[trigger] after.queue(s).contains_key(other) implies {
        &&& after.queue(s)[other].1 < after.next_sequence
        &&& after.is_live(s, other)
        &&& after.order_info.contains_key(other)
        &&& after.order_info[other] == (s, after.queue(s)[other].0)
    } by {
        if other != id {
            assert(book.queue(s).contains_key(other));
            assert(book.queue_wf(s));
        }
    }
    assert(after.queue_wf(side) && after.queue_wf(side.other()));
    assert(after.levels_wf(side) && after.levels_wf(side.other()));
    assert(after.uncrossed()) by {
        assert forall|bid: u128, ask: u128| #[trigger]
            after.bids.contains_key(bid) && #[trigger] after.asks.contains_key(
                ask,
            ) implies after.bids[bid].0 < after.asks[ask].0 by {
            assert(book.queue(side.other()).contains_key(
                if side == Side::Buy {
                    ask
                } else {
                    bid
                },
            ));
            if bid != id && ask != id {
                assert(book.bids.contains_key(bid) && book.asks.contains_key(ask));
            }
        }
    }
    assert(after.accounted());
}

/// An order that reaches no one goes to rest in a well-formed book.
pub proof fn lemma_rest_wf(book: BookView, order: OrderView)
    requires
        book.wf(),
        order.symbol == book.symbol,
        !book.reaches(order),
        order.filled_quantity == order.quantity || book.has_room_for(order),
    ensures
        book.rest(order).book.wf(),
{
    if order.price is Some && order.remaining() != 0 {
        let price = order.price->0;
        let resting = OrderView { status: crate::model::OrderStatus::New, ..order };
        let cleared = book.remove(order.id).0;
        lemma_remove_wf(book, order.id);
        assert forall|other: u128| #[trigger]
            cleared.queue(order.side.other()).contains_key(other) implies !resting.accepts(
            cleared.queue(order.side.other())[other].0,
        ) by {
            assert(other != order.id);
            assert(book.queue(order.side.other()).contains_key(other));
            lemma_unreached(book, order, other);
        }
        lemma_with_resting_wf(cleared, resting, price);
    }
}

/// What executing an order leaves is well-formed. There is no error but the refusal
/// of a fill-or-kill order and that of an order with nothing left; otherwise the
/// order gets as far as it can.
pub proof fn lemma_market_wf(book: BookView, order: OrderView)
    requires
        book.wf(),
        order.symbol == book.symbol,
        order.order_type == OrderType::Market ==> order.price is None,
        book.may_execute(order),
    ensures
        ({
            let met = book.market(order);
            let refused = order.time_in_force == TimeInForce::FOK && book.available(order)
                < order.quantity;
            let idle = book.reaches(order) && order.filled_quantity == order.quantity;
            &&& met.book.wf()
            &&& met.book.symbol == book.symbol
            &&& met.book.next_sequence == book.next_sequence
            &&& met.book.queue(order.side) == book.queue(order.side)
            &&& met.book.levels(order.side) == book.levels(order.side)
            &&& met.book.orders.dom() == book.orders.dom()
            &&& met.order == (OrderView {
                filled_quantity: met.order.filled_quantity,
                status: met.order.status,
                ..order
            })
            &&& order.filled_quantity <= met.order.filled_quantity
            &&& order.filled_quantity <= order.quantity ==> met.order.filled_quantity
                <= order.quantity
            &&& met.error is Some <==> refused || idle
            &&& met.error is Some ==> met.book == (BookView { sent: met.book.sent, ..book })
                && met.order.filled_quantity == order.filled_quantity
            &&& met.error is None ==> met.order.filled_quantity == order.quantity
                || !met.book.reaches(met.order)
        }),
{
    lemma_notify_wf(book);
    if order.filled_quantity <= order.quantity || !book.reaches(order) {
        lemma_sweep_wf(book, order);
        let swept = book.sweep(order);
        lemma_notify_wf(swept.book);
        let met = book.market(order);
        if met.error is None {
            assert(met.book.queue(order.side.other()) == swept.book.queue(order.side.other()));
            lemma_reaches_same(swept.book, met.book, swept.order, met.order);
        }
    }
}

/// What a limit order leaves is well-formed.
pub proof fn lemma_limit_wf(book: BookView, order: OrderView)
    requires
        book.wf(),
        order.symbol == book.symbol,
        order.order_type == OrderType::Limit,
        book.may_execute(order),
        book.has_room_to_rest(order),
    ensures
        book.limit(order).book.wf(),
{
    lemma_market_wf(book, order);
    let met = book.market(order);
    lemma_notify_wf(book);
    lemma_notify_wf(met.book);
    if book.reaches(order) {
        if book.puts_to_rest(order) {
            lemma_rest_wf(met.book, met.order);
        }
    } else if order.time_in_force != TimeInForce::IOC && order.time_in_force != TimeInForce::FOK {
        lemma_rest_wf(book, order);
    }
}

/// Every incoming order leaves a well-formed book.
pub proof fn lemma_process_wf(book: BookView, order: OrderView)
    requires
        book.wf(),
        book.admits(order),
    ensures
        book.process(order).book.wf(),
{
    lemma_notify_wf(book);
    if book.objection(order) is None && !book.must_wait(order) {
        let trader = crate::book::effective(order);
        lemma_market_wf(book, trader);
        if trader.order_type == OrderType::Limit {
            lemma_limit_wf(book, trader);
        }
    }
}

/// Canceling an order leaves a well-formed book.
pub proof fn lemma_cancel_wf(book: BookView, id: u128)
    requires
        book.wf(),
    ensures
        book.cancel(id).0.wf(),
{
    lemma_remove_wf(book, id);
    lemma_notify_wf(book.remove(id).0);
}

/// Meeting the other side takes back nothing that was told.
pub proof fn lemma_sweep_tells(book: BookView, taker: OrderView)
    requires
        book.wf(),
        taker.symbol == book.symbol,
        taker.filled_quantity <= taker.quantity || !book.reaches(taker),
    ensures
        book.sent.is_prefix_of(book.sweep(taker).book.sent),
    decreases book.queue(taker.side.other()).dom().len(),
{
    let side = taker.side.other();
    let id = book.best(side);
    assert(book.queue_wf(side));
    if book.reaches(taker) && taker.filled_quantity < taker.quantity {
        lemma_pair_trades(book, taker);
        lemma_trade_wf(book, taker);
        let popped = book.dequeue(side, id);
        assert(popped.queue(side).dom() =~= book.queue(side).dom().remove(id));
        let (after, order) = book.trade_with(taker, id);
        if order.filled_quantity != order.quantity {
            assert(after.queue(side) == popped.queue(side));
            lemma_sweep_tells(after, order);
        }
    }
}

/// Going to rest tells of nothing.
proof fn lemma_rest_tells(book: BookView, order: OrderView)
    ensures
        book.rest(order).book.sent == book.sent,
        book.rest(order).book.symbol == book.symbol,
{
    let cleared = book.remove(order.id).0;
    assert(cleared.sent == book.sent && cleared.symbol == book.symbol);
}

/// Executing an order takes back nothing that was told.
proof fn lemma_market_tells(book: BookView, order: OrderView)
    requires
        book.wf(),
        order.symbol == book.symbol,
        order.order_type == OrderType::Market ==> order.price is None,
        book.may_execute(order),
    ensures
        book.sent.is_prefix_of(book.market(order).book.sent),
        book.market(order).book.symbol == book.symbol,
{
    if order.filled_quantity <= order.quantity || !book.reaches(order) {
        lemma_sweep_tells(book, order);
        lemma_sweep_wf(book, order);
    }
}

/// A limit order takes back nothing that was told.
proof fn lemma_limit_tells(book: BookView, order: OrderView)
    requires
        book.wf(),
        order.symbol == book.symbol,
        order.order_type == OrderType::Limit,
        book.may_execute(order),
    ensures
        book.sent.is_prefix_of(book.limit(order).book.sent),
        book.limit(order).book.symbol == book.symbol,
{
    let met = book.market(order);
    lemma_market_tells(book, order);
    lemma_rest_tells(book, order);
    lemma_rest_tells(met.book, met.order);
}

/// An incoming order takes back nothing that was told.
pub proof fn lemma_process_tells(book: BookView, order: OrderView)
    requires
        book.wf(),
        book.admits(order),
    ensures
        book.sent.is_prefix_of(book.process(order).book.sent),
        book.process(order).book.symbol == book.symbol,
{
    let trader = crate::book::effective(order);
    if book.objection(order) is None && !book.must_wait(order) {
        lemma_market_tells(book, trader);
        if trader.order_type == OrderType::Limit {
            lemma_limit_tells(book, trader);
        }
    }
}

/// Canceling orders leaves a well-formed book and takes back nothing that was told.
pub proof fn lemma_cancel_each_wf(book: BookView, ids: Seq<u128>)
    requires
        book.wf(),
    ensures
        book.cancel_each(ids).0.wf(),
        book.sent.is_prefix_of(book.cancel_each(ids).0.sent),
    decreases ids.len(),
{
    if ids.len() != 0 {
        lemma_cancel_each_wf(book, ids.drop_last());
        lemma_cancel_wf(book.cancel_each(ids.drop_last()).0, ids.last());
    }
}

} // verus!
