//! How much a book has on offer, and what a trade takes from it.

use crate::book::BookView;
use crate::model::{OrderView, Side};
use vstd::prelude::*;

verus! {

impl BookView {
    /// The quantity of all price levels of a side.
    pub open spec fn total(self, side: Side) -> nat {
        crate::sums::sum_over(
            self.levels(side).dom(),
            |price: i64| self.levels(side)[price] as nat,
        )
    }

    /// What is left of all orders that are queued on a side.
    pub open spec fn resting(self, side: Side) -> nat {
        crate::sums::sum_over(
            self.queue(side).dom(),
            |id: u128| self.orders[id].remaining() as nat,
        )
    }

    /// The orders of a side as they come out when the first is taken out until none
    /// is left.
    pub open spec fn taken_out(self, side: Side) -> Seq<u128>
        decreases self.queue(side).dom().len(),
        when self.queue(side).dom().finite()
    {
        if self.queue(side).is_empty() {
            Seq::empty()
        } else {
            proof {
                self.lemma_best_exists(side);
                assert(self.dequeue(side, self.best(side)).queue(side).dom() =~= self.queue(
                    side,
                ).dom().remove(self.best(side)));
            }
            seq![self.best(side)] + self.dequeue(side, self.best(side)).taken_out(side)
        }
    }
}

/// The levels of a side of a book hold what is left of the orders that
/// are queued on it.
pub proof fn lemma_total_is_resting(book: BookView, side: Side)
    requires
        book.wf(),
    ensures
        book.total(side) == book.resting(side),
{
    let ids = book.queue(side).dom();
    let prices = book.levels(side).dom();
    let label = |id: u128| book.queue(side)[id].0;
    let weight = |id: u128| book.orders[id].remaining() as nat;
    assert(book.queue_wf(side) && book.levels_wf(side) && book.queue_wf(side));
    assert forall|id: u128| #[trigger] ids.contains(id) implies prices.contains(label(id)) by {
        assert(book.queue(side).contains_key(id));
        assert(book.is_live(side, id));
        crate::invariants::lemma_level_covers(book, side, id);
    }
    crate::sums::lemma_sum_gather(ids, prices, label, weight);
    let gathered = |price: i64|
        crate::sums::sum_over(ids, |id: u128| if label(id) == price { weight(id) } else { 0 });
    let level = |price: i64| book.levels(side)[price] as nat;
    assert forall|price: i64| #[trigger] prices.contains(price) implies gathered(price) == level(
        price,
    ) by {
        assert(book.levels(side).contains_key(price));
        assert(book.level(side, price) == book.offered(side, price));
        let f = |id: u128| if label(id) == price { weight(id) } else { 0 };
        let g = |id: u128| book.offer(side, price, id);
        assert forall|id: u128| #[trigger] ids.contains(id) implies f(id) == g(id) by {
            assert(book.queue(side).contains_key(id));
            assert(book.is_live(side, id));
        }
        crate::sums::lemma_sum_same(ids, f, g);
    }
    crate::sums::lemma_sum_same(prices, gathered, level);
}

/// To an order that names no price, all of the other side is available.
pub proof fn lemma_available_is_total(book: BookView, order: OrderView)
    requires
        order.price is None,
    ensures
        book.available(order) == book.total(order.side.other()),
{
    let levels = book.levels(order.side.other());
    let f = |price: i64|
        if order.accepts(price) {
            levels[price] as nat
        } else {
            0
        };
    let g = |price: i64| levels[price] as nat;
    assert(f =~= g);
}

/// The total of a side grows by what goes to rest on it.
pub proof fn lemma_total_after_rest(book: BookView, order: OrderView)
    requires
        book.wf(),
        !book.order_info.contains_key(order.id),
        order.filled_quantity <= order.quantity,
        order.price matches Some(price) && book.level(order.side, price) + order.remaining()
            <= u64::MAX,
    ensures
        book.rest(order).book.total(order.side) == book.total(order.side) + order.remaining(),
        book.rest(order).book.total(order.side.other()) == book.total(order.side.other()),
{
    let side = order.side;
    let price = order.price->0;
    let after = book.rest(order).book;
    let buyer = OrderView { price: None, side: side.other(), ..order };
    assert(book.levels_wf(side));
    assert(side.other().other() == side);
    assert(after.levels(side).remove(price) =~= book.levels(side).remove(price));
    lemma_accepted_level(buyer, book.levels(side), after.levels(side), price);
    lemma_available_is_total(book, buyer);
    lemma_available_is_total(after, buyer);
    assert(after.levels(side.other()) == book.levels(side.other()));
}

/// The orders of a side come out by price and, at the same price, by sequence; each
/// comes out once.
pub proof fn lemma_taken_out_in_order(book: BookView, side: Side)
    requires
        book.queue_wf(side),
    ensures
        ({
            let out = book.taken_out(side);
            &&& forall|id: u128| #[trigger] out.contains(id) <==> book.queue(side).contains_key(id)
            &&& forall|i: int, j: int|
                0 <= i < j < out.len() ==> crate::book::ahead(
                    side,
                    book.queue(side)[#[trigger] out[i]],
                    book.queue(side)[#[trigger] out[j]],
                )
        }),
    decreases book.queue(side).dom().len(),
{
    let out = book.taken_out(side);
    if !book.queue(side).is_empty() {
        let best = book.best(side);
        let after = book.dequeue(side, best);
        let rest = after.taken_out(side);
        book.lemma_best_exists(side);
        assert(after.queue(side).dom() =~= book.queue(side).dom().remove(best));
        assert forall|id: u128| #[trigger] after.is_live(side, id) implies book.is_live(
            side,
            id,
        ) by {}
        assert(after.queue_wf(side));
        lemma_taken_out_in_order(after, side);
        assert forall|id: u128| #[trigger] out.contains(id) <==> book.queue(side).contains_key(
            id,
        ) by {
            assert(out[0] == best);
            if rest.contains(id) {
                assert(out[rest.index_of(id) + 1] == id);
            }
            if out.contains(id) && id != best {
                assert(rest[out.index_of(id) - 1] == id);
            }
            assert(rest.contains(id) <==> after.queue(side).contains_key(id));
        }
        assert forall|i: int, j: int| 0 <= i < j < out.len() implies crate::book::ahead(
            side,
            book.queue(side)[#[trigger] out[i]],
            book.queue(side)[#[trigger] out[j]],
        ) by {
            assert(out[j] == rest[j - 1]);
            assert(rest.contains(out[j]));
            assert(after.queue(side).contains_key(out[j]));
            if i == 0 {
                assert(book.queue(side).contains_key(out[j]));
                assert(!crate::book::ahead(
                    side,
                    book.queue(side)[out[j]],
                    book.queue(side)[best],
                ));
                assert(book.queue(side)[out[j]].1 == book.queue(side)[best].1 ==> out[j] == best);
            } else {
                assert(out[i] == rest[i - 1]);
                assert(rest.contains(out[i]));
                assert(after.queue(side).contains_key(out[i]));
            }
        }
    } else {
        assert(out =~= Seq::empty());
    }
}

/// Where one level changes, the quantity that an order accepts changes by the same
/// amount if it accepts the price, and not at all if it does not.
proof fn lemma_accepted_level(
    order: OrderView,
    before: Map<i64, u64>,
    after: Map<i64, u64>,
    price: i64,
)
    requires
        before.dom().finite(),
        after.remove(price) == before.remove(price),
        order.accepts(price),
    ensures
        crate::book::quantity_accepted(order, after) + (if before.contains_key(price) {
            before[price] as nat
        } else {
            0
        }) == crate::book::quantity_accepted(order, before) + (if after.contains_key(price) {
            after[price] as nat
        } else {
            0
        }),
{
    let f = |p: i64|
        if order.accepts(p) {
            before[p] as nat
        } else {
            0
        };
    let g = |p: i64|
        if order.accepts(p) {
            after[p] as nat
        } else {
            0
        };
    let others = before.dom().remove(price);
    assert(before.remove(price).dom() =~= others);
    assert(after.remove(price).dom() =~= after.dom().remove(price));
    assert(after.dom() =~= if after.contains_key(price) {
        others.insert(price)
    } else {
        others
    });
    assert forall|p: i64| #[trigger] others.contains(p) implies f(p) == g(p) by {
        assert(before.remove(price)[p] == before[p]);
        assert(after.remove(price)[p] == after[p]);
    }
    crate::sums::lemma_sum_same(others, f, g);
    if before.contains_key(price) {
        crate::sums::lemma_sum_remove(before.dom(), f, price);
    } else {
        assert(others =~= before.dom());
    }
    if after.contains_key(price) {
        crate::sums::lemma_sum_insert(others, g, price);
    }
}

/// What is available to an order rests on its side and its price only.
proof fn lemma_accepted_same(a: OrderView, b: OrderView, levels: Map<i64, u64>)
    requires
        a.side == b.side,
        a.price == b.price,
    ensures
        crate::book::quantity_accepted(a, levels) == crate::book::quantity_accepted(b, levels),
{
    let f = |price: i64|
        if a.accepts(price) {
            levels[price] as nat
        } else {
            0
        };
    let g = |price: i64|
        if b.accepts(price) {
            levels[price] as nat
        } else {
            0
        };
    assert(f =~= g);
}

/// Where an order does not reach the other side of a book, nothing is
/// available to it.
pub proof fn lemma_nothing_available(book: BookView, order: OrderView)
    requires
        book.wf(),
        !book.reaches(order),
    ensures
        book.available(order) == 0,
{
    let side = order.side.other();
    let levels = book.levels(side);
    assert(book.queue_wf(side) && book.levels_wf(side) && book.queue_wf(side));
    let f = |price: i64|
        if order.accepts(price) {
            levels[price] as nat
        } else {
            0
        };
    assert forall|price: i64| #[trigger] levels.dom().contains(price) implies f(price) == 0 by {
        if order.accepts(price) {
            assert(levels.contains_key(price));
            assert(book.level(side, price) == book.offered(side, price));
            let offer = |id: u128| book.offer(side, price, id);
            if forall|id: u128| #[trigger] book.queue(side).dom().contains(id) ==> offer(id) == 0 {
                crate::sums::lemma_sum_zero(book.queue(side).dom(), offer);
            } else {
                let id = choose|id: u128| #[trigger]
                    book.queue(side).dom().contains(id) && offer(id) != 0;
                assert(book.queue(side)[id].0 == price);
                book.lemma_best_exists(side);
                let best = book.best(side);
                assert(book.is_best(side, best));
                assert(book.queue(side).contains_key(id));
                assert(!crate::book::ahead(side, book.queue(side)[id], book.queue(side)[best]));
            }
        }
    }
    crate::sums::lemma_sum_zero(levels.dom(), f);
}

/// A trade takes what it trades from what is available.
proof fn lemma_available_after_trade(book: BookView, taker: OrderView)
    requires
        book.wf(),
        taker.symbol == book.symbol,
        taker.filled_quantity < taker.quantity,
        book.reaches(taker),
    ensures
        ({
            let id = book.best(taker.side.other());
            let (after, order) = book.trade_with(taker, id);
            after.available(order) + order.filled_quantity == book.available(taker)
                + taker.filled_quantity
        }),
{
    let side = taker.side.other();
    let id = book.best(side);
    assert(book.queue_wf(side) && book.levels_wf(side) && book.queue_wf(side));
    crate::invariants::lemma_pair_trades(book, taker);
    crate::invariants::lemma_level_covers(book, side, id);
    let price = book.queue(side)[id].0;
    let (after, order) = book.trade_with(taker, id);
    assert(after.levels(side).remove(price) =~= book.levels(side).remove(price));
    lemma_accepted_level(taker, book.levels(side), after.levels(side), price);
    lemma_accepted_same(taker, order, after.levels(side));
}

/// An order gets all that is available to it, up to its own
/// quantity.
pub proof fn lemma_sweep_takes_available(book: BookView, taker: OrderView)
    requires
        book.wf(),
        taker.symbol == book.symbol,
        taker.filled_quantity <= taker.quantity,
    ensures
        book.sweep(taker).order.filled_quantity == taker.filled_quantity + if book.available(taker)
            < taker.remaining() {
            book.available(taker) as int
        } else {
            taker.remaining()
        },
    decreases book.queue(taker.side.other()).dom().len(),
{
    let side = taker.side.other();
    let id = book.best(side);
    assert(book.queue_wf(side));
    if book.reaches(taker) && taker.filled_quantity < taker.quantity {
        crate::invariants::lemma_pair_trades(book, taker);
        crate::invariants::lemma_trade_wf(book, taker);
        lemma_available_after_trade(book, taker);
        let popped = book.dequeue(side, id);
        assert(popped.queue(side).dom() =~= book.queue(side).dom().remove(id));
        let (after, order) = book.trade_with(taker, id);
        if order.filled_quantity != order.quantity {
            assert(after.queue(side) == popped.queue(side));
            lemma_sweep_takes_available(after, order);
        }
    } else if !book.reaches(taker) {
        lemma_nothing_available(book, taker);
    }
}

/// The price levels that an order accepts lose what the order
/// is filled by.
pub proof fn lemma_sweep_available(book: BookView, taker: OrderView)
    requires
        book.wf(),
        taker.symbol == book.symbol,
        taker.filled_quantity <= taker.quantity,
    ensures
        ({
            let swept = book.sweep(taker);
            swept.book.available(taker) + swept.order.filled_quantity == book.available(taker)
                + taker.filled_quantity
        }),
    decreases book.queue(taker.side.other()).dom().len(),
{
    let side = taker.side.other();
    let id = book.best(side);
    assert(book.queue_wf(side));
    if book.reaches(taker) && taker.filled_quantity < taker.quantity {
        crate::invariants::lemma_pair_trades(book, taker);
        crate::invariants::lemma_trade_wf(book, taker);
        lemma_available_after_trade(book, taker);
        let popped = book.dequeue(side, id);
        assert(popped.queue(side).dom() =~= book.queue(side).dom().remove(id));
        let (after, order) = book.trade_with(taker, id);
        lemma_accepted_same(taker, order, after.levels(side));
        if order.filled_quantity != order.quantity {
            assert(after.queue(side) == popped.queue(side));
            lemma_sweep_available(after, order);
            lemma_accepted_same(taker, order, book.sweep(taker).book.levels(side));
        }
    }
}

} // verus!
