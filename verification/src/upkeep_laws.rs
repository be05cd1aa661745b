//! What can be relied on of a book between orders: of its levels and best prices, of
//! cancellation and expiry, and of the messages that bring them about.

use crate::book::BookView;
use crate::calendar::Timestamp;
use crate::error::ErrorView;
use crate::model::{MessageView, OrderStatus, OrderView, Side, TimeInForce};
use crate::router::RouterView;
use crate::time::{ClockView, TimeScale};
use vstd::prelude::*;

verus! {

/// What each order of a queue still wants to trade at a price.
pub open spec fn wants(
    book: BookView,
    queue: Map<u128, (i64, u64)>,
    price: i64,
) -> spec_fn(u128) -> nat {
    |id: u128|
        if queue[id].0 == price {
            (book.orders[id].quantity - book.orders[id].filled_quantity) as nat
        } else {
            0
        }
}

/// What the orders of a queue still want to trade at a price.
pub open spec fn wanted_at(
    book: BookView,
    queue: Map<u128, (i64, u64)>,
    price: i64,
) -> nat {
    crate::sums::sum_over(queue.dom(), wants(book, queue, price))
}

/// The quantity at a price is what the orders that are queued there still want to
/// trade; where they want nothing, there is no level.
pub proof fn law_levels_are_what_is_wanted(book: BookView, price: i64)
    requires
        book.wf(),
    ensures
        book.level(Side::Buy, price) == wanted_at(book, book.bids, price),
        book.level(Side::Sell, price) == wanted_at(book, book.asks, price),
        book.bid_quantities.contains_key(price) <==> wanted_at(book, book.bids, price) > 0,
        book.ask_quantities.contains_key(price) <==> wanted_at(book, book.asks, price) > 0,
        book.bid_quantities.contains_key(price) ==> book.bid_quantities[price] == wanted_at(
            book,
            book.bids,
            price,
        ),
        book.ask_quantities.contains_key(price) ==> book.ask_quantities[price] == wanted_at(
            book,
            book.asks,
            price,
        ),
{
    lemma_wanted(book, Side::Buy, price);
    lemma_wanted(book, Side::Sell, price);
    assert(book.levels(Side::Buy) == book.bid_quantities);
    assert(book.levels(Side::Sell) == book.ask_quantities);
    assert(book.levels_wf(Side::Buy) && book.levels_wf(Side::Sell));
}

/// What is offered at a price is what is wanted there.
proof fn lemma_wanted(book: BookView, side: Side, price: i64)
    requires
        book.wf(),
    ensures
        book.level(side, price) == wanted_at(book, book.queue(side), price),
{
    let queue = book.queue(side);
    assert(book.queue_wf(side) && book.levels_wf(side));
    assert(book.level(side, price) == book.offered(side, price));
    let f = |id: u128| book.offer(side, price, id);
    let g = wants(book, queue, price);
    assert forall|id: u128| #[trigger] queue.dom().contains(id) implies f(id) == g(id) by {
        assert(queue.contains_key(id));
        assert(book.is_live(side, id));
    }
    crate::sums::lemma_sum_same(queue.dom(), f, g);
}

/// The best bid is the highest that is queued and the best ask the lowest; there is
/// one wherever anyone is queued.
pub proof fn law_best_prices_are_the_best(book: BookView, id: u128)
    requires
        book.wf(),
    ensures
        book.best_price(Side::Buy) is None ==> !book.bids.contains_key(id),
        book.best_price(Side::Sell) is None ==> !book.asks.contains_key(id),
        book.best_price(Side::Buy) matches Some(best) ==> (book.bids.contains_key(id)
            ==> book.bids[id].0 <= best),
        book.best_price(Side::Sell) matches Some(best) ==> (book.asks.contains_key(id)
            ==> book.asks[id].0 >= best),
        book.best_price(Side::Buy) matches Some(best) ==> exists|one: u128| #[trigger]
            book.bids.contains_key(one) && book.bids[one].0 == best,
        book.best_price(Side::Sell) matches Some(best) ==> exists|one: u128| #[trigger]
            book.asks.contains_key(one) && book.asks[one].0 == best,
{
    assert(book.queue_wf(Side::Buy) && book.queue_wf(Side::Sell));
    assert(book.queue(Side::Buy) == book.bids && book.queue(Side::Sell) == book.asks);
    assert(book.bids.contains_key(id) ==> book.bids.dom().contains(id));
    assert(book.asks.contains_key(id) ==> book.asks.dom().contains(id));
    if !book.bids.is_empty() {
        book.lemma_best_exists(Side::Buy);
        let best = book.best(Side::Buy);
        assert(book.is_best(Side::Buy, best));
        assert(book.bids.contains_key(best));
        assert(book.queue(Side::Buy).contains_key(id) ==> !crate::book::ahead(
            Side::Buy,
            book.bids[id],
            book.bids[best],
        ));
    }
    if !book.asks.is_empty() {
        book.lemma_best_exists(Side::Sell);
        let best = book.best(Side::Sell);
        assert(book.is_best(Side::Sell, best));
        assert(book.asks.contains_key(best));
        assert(book.queue(Side::Sell).contains_key(id) ==> !crate::book::ahead(
            Side::Sell,
            book.asks[id],
            book.asks[best],
        ));
    }
}

/// Canceling an active order takes it out of the book, wherever it is in it, and tells
/// once that it is canceled and by how much it is filled. Its level loses what was
/// left of it. Nothing else changes.
pub proof fn law_cancellation_is_exact(book: BookView, id: u128, price: i64)
    requires
        book.wf(),
        book.order_info.contains_key(id),
    ensures
        ({
            let (after, error) = book.cancel(id);
            let order = book.orders[id];
            &&& error is None
            &&& after.orders == book.orders.remove(id)
            &&& after.order_info == book.order_info.remove(id)
            &&& after.bids == book.bids.remove(id)
            &&& after.asks == book.asks.remove(id)
            &&& after.sent == book.sent.push(
                MessageView::OrderUpdate {
                    order_id: id,
                    status: OrderStatus::Canceled,
                    filled_qty: order.filled_quantity,
                    symbol: book.symbol,
                },
            )
            &&& after.symbol == book.symbol
            &&& after.next_sequence == book.next_sequence
            &&& after.last_prices == book.last_prices
            &&& after.level(order.side, price) == book.level(order.side, price) - if order.price
                == Some(price) {
                order.quantity - order.filled_quantity
            } else {
                0
            }
            &&& after.level(order.side.other(), price) == book.level(order.side.other(), price)
        }),
{
    let (side, at) = book.order_info[id];
    let after = book.cancel(id).0;
    crate::invariants::lemma_level_covers(book, side, id);
    assert(after.queue(side.other()) == book.queue(side.other()));
    assert(!book.queue(side.other()).contains_key(id));
    assert(after.bids =~= book.bids.remove(id));
    assert(after.asks =~= book.asks.remove(id));
}

/// Canceling an order that is not active is an error that names it and changes
/// nothing.
pub proof fn law_unknown_orders_cannot_be_canceled(book: BookView, id: u128)
    requires
        !book.order_info.contains_key(id),
    ensures
        book.cancel(id) == (
            book,
            Some(ErrorView::OrderNotFound(crate::identity::id_text(id))),
        ),
{
}

/// Whether the time of an order is over: its date has come, or the day that it was
/// created on is past.
pub open spec fn is_over(order: OrderView, now: Timestamp) -> bool {
    match order.time_in_force {
        TimeInForce::GTD(date) => date.secs < now.secs || (date.secs == now.secs && date.nanos
            <= now.nanos),
        TimeInForce::DAY => order.created_at.secs / 86_400 < now.secs / 86_400,
        _ => false,
    }
}

/// A check for expired orders takes out exactly the active orders whose time is over,
/// wherever they are in the book, and leaves every other order as it was and where it
/// was. It never fails.
pub proof fn law_only_what_is_over_expires(
    book: BookView,
    now: Timestamp,
    after: BookView,
    error: Option<ErrorView>,
    id: u128,
)
    requires
        book.wf(),
        book.expires_to(now, after, error),
    ensures
        error is None,
        ({
            let expires = book.order_info.contains_key(id) && is_over(book.orders[id], now);
            &&& expires ==> {
                &&& !after.orders.contains_key(id)
                &&& !after.order_info.contains_key(id)
                &&& !after.bids.contains_key(id)
                &&& !after.asks.contains_key(id)
            }
            &&& !expires ==> {
                &&& after.orders.get(id) == book.orders.get(id)
                &&& after.order_info.contains_key(id) == book.order_info.contains_key(id)
                &&& after.bids.get(id) == book.bids.get(id)
                &&& after.asks.get(id) == book.asks.get(id)
            }
        }),
        after.wf(),
{
    crate::laws::law_expiry_is_exact(book, now, after, error);
    let expires = book.order_info.contains_key(id) && is_over(book.orders[id], now);
    assert(book.is_expired(id, now) <==> expires) by {
        if book.order_info.contains_key(id) {
            assert(book.orders.contains_key(id));
        }
    }
    let ids = choose|ids: Seq<u128>| #[trigger]
        book.lists_expired(ids, now) && book.cancel_each(ids) == (after, error);
    crate::laws::lemma_cancel_each(book, ids);
    assert(ids.contains(id) <==> expires);
    assert(after.orders.contains_key(id) <==> book.orders.contains_key(id) && !expires);
    assert(after.order_info.contains_key(id) <==> book.order_info.contains_key(id) && !expires);
    if expires {
        assert(after.queue_wf(Side::Buy) && after.queue_wf(Side::Sell));
        assert(!after.queue(Side::Buy).contains_key(id));
        assert(!after.queue(Side::Sell).contains_key(id));
    } else {
        assert(crate::laws::same_place(book, after, id));
    }
}

/// A check for expired orders tells of each that it takes out, once, that it is
/// canceled and by how much it is filled, and of nothing else.
pub proof fn law_expiry_is_told(
    book: BookView,
    now: Timestamp,
    after: BookView,
    error: Option<ErrorView>,
) -> (ids: Seq<u128>)
    requires
        book.wf(),
        book.expires_to(now, after, error),
    ensures
        ids.no_duplicates(),
        forall|id: u128| #[trigger]
            ids.contains(id) <==> book.order_info.contains_key(id) && is_over(book.orders[id], now),
        after.sent.len() == book.sent.len() + ids.len(),
        book.sent.is_prefix_of(after.sent),
        forall|i: int|
            #![trigger ids[i]]
            0 <= i < ids.len() ==> after.sent[book.sent.len() + i] == (MessageView::OrderUpdate {
                order_id: ids[i],
                status: OrderStatus::Canceled,
                filled_qty: book.orders[ids[i]].filled_quantity,
                symbol: book.symbol,
            }),
{
    crate::laws::law_expiry_is_exact(book, now, after, error);
    let ids = choose|ids: Seq<u128>| #[trigger]
        book.lists_expired(ids, now) && after.sent == book.sent + crate::laws::cancellations(
            book,
            ids,
        );
    assert forall|id: u128| #[trigger]
        ids.contains(id) <==> book.order_info.contains_key(id) && is_over(
            book.orders[id],
            now,
        ) by {
        assert(ids.contains(id) <==> book.is_expired(id, now));
        if book.order_info.contains_key(id) {
            assert(book.orders.contains_key(id));
        }
    }
    assert(after.sent.len() == book.sent.len() + ids.len());
    ids
}

/// A heartbeat makes a book check for expired orders, at the time that the clock shows
/// for some reading of the real time; by a fixed clock, at the time that it stands at.
/// A clock that shows no time leaves the book as it was.
pub proof fn law_heartbeats_expire_orders(
    before: BookView,
    clock: ClockView,
    beat: Timestamp,
    after: BookView,
    clock_after: ClockView,
) -> (now: Timestamp)
    requires
        before.wf(),
        crate::order_book::handled(
            before,
            clock,
            MessageView::Heartbeat(beat),
            after,
            clock_after,
        ),
    ensures
        clock.scale == TimeScale::Fixed ==> now == clock.current_time && clock_after == clock,
        after == before || exists|error: Option<ErrorView>| #[trigger]
            before.expires_to(now, after, error),
        clock.scale == TimeScale::Fixed ==> exists|error: Option<ErrorView>| #[trigger]
            before.expires_to(now, after, error),
        clock.scale == TimeScale::Slow(0) ==> after == before && clock_after == clock,
        clock.scale != TimeScale::Fixed && !(exists|error: Option<ErrorView>| #[trigger]
            before.expires_to(now, after, error)) ==> exists|real_now: Timestamp| #[trigger]
            real_now.is_reading() && clock.time_at(real_now) is None,
        exists|real_now: Timestamp| #[trigger]
            real_now.is_reading() && (clock.time_at(real_now) is None || clock.time_at(real_now)
                == Some(now) && clock_after.current_time == now),
{
    let (real_now, error) = choose|real_now: Timestamp, error: Option<ErrorView>|
        real_now.is_reading() && clock_after == clock.updated(real_now)
            && #[trigger] crate::order_book::expiry_checked(before, clock, real_now, after, error);
    assert(real_now.is_reading());
    if clock.time_at(real_now) is Some {
        assert(before.expires_to(clock.time_at(real_now)->0, after, error));
        clock.time_at(real_now)->0
    } else {
        clock.current_time
    }
}

/// An order that comes in as a message is processed, and a cancellation carried out;
/// one that fails is answered with one rejection, with nothing filled, behind what was
/// told until then. The clock is not touched.
pub proof fn law_requests_are_carried_out_and_answered(
    before: BookView,
    clock: ClockView,
    message: MessageView,
    after: BookView,
    clock_after: ClockView,
)
    requires
        crate::order_book::handled(before, clock, message, after, clock_after),
        !(message is Heartbeat),
    ensures
        clock_after == clock,
        message matches MessageView::SubmitOrder(order) ==> {
            let outcome = before.process(order);
            let answer = MessageView::OrderUpdate {
                order_id: order.id,
                status: OrderStatus::Rejected,
                filled_qty: 0,
                symbol: outcome.book.symbol,
            };
            &&& outcome.error is None ==> after == outcome.book
            &&& outcome.error is Some ==> after == (BookView {
                sent: outcome.book.sent.push(answer),
                ..outcome.book
            })
        },
        message matches MessageView::CancelOrder(id) ==> {
            let (book, error) = before.cancel(id);
            let answer = MessageView::OrderUpdate {
                order_id: id,
                status: OrderStatus::Rejected,
                filled_qty: 0,
                symbol: book.symbol,
            };
            &&& error is None ==> after == book
            &&& error is Some ==> after == (BookView { sent: book.sent.push(answer), ..book })
        },
        message is OrderUpdate || message is Trade ==> after == before,
{
}

/// The line that describes an error names its kind and then gives its text as it is.
pub proof fn law_errors_are_described(text: Seq<char>)
    ensures
        ErrorView::InvalidOrder(text).message() == "Invalid order: "@ + text,
        ErrorView::SymbolNotFound(text).message() == "Symbol not found: "@ + text,
        ErrorView::OrderNotFound(text).message() == "Order not found: "@ + text,
        ErrorView::InsufficientLiquidity.message() == "Insufficient liquidity"@,
        ErrorView::TimeInForceViolation(text).message() == "Time-in-force violation: "@ + text,
        ErrorView::ChannelSendError(text).message() == "Channel send error: "@ + text,
        ErrorView::ChannelReceiveError(text).message() == "Channel receive error: "@ + text,
        ErrorView::TimeError(text).message() == "Time error: "@ + text,
        ErrorView::InternalError(text).message() == "Internal error: "@ + text,
        ErrorView::IoError(text).message() == "IO error: "@ + text,
{
}

/// A second order book for a symbol is refused with an error that names the symbol.
pub proof fn law_second_books_are_refused_by_name(symbol: Seq<char>)
    ensures
        crate::router::already_exists(symbol) == ErrorView::InternalError(
            "Order book for "@ + symbol + " already exists"@,
        ),
{
}

/// A list of all order books has the handle of each book in it, once, and no other.
pub proof fn law_every_book_is_listed(router: RouterView, handles: Seq<usize>, symbol: Seq<char>)
    requires
        router.lists_books(handles),
    ensures
        router.books.contains_key(symbol) ==> handles.contains(router.books[symbol]),
        forall|i: int, j: int|
            0 <= i < j < handles.len() ==> #[trigger] handles[i] != #[trigger] handles[j],
        forall|i: int|
            #![trigger handles[i]]
            0 <= i < handles.len() ==> router.books.contains_value(handles[i]),
{
    if router.books.contains_key(symbol) {
        assert(router.books.contains_value(router.books[symbol]));
    }
    assert forall|i: int| #![trigger handles[i]] 0 <= i < handles.len() implies
        router.books.contains_value(handles[i]) by {
        assert(handles.contains(handles[i]));
    }
}

/// Names repeat exactly where one of them is the first to repeat an earlier one, and
/// only one of them is.
pub proof fn law_repetitions_are_found(names: Seq<Seq<char>>, a: int, b: int)
    ensures
        names.no_duplicates() ==> !crate::exchange::first_repetition(names, a),
        !names.no_duplicates() ==> exists|n: int| #[trigger]
            crate::exchange::first_repetition(names, n),
        crate::exchange::first_repetition(names, a) ==> exists|i: int|
            0 <= i < a && #[trigger] names[i] == names[a],
        crate::exchange::first_repetition(names, a) && crate::exchange::first_repetition(names, b)
            ==> a == b,
{
    assert forall|n: int| #[trigger] crate::exchange::first_repetition(names, n) implies exists|
        i: int,
    | 0 <= i < n && #[trigger] names[i] == names[n] by {
        let i = names.take(n).index_of(names[n]);
        assert(names[i] == names[n]);
    }
    if !names.no_duplicates() {
        assert(names.take(names.len() as int) =~= names);
        lemma_first_repetition(names, names.len() as int);
    }
    if crate::exchange::first_repetition(names, a) && crate::exchange::first_repetition(names, b)
        && a != b {
        let (early, late) = if a < b {
            (a, b)
        } else {
            (b, a)
        };
        let i = choose|i: int| 0 <= i < early && #[trigger] names[i] == names[early];
        assert(names.take(late)[i] == names.take(late)[early]);
    }
}

/// Where names repeat, one of them is the first to repeat.
proof fn lemma_first_repetition(names: Seq<Seq<char>>, n: int)
    requires
        0 <= n <= names.len(),
        !names.take(n).no_duplicates(),
    ensures
        exists|k: int| #[trigger] crate::exchange::first_repetition(names, k),
    decreases n,
{
    let m = n - 1;
    if n == 0 {
        assert(names.take(0).no_duplicates());
    } else if names.take(m).no_duplicates() {
        let earlier = names.take(m);
        if !earlier.contains(names[m]) {
            assert forall|i: int, j: int| 0 <= i < j < n implies names.take(n)[i]
                != names.take(n)[j] by {
                if j == m {
                    assert(earlier[i] == names[i]);
                } else {
                    assert(earlier[i] == names[i] && earlier[j] == names[j]);
                }
            }
            assert(names.take(n).no_duplicates());
        }
        assert(crate::exchange::first_repetition(names, m));
    } else {
        lemma_first_repetition(names, m);
    }
}

} // verus!
