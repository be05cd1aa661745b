//! What can be relied on when an order comes into a book, in terms of what the order
//! says, of who is queued, and of what is told.

use crate::book::BookView;
use crate::error::ErrorView;
use crate::model::{MessageView, OrderStatus, OrderType, OrderView, Side, TimeInForce, TradeView};
use vstd::prelude::*;

verus! {

/// The orders that an order of a side meets, each with its price and its sequence
/// number.
pub open spec fn met_by(book: BookView, side: Side) -> Map<u128, (i64, u64)> {
    if side == Side::Buy {
        book.asks
    } else {
        book.bids
    }
}

/// Whether an order trades at whatever price the market has.
pub open spec fn takes_any_price(order: OrderView) -> bool {
    order.order_type == OrderType::Market || order.order_type == OrderType::StopLoss
}

/// Whether a price suits an order: a buyer with a limit pays no more than that, and a
/// seller with a limit takes no less.
pub open spec fn suits(order: OrderView, price: i64) -> bool {
    ||| takes_any_price(order)
    ||| order.side == Side::Buy && price <= order.price->0
    ||| order.side == Side::Sell && price >= order.price->0
}

/// Whether anyone whom an order meets is queued at a price that suits it.
pub open spec fn finds_a_partner(book: BookView, order: OrderView) -> bool {
    exists|id: u128| #[trigger]
        met_by(book, order.side).contains_key(id) && suits(
            order,
            met_by(book, order.side)[id].0,
        )
}

/// What all whom an order meets at prices that suit it still want to trade.
pub open spec fn on_offer_to(book: BookView, order: OrderView) -> nat {
    crate::sums::sum_over(
        met_by(book, order.side).dom(),
        |id: u128|
            if suits(order, met_by(book, order.side)[id].0) {
                (book.orders[id].quantity - book.orders[id].filled_quantity) as nat
            } else {
                0
            },
    )
}

/// Whether entry `a` of a queue that an order of `side` meets comes before entry `b`:
/// its price is better for that order, or the same and it was queued earlier.
pub open spec fn comes_first(side: Side, a: (i64, u64), b: (i64, u64)) -> bool {
    ||| side == Side::Buy && a.0 < b.0
    ||| side == Side::Sell && a.0 > b.0
    ||| a.0 == b.0 && a.1 < b.1
}

/// The order that an incoming order of `side` traded with.
pub open spec fn partner(side: Side, trade: TradeView) -> u128 {
    if side == Side::Buy {
        trade.sell_order_id
    } else {
        trade.buy_order_id
    }
}

/// The trade that a message tells of.
pub open spec fn told_trade(message: MessageView) -> TradeView {
    message->Trade_0
}

/// The price that an incoming order trades at with a resting one: the resting one's,
/// unless the incoming one has a limit and is the older of the two, or equally old
/// and the seller.
pub open spec fn due_price(order: OrderView, resting: OrderView) -> i64 {
    let (came, lay) = (order.created_at, resting.created_at);
    let older = came.secs < lay.secs || (came.secs == lay.secs && came.nanos < lay.nanos);
    let same = came.secs == lay.secs && came.nanos == lay.nanos;
    if !takes_any_price(order) && (older || (same && order.side == Side::Sell)) {
        order.price->0
    } else {
        resting.price->0
    }
}

/// Whether two messages tell of one trade of an incoming order and of what it did to
/// the resting order: the trade is between the two, at the price that is due, for as
/// much as the resting order was filled by; and the update says how much of the
/// resting order is filled, and that all of it is, or only a part.
pub open spec fn tells_of_fill(
    before: BookView,
    after: BookView,
    order: OrderView,
    first: MessageView,
    second: MessageView,
) -> bool {
    &&& first is Trade
    &&& {
        let trade = told_trade(first);
        let id = partner(order.side, trade);
        let old = before.orders[id];
        let new = after.orders[id];
        let status = if new.filled_quantity == new.quantity {
            OrderStatus::Filled
        } else {
            OrderStatus::PartiallyFilled
        };
        &&& trade.symbol == before.symbol
        &&& (if order.side == Side::Buy {
            trade.buy_order_id
        } else {
            trade.sell_order_id
        }) == order.id
        &&& met_by(before, order.side).contains_key(id)
        &&& suits(order, met_by(before, order.side)[id].0)
        &&& trade.price == due_price(order, old)
        &&& 0 < trade.quantity
        &&& old.filled_quantity + trade.quantity == new.filled_quantity
        &&& new.filled_quantity <= new.quantity
        &&& new.quantity == old.quantity
        &&& new.status == status
        &&& second == (MessageView::OrderUpdate {
            order_id: id,
            status,
            filled_qty: new.filled_quantity,
            symbol: before.symbol,
        })
    }
}

/// Whether the messages from the `start`th on begin with the tale of `n` trades, best
/// partner first, and every order that changed is in it.
pub open spec fn tells_of_fills(
    before: BookView,
    after: BookView,
    order: OrderView,
    messages: Seq<MessageView>,
    start: int,
    n: int,
) -> bool {
    &&& n >= 0
    &&& start >= 0
    &&& start + 2 * n <= messages.len()
    &&& forall|i: int|
        0 <= i < n ==> #[trigger] tells_of_fill(
            before,
            after,
            order,
            messages[start + 2 * i],
            messages[start + 2 * i + 1],
        )
    &&& forall|i: int, j: int|
        #![trigger messages[start + 2 * i], messages[start + 2 * j]]
        0 <= i < j < n ==> comes_first(
            order.side,
            met_by(before, order.side)[partner(order.side, told_trade(messages[start + 2 * i]))],
            met_by(before, order.side)[partner(order.side, told_trade(messages[start + 2 * j]))],
        )
}

/// What the last prices are after `n` trades were told of.
pub open spec fn last_prices_told(
    before: BookView,
    messages: Seq<MessageView>,
    start: int,
    n: int,
) -> Map<Seq<char>, i64> {
    if n == 0 {
        before.last_prices
    } else {
        before.last_prices.insert(
            before.symbol,
            told_trade(messages[start + 2 * (n - 1)]).price,
        )
    }
}

/// What meeting the other side tells of.
proof fn lemma_sweep_tale(book: BookView, order: OrderView, trader: OrderView) -> (n: int)
    requires
        book.wf(),
        trader.symbol == book.symbol,
        trader.filled_quantity <= trader.quantity || !book.reaches(trader),
        trader.id == order.id && trader.side == order.side && trader.created_at == order.created_at,
        takes_any_price(order) ==> trader.price is None,
        !takes_any_price(order) ==> trader.price == order.price && order.price is Some,
    ensures
        ({
            let after = book.sweep(trader).book;
            let start = book.sent.len() as int;
            &&& after.sent.len() == start + 2 * n
            &&& book.sent.is_prefix_of(after.sent)
            &&& tells_of_fills(book, after, order, after.sent, start, n)
            &&& after.last_prices == last_prices_told(book, after.sent, start, n)
            &&& forall|id: u128| #[trigger]
                book.orders.contains_key(id) && after.orders[id] != book.orders[id] ==> exists|i:
                    int|
                    0 <= i < n && partner(order.side, told_trade(#[trigger] after.sent[start + 2 * i]))
                        == id
            &&& n > 0 <==> book.reaches(trader) && trader.filled_quantity < trader.quantity
        }),
    decreases book.queue(trader.side.other()).dom().len(),
{
    let start = book.sent.len() as int;
    let side = trader.side.other();
    let id = book.best(side);
    if book.reaches(trader) && trader.filled_quantity < trader.quantity {
        crate::trading::lemma_trade_step(book, trader);
        crate::invariants::lemma_pair_trades(book, trader);
        crate::invariants::lemma_level_covers(book, side, id);
        let (middle, rest) = book.trade_with(trader, id);
        let swept = book.sweep(trader).book;
        let tale = swept.sent;
        assert(book.queue_wf(side));
        assert(middle.orders.dom().contains(id));
        assert(tells_of_fill(book, middle, order, middle.sent[start], middle.sent[start + 1]));
        if rest.filled_quantity != rest.quantity {
            let m = lemma_sweep_tale(middle, order, rest);
            crate::trading::lemma_sweep_orders(middle, rest);
            assert(middle.orders.contains_key(id));
            assert(!middle.queue(side).contains_key(id));
            assert(swept.orders[id] == middle.orders[id]);
            let n = m + 1;
            assert(tale[start] == middle.sent[start] && tale[start + 1] == middle.sent[start + 1]);
            assert forall|i: int| 0 <= i < n implies #[trigger] tells_of_fill(
                book,
                swept,
                order,
                tale[start + 2 * i],
                tale[start + 2 * i + 1],
            ) by {
                if i > 0 {
                    let k = i - 1;
                    assert(start + 2 * i == middle.sent.len() + 2 * k);
                    assert(tells_of_fill(
                        middle,
                        swept,
                        order,
                        tale[middle.sent.len() + 2 * k],
                        tale[middle.sent.len() + 2 * k + 1],
                    ));
                    let other = partner(order.side, told_trade(tale[start + 2 * i]));
                    assert(middle.queue(side).contains_key(other));
                    assert(other != id);
                }
            }
            assert forall|i: int, j: int|
                #![trigger tale[start + 2 * i], tale[start + 2 * j]]
                0 <= i < j < n implies comes_first(
                order.side,
                met_by(book, order.side)[partner(order.side, told_trade(tale[start + 2 * i]))],
                met_by(book, order.side)[partner(order.side, told_trade(tale[start + 2 * j]))],
            ) by {
                let l = j - 1;
                assert(start + 2 * j == middle.sent.len() + 2 * l);
                assert(tells_of_fill(
                    middle,
                    swept,
                    order,
                    tale[middle.sent.len() + 2 * l],
                    tale[middle.sent.len() + 2 * l + 1],
                ));
                let later = partner(order.side, told_trade(tale[start + 2 * j]));
                assert(middle.queue(side).contains_key(later));
                assert(book.queue(side).contains_key(later));
                if i == 0 {
                    assert(partner(order.side, told_trade(tale[start])) == id);
                    assert(!crate::book::ahead(
                        side,
                        book.queue(side)[later],
                        book.queue(side)[id],
                    ));
                    assert(book.queue(side)[later].1 == book.queue(side)[id].1 ==> later == id);
                } else {
                    let k = i - 1;
                    assert(start + 2 * i == middle.sent.len() + 2 * k);
                    assert(tells_of_fill(
                        middle,
                        swept,
                        order,
                        tale[middle.sent.len() + 2 * k],
                        tale[middle.sent.len() + 2 * k + 1],
                    ));
                    let earlier = partner(order.side, told_trade(tale[start + 2 * i]));
                    assert(middle.queue(side).contains_key(earlier));
                    assert(comes_first(
                        order.side,
                        met_by(middle, order.side)[partner(
                            order.side,
                            told_trade(tale[middle.sent.len() + 2 * k]),
                        )],
                        met_by(middle, order.side)[partner(
                            order.side,
                            told_trade(tale[middle.sent.len() + 2 * l]),
                        )],
                    ));
                }
            }
            assert forall|other: u128| #[trigger]
                book.orders.contains_key(other) && swept.orders[other]
                    != book.orders[other] implies exists|i: int|
                0 <= i < n && partner(order.side, told_trade(#[trigger] tale[start + 2 * i]))
                    == other by {
                if other == id {
                    assert(partner(order.side, told_trade(tale[start + 2 * 0])) == id);
                } else {
                    assert(middle.orders.dom().contains(other));
                    assert(middle.orders.contains_key(other));
                    let k = choose|k: int|
                        0 <= k < m && partner(
                            order.side,
                            told_trade(#[trigger] tale[middle.sent.len() + 2 * k]),
                        ) == other;
                    assert(start + 2 * (k + 1) == middle.sent.len() + 2 * k);
                    assert(partner(order.side, told_trade(tale[start + 2 * (k + 1)])) == other);
                }
            }
            assert(middle.last_prices == book.last_prices.insert(
                book.symbol,
                told_trade(tale[start]).price,
            ));
            if m > 0 {
                assert(start + 2 * (n - 1) == middle.sent.len() + 2 * (m - 1));
                assert(swept.last_prices =~= last_prices_told(book, tale, start, n));
            }
            n
        } else {
            assert(swept == middle);
            assert(tale[start + 2 * 0] == middle.sent[start]);
            assert(partner(order.side, told_trade(tale[start + 2 * 0])) == id);
            1
        }
    } else {
        0
    }
}

/// Whether a book cannot take an order in as it stands: it is for nothing, for
/// another symbol, or without a price that its type calls for.
pub open spec fn is_malformed(book: BookView, order: OrderView) -> bool {
    ||| order.quantity == 0
    ||| order.symbol != book.symbol
    ||| lacks_a_price(order)
}

/// Whether an order lacks a price that its type calls for.
pub open spec fn lacks_a_price(order: OrderView) -> bool {
    ||| !takes_any_price(order) && order.price is None
    ||| is_stop(order) && order.stop_price is None
}

/// Whether an order waits for a price.
pub open spec fn is_stop(order: OrderView) -> bool {
    order.order_type == OrderType::StopLoss || order.order_type == OrderType::StopLimit
}

/// Whether the market is where a stop order waits for it: someone is there to trade
/// with, and no seller asks less than the stop price of a buyer, or no buyer offers
/// more than that of a seller.
pub open spec fn is_triggered(book: BookView, order: OrderView) -> bool {
    &&& exists|id: u128| met_by(book, order.side).contains_key(id)
    &&& forall|id: u128| #[trigger]
        met_by(book, order.side).contains_key(id) ==> {
            &&& order.side == Side::Buy ==> met_by(book, order.side)[id].0 >= order.stop_price->0
            &&& order.side == Side::Sell ==> met_by(book, order.side)[id].0 <= order.stop_price->0
        }
}

/// Whether an order is carried out: it is well-formed and need not wait.
pub open spec fn is_carried_out(book: BookView, order: OrderView) -> bool {
    !is_malformed(book, order) && (is_stop(order) ==> is_triggered(book, order))
}

/// The message that tells of the state of an order.
pub open spec fn update_of(
    book: BookView,
    order: OrderView,
    status: OrderStatus,
    filled_qty: int,
) -> MessageView {
    MessageView::OrderUpdate {
        order_id: order.id,
        status,
        filled_qty: filled_qty as u64,
        symbol: book.symbol,
    }
}

/// What an order is filled by once it was processed: what it was filled by before and
/// the trades that were told of.
pub open spec fn filled_in_the_end(book: BookView, order: OrderView, after: BookView) -> int {
    order.filled_quantity + crate::trading::traded(after.sent) - crate::trading::traded(book.sent)
}

/// An order is malformed where a book objects to it.
proof fn lemma_malformed(book: BookView, order: OrderView)
    ensures
        book.objection(order) is Some <==> is_malformed(book, order),
        !is_malformed(book, order) ==> {
            let trader = crate::book::effective(order);
            &&& trader.id == order.id && trader.side == order.side && trader.created_at
                == order.created_at && trader.symbol == book.symbol && trader.quantity
                == order.quantity && trader.filled_quantity == order.filled_quantity
                && trader.time_in_force == order.time_in_force
            &&& takes_any_price(order) <==> trader.order_type == OrderType::Market
            &&& takes_any_price(order) ==> trader.price is None
            &&& !takes_any_price(order) ==> trader.price == order.price && order.price is Some
            &&& forall|price: i64| #[trigger] trader.accepts(price) == suits(order, price)
        },
{
}

/// Reaching the other side is finding a partner.
proof fn lemma_partner(book: BookView, order: OrderView)
    requires
        book.wf(),
        !is_malformed(book, order),
    ensures
        book.reaches(crate::book::effective(order)) <==> finds_a_partner(book, order),
{
    lemma_malformed(book, order);
    let trader = crate::book::effective(order);
    let side = order.side.other();
    let queue = met_by(book, order.side);
    assert(queue == book.queue(side));
    assert(book.queue_wf(side));
    if !queue.is_empty() {
        book.lemma_best_exists(side);
        assert(queue.contains_key(book.best(side)));
    }
    if finds_a_partner(book, order) {
        let id = choose|id: u128| #[trigger]
            queue.contains_key(id) && suits(order, queue[id].0);
        assert(queue.dom().contains(id));
        if !book.reaches(trader) {
            crate::invariants::lemma_unreached(book, trader, id);
        }
    }
}

/// What is available to an order is what is on offer to it.
proof fn lemma_on_offer(book: BookView, order: OrderView)
    requires
        book.wf(),
        !is_malformed(book, order),
    ensures
        book.available(crate::book::effective(order)) == on_offer_to(book, order),
{
    lemma_malformed(book, order);
    let trader = crate::book::effective(order);
    let side = order.side.other();
    let queue = met_by(book, order.side);
    let ids = queue.dom();
    let levels = book.levels(side);
    let prices = levels.dom();
    assert(queue == book.queue(side));
    assert(book.queue_wf(side) && book.levels_wf(side));
    let label = |id: u128| queue[id].0;
    let weight = |id: u128|
        if suits(order, queue[id].0) {
            (book.orders[id].quantity - book.orders[id].filled_quantity) as nat
        } else {
            0
        };
    assert forall|id: u128| #[trigger] ids.contains(id) implies prices.contains(label(id)) by {
        assert(queue.contains_key(id));
        crate::invariants::lemma_level_covers(book, side, id);
    }
    crate::sums::lemma_sum_gather(ids, prices, label, weight);
    let gathered = |price: i64|
        crate::sums::sum_over(ids, |id: u128| if label(id) == price { weight(id) } else { 0 });
    let accepted = |price: i64|
        if trader.accepts(price) {
            levels[price] as nat
        } else {
            0
        };
    assert forall|price: i64| #[trigger] prices.contains(price) implies gathered(price) == accepted(
        price,
    ) by {
        assert(levels.contains_key(price));
        assert(book.level(side, price) == book.offered(side, price));
        let f = |id: u128| if label(id) == price { weight(id) } else { 0 };
        let g = |id: u128| book.offer(side, price, id);
        if trader.accepts(price) {
            assert forall|id: u128| #[trigger] ids.contains(id) implies f(id) == g(id) by {
                assert(queue.contains_key(id));
                assert(book.is_live(side, id));
            }
            crate::sums::lemma_sum_same(ids, f, g);
        } else {
            crate::sums::lemma_sum_zero(ids, f);
        }
    }
    crate::sums::lemma_sum_same(prices, gathered, accepted);
}

/// A stop price is reached where the market is there.
proof fn lemma_triggered(book: BookView, order: OrderView)
    requires
        book.wf(),
        order.stop_price is Some,
    ensures
        book.stop_reached(order.side, order.stop_price->0) <==> is_triggered(book, order),
{
    let side = order.side.other();
    let queue = met_by(book, order.side);
    assert(queue == book.queue(side));
    assert(book.queue_wf(side));
    if !queue.is_empty() {
        book.lemma_best_exists(side);
        let best = book.best(side);
        assert(queue.contains_key(best));
        assert forall|id: u128| #[trigger] queue.contains_key(id) implies !crate::book::ahead(
            side,
            queue[id],
            queue[best],
        ) by {
            assert(book.is_best(side, best));
        }
    } else {
        assert forall|id: u128| !queue.contains_key(id) by {
            assert(!queue.dom().contains(id));
        }
    }
}

/// A malformed order is refused with the reason, the first one that applies, and
/// leaves the book as it was.
pub proof fn law_malformed_orders_are_refused(book: BookView, order: OrderView)
    ensures
        ({
            let outcome = book.process(order);
            &&& is_malformed(book, order) ==> outcome.book == book
            &&& order.quantity == 0 ==> outcome.error == Some(
                ErrorView::InvalidOrder("Order quantity must be greater than 0"@),
            )
            &&& order.quantity > 0 && order.symbol != book.symbol ==> outcome.error == Some(
                ErrorView::InvalidOrder(
                    "Symbol mismatch: expected "@ + book.symbol + ", got "@ + order.symbol,
                ),
            )
            &&& order.quantity > 0 && order.symbol == book.symbol && lacks_a_price(order)
                ==> outcome.error == Some(ErrorView::InvalidOrder("Invalid order parameters"@))
        }),
{
}

/// A stop order waits exactly as long as the market is not where it waits for it, and
/// always where there is no one to trade with. A stop order that waits is told to be
/// new and changes nothing else.
pub proof fn law_stops_wait_for_the_market(book: BookView, order: OrderView)
    requires
        book.wf(),
        !is_malformed(book, order),
        is_stop(order),
    ensures
        !is_triggered(book, order) ==> {
            let outcome = book.process(order);
            &&& outcome.error is None
            &&& outcome.book == (BookView {
                sent: book.sent.push(update_of(book, order, OrderStatus::New, 0)),
                ..book
            })
        },
        is_triggered(book, order) ==> {
            let outcome = book.process(order);
            let released = book.process(
                OrderView {
                    order_type: if order.order_type == OrderType::StopLoss {
                        OrderType::Market
                    } else {
                        OrderType::Limit
                    },
                    ..order
                },
            );
            outcome.book == released.book && outcome.error == released.error
        },
        met_by(book, order.side).is_empty() ==> !is_triggered(book, order),
{
    lemma_malformed(book, order);
    lemma_triggered(book, order);
    assert(forall|id: u128|
        met_by(book, order.side).contains_key(id) <==> met_by(book, order.side).dom().contains(id));
}

/// A market order pays no heed to a price that it carries: whatever it is, the same
/// becomes of the order and of the book.
pub proof fn law_market_orders_heed_no_price(
    book: BookView,
    order: OrderView,
    price: Option<i64>,
)
    requires
        order.order_type == OrderType::Market,
    ensures
        ({
            let outcome = book.process(order);
            let other = book.process(OrderView { price, ..order });
            outcome.book == other.book && outcome.error == other.error
        }),
{
    let changed = OrderView { price, ..order };
    assert(crate::book::at_market(order) == crate::book::at_market(changed));
}

/// What an order with a limit comes to where no one suits it: where it is to execute
/// at once it is told once to be canceled, where it is to execute completely once to
/// be rejected, with nothing filled, and the book stays as it was; otherwise nothing
/// is told. There is no trade and no error.
pub proof fn law_orders_without_partners(book: BookView, order: OrderView)
    requires
        book.wf(),
        book.admits(order),
        is_carried_out(book, order),
        !takes_any_price(order),
        !finds_a_partner(book, order),
    ensures
        ({
            let outcome = book.process(order);
            &&& outcome.error is None
            &&& order.time_in_force == TimeInForce::IOC ==> outcome.book == (BookView {
                sent: book.sent.push(update_of(book, order, OrderStatus::Canceled, 0)),
                ..book
            })
            &&& order.time_in_force == TimeInForce::FOK ==> outcome.book == (BookView {
                sent: book.sent.push(update_of(book, order, OrderStatus::Rejected, 0)),
                ..book
            })
            &&& order.time_in_force != TimeInForce::IOC && order.time_in_force != TimeInForce::FOK
                ==> outcome.book.sent == book.sent && outcome.book.last_prices == book.last_prices
        }),
{
    lemma_malformed(book, order);
    lemma_partner(book, order);
    if is_stop(order) {
        lemma_triggered(book, order);
    }
    let cleared = book.remove(order.id).0;
    assert(cleared.sent == book.sent && cleared.last_prices == book.last_prices);
}

/// A fill-or-kill order is refused where less is on offer to it than its quantity: it
/// is told once to be rejected with nothing filled, and the book stays as it was.
pub proof fn law_fill_or_kill_is_refused_before_it_trades(book: BookView, order: OrderView)
    requires
        book.wf(),
        is_carried_out(book, order),
        takes_any_price(order) || finds_a_partner(book, order),
        order.time_in_force == TimeInForce::FOK,
        on_offer_to(book, order) < order.quantity,
    ensures
        ({
            let outcome = book.process(order);
            &&& outcome.error == Some(
                ErrorView::TimeInForceViolation("FOK order cannot be partially filled"@),
            )
            &&& outcome.book == (BookView {
                sent: book.sent.push(update_of(book, order, OrderStatus::Rejected, 0)),
                ..book
            })
        }),
{
    lemma_malformed(book, order);
    lemma_partner(book, order);
    lemma_on_offer(book, order);
    if is_stop(order) {
        lemma_triggered(book, order);
    }
}

/// An order that has nothing left to trade, and someone to trade with, is an error
/// that changes nothing and tells of nothing.
pub proof fn law_spent_orders_change_nothing(book: BookView, order: OrderView)
    requires
        book.wf(),
        is_carried_out(book, order),
        finds_a_partner(book, order),
        order.filled_quantity == order.quantity,
        order.time_in_force == TimeInForce::FOK ==> on_offer_to(book, order) >= order.quantity,
    ensures
        book.process(order).error == Some(ErrorView::InternalError("No quantity to match"@)),
        book.process(order).book == book,
{
    lemma_malformed(book, order);
    lemma_partner(book, order);
    lemma_on_offer(book, order);
    assert(book.queue_wf(order.side.other()));
    if is_stop(order) {
        lemma_triggered(book, order);
    }
}

/// Whether an order gets to trade or to end: it is carried out, it trades at any price
/// or finds a partner, it has something left or no partner, and nothing forbids it.
pub open spec fn is_executed(book: BookView, order: OrderView) -> bool {
    &&& is_carried_out(book, order)
    &&& takes_any_price(order) || finds_a_partner(book, order)
    &&& order.filled_quantity != order.quantity || !finds_a_partner(book, order)
    &&& order.time_in_force == TimeInForce::FOK ==> on_offer_to(book, order) >= order.quantity
}

/// How an order is told to have ended that is filled by so much.
pub open spec fn end_of(order: OrderView, filled: int) -> OrderStatus {
    if filled == order.quantity {
        OrderStatus::Filled
    } else if filled > order.quantity {
        OrderStatus::Rejected
    } else if filled == 0 && order.time_in_force == TimeInForce::IOC {
        OrderStatus::Canceled
    } else {
        OrderStatus::PartiallyFilled
    }
}

/// What is told of an order that executes: first of its trades, each followed by what
/// it did to the resting order, the best partner first; then once how the order ended
/// and by how much it is filled, and once more where it is an order with a limit that
/// is to execute at once and was not filled. There is no error, and the last price is
/// that of the last trade.
pub proof fn law_what_is_told_of_an_execution(book: BookView, order: OrderView) -> (n: int)
    requires
        book.wf(),
        book.admits(order),
        is_executed(book, order),
        !met_by(book, order.side).contains_key(order.id),
    ensures
        ({
            let outcome = book.process(order);
            let after = outcome.book;
            let start = book.sent.len() as int;
            let filled = filled_in_the_end(book, order, after);
            let end = update_of(book, order, end_of(order, filled), filled);
            let twice = !takes_any_price(order) && order.time_in_force == TimeInForce::IOC
                && filled < order.quantity;
            &&& outcome.error is None
            &&& book.sent.is_prefix_of(after.sent)
            &&& tells_of_fills(book, after, order, after.sent, start, n)
            &&& after.sent.len() == start + 2 * n + if twice {
                2int
            } else {
                1
            }
            &&& after.sent[start + 2 * n] == end
            &&& twice ==> after.sent[start + 2 * n + 1] == end
            &&& after.last_prices == last_prices_told(book, after.sent, start, n)
            &&& forall|id: u128| #[trigger]
                book.orders.contains_key(id) && id != order.id && after.orders[id]
                    != book.orders[id] ==> exists|i: int|
                    0 <= i < n && partner(order.side, told_trade(#[trigger] after.sent[start + 2 * i]))
                        == id
            &&& n > 0 <==> finds_a_partner(book, order)
        }),
{
    lemma_process_tail(book, order);
    let trader = crate::book::effective(order);
    let after = book.process(order).book;
    let start = book.sent.len() as int;
    let swept = book.sweep(trader);
    let n = lemma_execution_start(book, order);
    assert forall|id: u128| met_by(book, order.side).contains_key(id) implies
        #[trigger] after.orders[id] == swept.book.orders[id] by {
        assert(after.orders.remove(order.id)[id] == after.orders[id]);
        assert(swept.book.orders.remove(order.id)[id] == swept.book.orders[id]);
    }
    assert forall|i: int| 0 <= i < n implies #[trigger] tells_of_fill(
        book,
        after,
        order,
        after.sent[start + 2 * i],
        after.sent[start + 2 * i + 1],
    ) by {
        assert(after.sent[start + 2 * i] == swept.book.sent[start + 2 * i]);
        assert(after.sent[start + 2 * i + 1] == swept.book.sent[start + 2 * i + 1]);
        assert(tells_of_fill(
            book,
            swept.book,
            order,
            swept.book.sent[start + 2 * i],
            swept.book.sent[start + 2 * i + 1],
        ));
    }
    assert forall|i: int, j: int|
        #![trigger after.sent[start + 2 * i], after.sent[start + 2 * j]]
        0 <= i < j < n implies comes_first(
        order.side,
        met_by(book, order.side)[partner(order.side, told_trade(after.sent[start + 2 * i]))],
        met_by(book, order.side)[partner(order.side, told_trade(after.sent[start + 2 * j]))],
    ) by {
        assert(after.sent[start + 2 * i] == swept.book.sent[start + 2 * i]);
        assert(after.sent[start + 2 * j] == swept.book.sent[start + 2 * j]);
    }
    if n > 0 {
        assert(after.sent[start + 2 * (n - 1)] == swept.book.sent[start + 2 * (n - 1)]);
    }
    assert forall|id: u128| #[trigger]
        book.orders.contains_key(id) && id != order.id && after.orders[id]
            != book.orders[id] implies exists|i: int|
        0 <= i < n && partner(order.side, told_trade(#[trigger] after.sent[start + 2 * i]))
            == id by {
        assert(swept.book.orders.dom().contains(id));
        assert(after.orders.remove(order.id)[id] == after.orders[id]);
        assert(swept.book.orders.remove(order.id)[id] == swept.book.orders[id]);
        let i = choose|i: int|
            0 <= i < n && partner(
                order.side,
                told_trade(#[trigger] swept.book.sent[start + 2 * i]),
            ) == id;
        assert(after.sent[start + 2 * i] == swept.book.sent[start + 2 * i]);
    }
    n
}

/// An order that executes is filled by all that is on offer to it, up to its own
/// quantity; the trades that are told of add up to that.
pub proof fn law_executed_orders_get_what_is_on_offer(book: BookView, order: OrderView)
    requires
        book.wf(),
        book.admits(order),
        is_executed(book, order),
    ensures
        ({
            let filled = filled_in_the_end(book, order, book.process(order).book);
            let wanted = order.quantity - order.filled_quantity;
            let offered = on_offer_to(book, order) as int;
            order.filled_quantity <= order.quantity ==> filled == order.filled_quantity + if offered
                < wanted {
                offered
            } else {
                wanted
            }
        }),
{
    let n = lemma_execution_start(book, order);
    lemma_malformed(book, order);
    lemma_on_offer(book, order);
    if order.filled_quantity <= order.quantity {
        crate::depth::lemma_sweep_takes_available(book, crate::book::effective(order));
    }
}

/// Whether an order is to stay in the book with what is left of it.
pub open spec fn is_lasting(order: OrderView) -> bool {
    !takes_any_price(order) && order.time_in_force != TimeInForce::IOC && order.time_in_force
        != TimeInForce::FOK
}

/// What is left of a lasting order with a limit stays in the book: under its own
/// identifier, with what it is filled by, active on its side at its price, and queued
/// there under the next sequence number.
pub proof fn law_what_is_left_rests(book: BookView, order: OrderView)
    requires
        book.wf(),
        book.admits(order),
        is_carried_out(book, order),
        is_lasting(order),
        filled_in_the_end(book, order, book.process(order).book) < order.quantity,
    ensures
        ({
            let after = book.process(order).book;
            let filled = filled_in_the_end(book, order, after);
            &&& after.orders.contains_key(order.id)
            &&& after.orders[order.id] == (OrderView {
                filled_quantity: filled as u64,
                status: OrderStatus::New,
                order_type: OrderType::Limit,
                ..order
            })
            &&& after.order_info.contains_key(order.id)
            &&& after.order_info[order.id] == (order.side, order.price->0)
            &&& after.next_sequence == book.next_sequence + 1
            &&& order.side == Side::Buy ==> after.bids.contains_key(order.id)
                && after.bids[order.id] == (order.price->0, book.next_sequence)
            &&& order.side == Side::Sell ==> after.asks.contains_key(order.id)
                && after.asks[order.id] == (order.price->0, book.next_sequence)
        }),
{
    lemma_malformed(book, order);
    lemma_partner(book, order);
    lemma_on_offer(book, order);
    if is_stop(order) {
        lemma_triggered(book, order);
    }
    let trader = crate::book::effective(order);
    crate::laws::law_fills_are_trades(book, order);
    crate::invariants::lemma_market_wf(book, trader);
    if finds_a_partner(book, order) && order.filled_quantity != order.quantity {
        lemma_market_tail(book, order);
        assert(book.process(order).order.filled_quantity
            == book.market(trader).order.filled_quantity);
        lemma_rest_is_found(book.market(trader).book, book.market(trader).order);
    } else if finds_a_partner(book, order) {
        law_spent_orders_change_nothing(book, order);
    } else {
        lemma_rest_is_found(book, trader);
    }
}

/// An order that went to rest is found where it rests.
proof fn lemma_rest_is_found(book: BookView, order: OrderView)
    requires
        order.price is Some,
        order.filled_quantity < order.quantity,
        book.next_sequence < u64::MAX,
    ensures
        ({
            let after = book.rest(order).book;
            &&& after.orders.contains_key(order.id)
            &&& after.orders[order.id] == (OrderView { status: OrderStatus::New, ..order })
            &&& after.order_info.contains_key(order.id)
            &&& after.order_info[order.id] == (order.side, order.price->0)
            &&& after.next_sequence == book.next_sequence + 1
            &&& after.queue(order.side).contains_key(order.id)
            &&& after.queue(order.side)[order.id] == (order.price->0, book.next_sequence)
        }),
{
    let cleared = book.remove(order.id).0;
    assert(cleared.next_sequence == book.next_sequence);
}

/// Only what is left of a lasting order with a limit stays in the book: any other
/// order, and one of which nothing is left, adds no order, gets no sequence number and
/// makes none active.
pub proof fn law_nothing_else_rests(book: BookView, order: OrderView, id: u128)
    requires
        book.wf(),
        book.admits(order),
        !is_carried_out(book, order) || !is_lasting(order) || filled_in_the_end(
            book,
            order,
            book.process(order).book,
        ) >= order.quantity,
    ensures
        ({
            let after = book.process(order).book;
            &&& after.next_sequence == book.next_sequence
            &&& after.orders.dom() == book.orders.dom()
            &&& after.order_info.contains_key(id) ==> book.order_info.contains_key(id)
                && after.order_info[id] == book.order_info[id]
            &&& after.bids.contains_key(id) ==> book.bids.contains_key(id) && after.bids[id]
                == book.bids[id]
            &&& after.asks.contains_key(id) ==> book.asks.contains_key(id) && after.asks[id]
                == book.asks[id]
        }),
{
    let trader = crate::book::effective(order);
    lemma_nothing_rested(book, order);
    lemma_malformed(book, order);
    if is_carried_out(book, order) && (order.filled_quantity <= order.quantity || !book.reaches(
        trader,
    )) {
        crate::invariants::lemma_sweep_wf(book, trader);
        lemma_sweep_deactivates(book, trader, id);
    }
}

/// What an order leaves that does not rest is what its trades left, but for what is
/// told.
proof fn lemma_nothing_rested(book: BookView, order: OrderView)
    requires
        book.wf(),
        book.admits(order),
        !is_carried_out(book, order) || !is_lasting(order) || filled_in_the_end(
            book,
            order,
            book.process(order).book,
        ) >= order.quantity,
    ensures
        ({
            let after = book.process(order).book;
            let trader = crate::book::effective(order);
            ||| after == (BookView { sent: after.sent, ..book })
            ||| {
                &&& is_carried_out(book, order)
                &&& order.filled_quantity <= order.quantity || !book.reaches(trader)
                &&& after == (BookView { sent: after.sent, ..book.sweep(trader).book })
            }
        }),
{
    lemma_malformed(book, order);
    if is_stop(order) && !is_malformed(book, order) {
        lemma_triggered(book, order);
    }
    if is_carried_out(book, order) {
        let trader = crate::book::effective(order);
        lemma_partner(book, order);
        crate::laws::law_fills_are_trades(book, order);
        crate::invariants::lemma_market_wf(book, trader);
        if trader.order_type == OrderType::Limit {
            lemma_limit_rested(book, trader);
            assert(book.process(order) == book.limit(trader));
        }
    }
}

/// What a limit order leaves that does not rest is what its trades left, but for what
/// is told.
proof fn lemma_limit_rested(book: BookView, order: OrderView)
    requires
        book.wf(),
        order.symbol == book.symbol,
        order.order_type == OrderType::Limit,
        order.price is Some,
        book.may_execute(order),
        book.has_room_to_rest(order),
    ensures
        ({
            let after = book.limit(order).book;
            order.time_in_force == TimeInForce::IOC || order.time_in_force == TimeInForce::FOK
                || book.limit(order).order.filled_quantity >= order.quantity ==> {
                ||| after == (BookView { sent: after.sent, ..book })
                ||| {
                    &&& order.filled_quantity <= order.quantity || !book.reaches(order)
                    &&& after == (BookView { sent: after.sent, ..book.sweep(order).book })
                }
            }
        }),
{
    crate::invariants::lemma_market_wf(book, order);
    let met = book.market(order);
    if order.time_in_force == TimeInForce::FOK && order.filled_quantity <= order.quantity {
        crate::depth::lemma_sweep_takes_available(book, order);
    }
}

/// Meeting the other side makes no order active, and leaves those that stay active as
/// they were.
proof fn lemma_sweep_deactivates(book: BookView, taker: OrderView, id: u128)
    requires
        book.wf(),
        taker.symbol == book.symbol,
        taker.filled_quantity <= taker.quantity || !book.reaches(taker),
    ensures
        ({
            let after = book.sweep(taker).book;
            &&& after.order_info.contains_key(id) ==> book.order_info.contains_key(id)
                && after.order_info[id] == book.order_info[id]
            &&& after.queue(taker.side.other()).contains_key(id) ==> book.queue(
                taker.side.other(),
            ).contains_key(id) && after.queue(taker.side.other())[id] == book.queue(
                taker.side.other(),
            )[id]
        }),
    decreases book.queue(taker.side.other()).dom().len(),
{
    assert(book.queue_wf(taker.side.other()));
    if book.reaches(taker) && taker.filled_quantity < taker.quantity {
        crate::trading::lemma_trade_step(book, taker);
        crate::invariants::lemma_pair_trades(book, taker);
        let (after, order) = book.trade_with(taker, book.best(taker.side.other()));
        if order.filled_quantity != order.quantity {
            lemma_sweep_deactivates(after, order, id);
        }
    }
}

/// A resting order that an incoming order meets stays in its place until it is filled,
/// and then leaves; what it asks for and when it came stay the same throughout.
pub proof fn law_partners_stay_until_filled(book: BookView, order: OrderView, id: u128)
    requires
        book.wf(),
        book.admits(order),
        id != order.id,
        met_by(book, order.side).contains_key(id),
    ensures
        ({
            let after = book.process(order).book;
            let (old, new) = (book.orders[id], after.orders[id]);
            &&& after.orders.contains_key(id)
            &&& new == (OrderView {
                filled_quantity: new.filled_quantity,
                status: new.status,
                ..old
            })
            &&& old.filled_quantity <= new.filled_quantity <= old.quantity
            &&& new.filled_quantity == old.filled_quantity ==> new.status == old.status
            &&& new.filled_quantity > old.filled_quantity && new.filled_quantity < new.quantity
                ==> new.status == OrderStatus::PartiallyFilled
            &&& new.filled_quantity > old.filled_quantity && new.filled_quantity == new.quantity
                ==> new.status == OrderStatus::Filled
            &&& new.filled_quantity < new.quantity ==> {
                &&& met_by(after, order.side).contains_key(id)
                &&& met_by(after, order.side)[id] == met_by(book, order.side)[id]
                &&& after.order_info.contains_key(id)
                &&& after.order_info[id] == book.order_info[id]
            }
            &&& new.filled_quantity == new.quantity ==> {
                &&& !met_by(after, order.side).contains_key(id)
                &&& !after.order_info.contains_key(id)
            }
        }),
{
    let after = book.process(order).book;
    let side = order.side.other();
    assert(met_by(book, order.side) == book.queue(side));
    assert(met_by(after, order.side) == after.queue(side));
    crate::invariants::lemma_level_covers(book, side, id);
    crate::laws::law_resting_orders_stay(book, order, id);
    crate::laws::law_process_keeps_well_formed(book, order);
    assert(after.queue_wf(Side::Buy) && after.queue_wf(Side::Sell));
    if after.order_info.contains_key(id) {
        assert(after.queue(after.order_info[id].0).contains_key(id));
        crate::laws::law_places_are_kept(book, order, side, id);
    }
    crate::trading::lemma_process_decomposed(book, order);
    assert(after.orders.remove(order.id)[id] == after.orders[id]);
    if book.lets_execute(order) {
        let trader = crate::book::effective(order);
        lemma_sweep_statuses(book, trader, id);
        let met = book.executed(order).0;
        assert(met.orders.remove(order.id)[id] == met.orders[id]);
    } else {
        assert(book.orders.remove(order.id)[id] == book.orders[id]);
    }
}

/// An order that was filled further is told to be filled, or to be filled in part.
proof fn lemma_sweep_statuses(book: BookView, taker: OrderView, id: u128)
    requires
        book.wf(),
        taker.symbol == book.symbol,
        taker.filled_quantity <= taker.quantity || !book.reaches(taker),
        book.orders.contains_key(id),
    ensures
        ({
            let (old, new) = (book.orders[id], book.sweep(taker).book.orders[id]);
            new != old ==> new.status == if new.filled_quantity == new.quantity {
                OrderStatus::Filled
            } else {
                OrderStatus::PartiallyFilled
            }
        }),
    decreases book.queue(taker.side.other()).dom().len(),
{
    assert(book.queue_wf(taker.side.other()));
    if book.reaches(taker) && taker.filled_quantity < taker.quantity {
        crate::trading::lemma_trade_step(book, taker);
        crate::invariants::lemma_pair_trades(book, taker);
        let best = book.best(taker.side.other());
        let (after, order) = book.trade_with(taker, best);
        if order.filled_quantity != order.quantity {
            assert(after.orders.dom().contains(id));
            lemma_sweep_statuses(after, order, id);
            crate::trading::lemma_sweep_orders(after, order);
        }
    }
}

/// An order leaves every other order of its own side as it was and where it was.
pub proof fn law_fellows_are_left_alone(book: BookView, order: OrderView, id: u128)
    requires
        book.wf(),
        book.admits(order),
        id != order.id,
        met_by(book, order.side.other()).contains_key(id),
    ensures
        ({
            let after = book.process(order).book;
            &&& after.orders.contains_key(id) && after.orders[id] == book.orders[id]
            &&& after.order_info.contains_key(id) && after.order_info[id] == book.order_info[id]
            &&& met_by(after, order.side.other()).contains_key(id)
            &&& met_by(after, order.side.other())[id] == met_by(book, order.side.other())[id]
        }),
{
    let after = book.process(order).book;
    let side = order.side;
    assert(met_by(book, side.other()) == book.queue(side));
    assert(met_by(after, side.other()) == after.queue(side));
    crate::invariants::lemma_level_covers(book, side, id);
    crate::laws::law_resting_orders_stay(book, order, id);
    crate::laws::law_process_keeps_well_formed(book, order);
    assert(after.queue_wf(Side::Buy) && after.queue_wf(Side::Sell));
    assert(after.queue(after.order_info[id].0).contains_key(id));
    crate::laws::law_places_are_kept(book, order, side, id);
}

/// Every order that is not filled beyond its quantity can be processed as long as
/// there is a sequence number left and its level, were nothing of it to trade, would
/// not outgrow its type; and any order that is not to rest can.
pub proof fn law_ordinary_orders_can_be_processed(book: BookView, order: OrderView)
    requires
        book.wf(),
        order.filled_quantity <= order.quantity,
        is_lasting(order) ==> {
            &&& book.next_sequence < u64::MAX
            &&& order.price matches Some(price) ==> book.level(order.side, price) + order.quantity
                - order.filled_quantity <= u64::MAX
        },
    ensures
        book.admits(order),
{
    lemma_malformed(book, order);
    if !is_malformed(book, order) && !book.must_wait(order) {
        let trader = crate::book::effective(order);
        crate::invariants::lemma_market_wf(book, trader);
        if !takes_any_price(order) && order.time_in_force != TimeInForce::IOC
            && order.filled_quantity < order.quantity {
            crate::trading::lemma_left_over(book, trader);
            crate::invariants::lemma_remove_wf(book, order.id);
            if book.order_info.contains_key(order.id) {
                crate::invariants::lemma_level_covers(
                    book,
                    book.order_info[order.id].0,
                    order.id,
                );
            }
        }
    }
}

/// The trades of an order that executes.
proof fn lemma_execution_start(book: BookView, order: OrderView) -> (n: int)
    requires
        book.wf(),
        book.admits(order),
        is_executed(book, order),
    ensures
        ({
            let swept = book.sweep(crate::book::effective(order));
            let after = book.process(order).book;
            let start = book.sent.len() as int;
            &&& swept.book.sent.len() == start + 2 * n
            &&& book.sent.is_prefix_of(swept.book.sent)
            &&& tells_of_fills(book, swept.book, order, swept.book.sent, start, n)
            &&& swept.book.last_prices == last_prices_told(book, swept.book.sent, start, n)
            &&& forall|id: u128| #[trigger]
                book.orders.contains_key(id) && swept.book.orders[id] != book.orders[id]
                    ==> exists|i: int|
                    0 <= i < n && partner(
                        order.side,
                        told_trade(#[trigger] swept.book.sent[start + 2 * i]),
                    ) == id
            &&& n > 0 <==> finds_a_partner(book, order)
            &&& after.orders.remove(order.id) == swept.book.orders.remove(order.id)
            &&& swept.book.orders.dom() == book.orders.dom()
            &&& filled_in_the_end(book, order, after) == swept.order.filled_quantity
        }),
{
    lemma_malformed(book, order);
    lemma_partner(book, order);
    lemma_on_offer(book, order);
    if is_stop(order) {
        lemma_triggered(book, order);
    }
    let trader = crate::book::effective(order);
    crate::trading::lemma_process_decomposed(book, order);
    crate::trading::lemma_sweep_trades(book, trader);
    crate::invariants::lemma_sweep_wf(book, trader);
    assert(book.lets_execute(order));
    lemma_sweep_tale(book, order, trader)
}

/// Going to rest tells of nothing and is no trade.
proof fn lemma_rest_tells_nothing(book: BookView, order: OrderView)
    ensures
        book.rest(order).book.sent == book.sent,
        book.rest(order).book.last_prices == book.last_prices,
        order.price is Some ==> book.rest(order).error is None,
{
    let cleared = book.remove(order.id).0;
    assert(cleared.sent == book.sent && cleared.last_prices == book.last_prices);
}

/// What an order that executes tells of beyond its trades.
proof fn lemma_market_tail(book: BookView, order: OrderView)
    requires
        book.wf(),
        book.admits(order),
        is_executed(book, order),
    ensures
        ({
            let trader = crate::book::effective(order);
            let swept = book.sweep(trader);
            let met = book.market(trader);
            let filled = swept.order.filled_quantity as int;
            &&& swept.error is None
            &&& met.error is None
            &&& met.book.sent == swept.book.sent.push(
                update_of(book, order, end_of(order, filled), filled),
            )
            &&& met.book.last_prices == swept.book.last_prices
            &&& met.order.filled_quantity == filled
            &&& met.order.quantity == order.quantity
            &&& met.order.status == end_of(order, filled)
            &&& met.order.price == trader.price
            &&& finds_a_partner(book, order) ==> filled > 0 && filled <= order.quantity
        }),
{
    lemma_malformed(book, order);
    lemma_partner(book, order);
    lemma_on_offer(book, order);
    if is_stop(order) {
        lemma_triggered(book, order);
    }
    let trader = crate::book::effective(order);
    let swept = book.sweep(trader);
    crate::invariants::lemma_sweep_wf(book, trader);
    let n = lemma_sweep_tale(book, order, trader);
    crate::trading::lemma_sweep_trades(book, trader);
    if finds_a_partner(book, order) {
        crate::trading::lemma_trade_step(book, trader);
        lemma_sweep_fills(book, trader);
    }
}

/// An order that has something left and someone to trade with is filled further.
proof fn lemma_sweep_fills(book: BookView, taker: OrderView)
    requires
        book.wf(),
        taker.symbol == book.symbol,
        taker.filled_quantity < taker.quantity,
        book.reaches(taker),
    ensures
        book.sweep(taker).order.filled_quantity > taker.filled_quantity,
{
    crate::trading::lemma_trade_step(book, taker);
    crate::invariants::lemma_pair_trades(book, taker);
    assert(book.queue_wf(taker.side.other()));
    let (after, order) = book.trade_with(taker, book.best(taker.side.other()));
    if order.filled_quantity != order.quantity {
        crate::invariants::lemma_sweep_wf(after, order);
    }
}

/// What an order that executes tells of beyond its trades, in the end.
proof fn lemma_process_tail(book: BookView, order: OrderView)
    requires
        book.wf(),
        book.admits(order),
        is_executed(book, order),
    ensures
        ({
            let outcome = book.process(order);
            let after = outcome.book;
            let swept = book.sweep(crate::book::effective(order));
            let filled = swept.order.filled_quantity as int;
            let end = update_of(book, order, end_of(order, filled), filled);
            let twice = !takes_any_price(order) && order.time_in_force == TimeInForce::IOC
                && filled < order.quantity;
            &&& outcome.error is None
            &&& after.sent == if twice {
                swept.book.sent.push(end).push(end)
            } else {
                swept.book.sent.push(end)
            }
            &&& after.last_prices == swept.book.last_prices
        }),
{
    lemma_malformed(book, order);
    lemma_partner(book, order);
    if is_stop(order) {
        lemma_triggered(book, order);
    }
    lemma_market_tail(book, order);
    let trader = crate::book::effective(order);
    let met = book.market(trader);
    assert(book.symbol == met.book.symbol) by {
        crate::invariants::lemma_market_wf(book, trader);
    }
    lemma_rest_tells_nothing(met.book, met.order);
    if takes_any_price(order) {
        assert(book.process(order).book == met.book);
    } else {
        assert(book.process(order).book == book.limit(trader).book);
        assert(book.process(order).error == book.limit(trader).error);
    }
}

} // verus!
