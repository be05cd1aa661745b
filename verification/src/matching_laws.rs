//! What can be relied on when two orders meet, in terms of what the orders say.

use crate::error::ErrorView;
use crate::model::{OrderType, OrderView, Side, TimeInForce};
use vstd::prelude::*;

verus! {

/// The two sides trade with each other, and neither with itself.
pub proof fn law_sides_face_each_other(side: Side)
    ensures
        side.other() != side,
        side.other().other() == side,
{
}

/// A buyer accepts its own limit and anything below it and nothing above it; a
/// seller accepts its own limit and anything above it and nothing below it; an order
/// without a limit accepts everything.
pub proof fn law_limits_bound_what_is_accepted(order: OrderView, price: i64)
    ensures
        order.price is None ==> order.accepts(price),
        order.price is Some && order.side == Side::Buy ==> (order.accepts(price) <==> price
            <= order.price->0),
        order.price is Some && order.side == Side::Sell ==> (order.accepts(price) <==> price
            >= order.price->0),
{
}

/// What is left of an order and what of it is filled make up its quantity.
pub proof fn law_filled_and_left_make_up_the_quantity(order: OrderView)
    ensures
        order.filled_quantity + order.remaining() == order.quantity,
{
}

/// Limit and stop-limit orders need a price, stop-loss and stop-limit orders a stop
/// price, and that is all that is needed.
pub proof fn law_orders_need_their_prices(order: OrderView)
    ensures
        order.has_required_prices() <==> {
            &&& order.order_type == OrderType::Limit || order.order_type == OrderType::StopLimit
                ==> order.price is Some
            &&& order.order_type == OrderType::StopLoss || order.order_type == OrderType::StopLimit
                ==> order.stop_price is Some
        },
{
}

/// Two orders can trade exactly where a buyer and a seller of one symbol could agree
/// on a price: one that the buyer would pay and the seller would take.
pub proof fn law_orders_trade_where_they_can_agree(buy: OrderView, sell: OrderView)
    ensures
        crate::matching_engine::can_trade(buy, sell) <==> {
            &&& buy.symbol == sell.symbol
            &&& buy.side == Side::Buy
            &&& sell.side == Side::Sell
            &&& exists|price: i64|
                #![trigger agreed(price)]
                agreed(price) && (buy.price is None || price <= buy.price->0) && (sell.price is None
                    || price >= sell.price->0)
        },
{
    let price = match (buy.price, sell.price) {
        (_, Some(limit)) => limit,
        (Some(limit), None) => limit,
        (None, None) => 0i64,
    };
    assert(agreed(price));
}

/// A price that two parties may agree on: any price.
pub open spec fn agreed(price: i64) -> bool {
    true
}

/// Two orders fail to trade exactly where they cannot agree, or where one of them
/// has nothing left; the error says which.
pub proof fn law_failures_to_trade_are_explained(buy: OrderView, sell: OrderView)
    requires
        buy.filled_quantity <= buy.quantity,
        sell.filled_quantity <= sell.quantity,
    ensures
        ({
            let failure = crate::matching_engine::match_failure(buy, sell);
            let possible = crate::matching_engine::can_trade(buy, sell);
            let left = buy.filled_quantity < buy.quantity && sell.filled_quantity < sell.quantity;
            &&& failure is None <==> possible && left
            &&& !possible ==> failure == Some(ErrorView::InternalError("Orders cannot match"@))
            &&& possible && !left ==> failure == Some(
                ErrorView::InternalError("No quantity to match"@),
            )
        }),
{
}

/// A trade is for the buyer's symbol, names both orders, and is for as much as the
/// one that wants less still wants.
pub proof fn law_trades_are_for_what_both_want(
    buy: OrderView,
    sell: OrderView,
    last_prices: Map<Seq<char>, i64>,
)
    requires
        buy.filled_quantity <= buy.quantity,
        sell.filled_quantity <= sell.quantity,
    ensures
        ({
            let trade = crate::matching_engine::match_trade(buy, sell, last_prices);
            &&& trade.symbol == buy.symbol
            &&& trade.buy_order_id == buy.id
            &&& trade.sell_order_id == sell.id
            &&& buy.filled_quantity + trade.quantity <= buy.quantity
            &&& sell.filled_quantity + trade.quantity <= sell.quantity
            &&& buy.filled_quantity + trade.quantity == buy.quantity || sell.filled_quantity
                + trade.quantity == sell.quantity
        }),
{
}

/// Where exactly one of two orders names a price, they trade at that price, whatever
/// was traded before.
pub proof fn law_the_only_price_counts(
    buy: OrderView,
    sell: OrderView,
    last_prices: Map<Seq<char>, i64>,
)
    ensures
        ({
            let trade = crate::matching_engine::match_trade(buy, sell, last_prices);
            &&& buy.price is Some && sell.price is None ==> Some(trade.price) == buy.price
            &&& buy.price is None && sell.price is Some ==> Some(trade.price) == sell.price
        }),
{
}

/// Where both orders name a price, they trade at that of the older one, whatever was
/// traded before; where they are equally old, at the seller's.
pub proof fn law_the_older_price_counts(
    buy: OrderView,
    sell: OrderView,
    last_prices: Map<Seq<char>, i64>,
)
    requires
        buy.price is Some,
        sell.price is Some,
    ensures
        ({
            let trade = crate::matching_engine::match_trade(buy, sell, last_prices);
            let (bought, sold) = (buy.created_at, sell.created_at);
            let buyer_older = bought.secs < sold.secs || (bought.secs == sold.secs && bought.nanos
                < sold.nanos);
            &&& buyer_older ==> Some(trade.price) == buy.price
            &&& !buyer_older ==> Some(trade.price) == sell.price
        }),
{
}

/// Where neither order names a price, they trade at the last price of the symbol,
/// and at 0 where it has not traded yet; the prices of other symbols do not count.
pub proof fn law_the_last_price_counts_without_limits(
    buy: OrderView,
    sell: OrderView,
    last_prices: Map<Seq<char>, i64>,
    others: Map<Seq<char>, i64>,
)
    requires
        buy.price is None,
        sell.price is None,
    ensures
        ({
            let price = crate::matching_engine::match_trade(buy, sell, last_prices).price;
            &&& last_prices.contains_key(buy.symbol) ==> price == last_prices[buy.symbol]
            &&& !last_prices.contains_key(buy.symbol) ==> price == 0
            &&& others.contains_key(buy.symbol) == last_prices.contains_key(buy.symbol) && (
            others.contains_key(buy.symbol) ==> others[buy.symbol] == last_prices[buy.symbol])
                ==> crate::matching_engine::match_trade(buy, sell, others).price == price
        }),
{
}

/// Only a fill-or-kill order is ever refused for its time-in-force, and it is refused
/// exactly where less than its whole quantity would be filled.
pub proof fn law_only_fill_or_kill_is_refused(order: OrderView, fill_qty: int)
    ensures
        ({
            let failure = crate::matching_engine::time_in_force_failure(order, fill_qty);
            &&& failure is Some <==> order.time_in_force == TimeInForce::FOK && fill_qty
                < order.quantity
            &&& failure is Some ==> failure == Some(
                ErrorView::TimeInForceViolation("FOK order cannot be partially filled"@),
            )
        }),
{
}

/// The name "pro-rata" stands for the pro-rata algorithm and any other name for
/// price-time priority.
pub proof fn law_names_stand_for_algorithms(lowered: Seq<char>)
    ensures
        lowered == "pro-rata"@ ==> crate::matching_engine::title_for(lowered) == "Pro-Rata"@,
        lowered != "pro-rata"@ ==> crate::matching_engine::title_for(lowered)
            == "Price-Time Priority"@,
{
}

} // verus!
