//! How a buy order and a sell order become a trade.

use crate::error::{ErrorView, ExchangeError};
use crate::model::{Order, OrderView, Side, TimeInForce, Trade, TradeView};
use crate::text::to_lower_case;
use vstd::hash_map::StringHashMap;
use vstd::prelude::*;

verus! {

/// Whether a buy order and a sell order can trade with each other: they are for
/// the same symbol, on the sides they are given for, and where both name a
/// price, the buyer offers at least what the seller asks.
pub open spec fn can_trade(buy: OrderView, sell: OrderView) -> bool {
    &&& buy.symbol == sell.symbol
    &&& buy.side == Side::Buy
    &&& sell.side == Side::Sell
    &&& match (buy.price, sell.price) {
        (Some(buy_price), Some(sell_price)) => buy_price >= sell_price,
        _ => true,
    }
}

/// What two orders trade: all that is left of the smaller one.
pub open spec fn match_quantity(buy: OrderView, sell: OrderView) -> int {
    if buy.remaining() <= sell.remaining() {
        buy.remaining()
    } else {
        sell.remaining()
    }
}

/// Why two orders do not trade, if they do not.
pub open spec fn match_failure(buy: OrderView, sell: OrderView) -> Option<ErrorView> {
    if !can_trade(buy, sell) {
        Some(ErrorView::InternalError("Orders cannot match"@))
    } else if match_quantity(buy, sell) == 0 {
        Some(ErrorView::InternalError("No quantity to match"@))
    } else {
        None
    }
}

/// The price that two orders trade at: that of the older one where both name a
/// price, the only one where one of them does, and the last price of the symbol
/// where none does, or 0 where it has not traded yet.
pub open spec fn match_price(
    buy: OrderView,
    sell: OrderView,
    last_prices: Map<Seq<char>, i64>,
) -> i64 {
    match (buy.price, sell.price) {
        (Some(buy_price), Some(sell_price)) => if buy.created_at.before(sell.created_at) {
            buy_price
        } else {
            sell_price
        },
        (None, Some(sell_price)) => sell_price,
        (Some(buy_price), None) => buy_price,
        (None, None) => match last_prices.get(buy.symbol) {
            Some(last_price) => last_price,
            None => 0,
        },
    }
}

/// The trade that two orders make.
pub open spec fn match_trade(
    buy: OrderView,
    sell: OrderView,
    last_prices: Map<Seq<char>, i64>,
) -> TradeView {
    TradeView {
        symbol: buy.symbol,
        buy_order_id: buy.id,
        sell_order_id: sell.id,
        price: match_price(buy, sell, last_prices),
        quantity: match_quantity(buy, sell) as u64,
    }
}

/// Why the time-in-force of an order forbids an execution of `fill_qty`, if it
/// does: a fill-or-kill order takes no less than all of it.
pub open spec fn time_in_force_failure(order: OrderView, fill_qty: int) -> Option<ErrorView> {
    if order.time_in_force == TimeInForce::FOK && fill_qty < order.quantity {
        Some(ErrorView::TimeInForceViolation("FOK order cannot be partially filled"@))
    } else {
        None
    }
}

/// The interface of the matching algorithms.
pub trait MatchingAlgorithm: Send {
    /// The last traded price of each symbol that has traded.
    spec fn last_prices(&self) -> Map<Seq<char>, i64>;

    /// The name of the algorithm.
    spec fn title(&self) -> Seq<char>;

    /// Check if two orders can match.
    fn can_match(&self, buy_order: &Order, sell_order: &Order) -> (matching: bool)
        ensures
            matching == can_trade(buy_order@, sell_order@),
    ;

    /// Match two orders and return the resulting trade and what is left of the
    /// buy order and of the sell order.
    fn match_orders(&mut self, buy_order: &Order, sell_order: &Order) -> (result: Result<
        (Trade, u64, u64),
        ExchangeError,
    >)
        requires
            buy_order.filled_quantity <= buy_order.quantity,
            sell_order.filled_quantity <= sell_order.quantity,
        ensures
            final(self).title() == old(self).title(),
            match result {
                Ok((trade, buy_remaining, sell_remaining)) => {
                    &&& match_failure(buy_order@, sell_order@) is None
                    &&& trade@ == match_trade(buy_order@, sell_order@, old(self).last_prices())
                    &&& crate::identity::is_random_id(trade.id)
                    &&& trade.timestamp.is_reading()
                    &&& buy_remaining == buy_order@.remaining() - trade.quantity
                    &&& sell_remaining == sell_order@.remaining() - trade.quantity
                    &&& final(self).last_prices() == old(self).last_prices().insert(
                        buy_order.symbol@,
                        trade.price,
                    )
                },
                Err(error) => {
                    &&& match_failure(buy_order@, sell_order@) == Some(error@)
                    &&& final(self).last_prices() == old(self).last_prices()
                },
            },
    ;

    /// Get the last traded price for a symbol.
    fn last_price(&self, symbol: &str) -> (price: Option<i64>)
        ensures
            price == self.last_prices().get(symbol@),
    ;

    /// Update the last traded price for a symbol.
    fn update_last_price(&mut self, symbol: &str, price: i64)
        ensures
            final(self).last_prices() == old(self).last_prices().insert(symbol@, price),
            final(self).title() == old(self).title(),
    ;

    /// Validate if an order can be filled according to time-in-force rules.
    fn validate_time_in_force(&self, order: &Order, fill_qty: u64) -> (result: Result<
        bool,
        ExchangeError,
    >)
        ensures
            match result {
                Ok(valid) => valid && time_in_force_failure(order@, fill_qty as int) is None,
                Err(error) => time_in_force_failure(order@, fill_qty as int) == Some(error@),
            },
    ;

    /// Get the name of the algorithm.
    fn name(&self) -> (name: &str)
        ensures
            name@ == self.title(),
    ;
}

/// [`can_trade`], decided.
fn orders_cross(buy_order: &Order, sell_order: &Order) -> (matching: bool)
    ensures
        matching == can_trade(buy_order@, sell_order@),
{
    // Must be same symbol
    if !(buy_order.symbol == sell_order.symbol) {
        return false;
    }
    // Must be opposite sides
    if buy_order.side != Side::Buy || sell_order.side != Side::Sell {
        return false;
    }
    match (buy_order.price, sell_order.price) {
        // Both are limit orders - price must cross
        (Some(buy_price), Some(sell_price)) => buy_price >= sell_price,
        // At least one is a market order - can match
        _ => true,
    }
}

/// The time-in-force rules, which are the same for every algorithm.
fn check_time_in_force(order: &Order, fill_qty: u64) -> (result: Result<bool, ExchangeError>)
    ensures
        match result {
            Ok(valid) => valid && time_in_force_failure(order@, fill_qty as int) is None,
            Err(error) => time_in_force_failure(order@, fill_qty as int) == Some(error@),
        },
{
    match order.time_in_force {
        // Fill or Kill - must be fully filled or not at all
        TimeInForce::FOK => {
            if fill_qty < order.quantity {
                return Err(
                    ExchangeError::TimeInForceViolation(
                        "FOK order cannot be partially filled".to_owned(),
                    ),
                );
            }
            Ok(true)
        },
        // Immediate or Cancel - can be partially filled but rest is canceled
        TimeInForce::IOC => Ok(true),
        // Other time-in-force types don't have special execution rules
        _ => Ok(true),
    }
}

/// Standard price-time priority matching engine.
pub struct PriceTimeMatchingEngine {
    /// Last trade price per symbol
    last_prices: StringHashMap<i64>,
}

impl PriceTimeMatchingEngine {
    pub fn new() -> (engine: Self)
        ensures
            engine.last_prices() == Map::<Seq<char>, i64>::empty(),
    {
        Self { last_prices: StringHashMap::new() }
    }
}

impl MatchingAlgorithm for PriceTimeMatchingEngine {
    closed spec fn last_prices(&self) -> Map<Seq<char>, i64> {
        self.last_prices@
    }

    open spec fn title(&self) -> Seq<char> {
        "Price-Time Priority"@
    }

    fn name(&self) -> (name: &str) {
        "Price-Time Priority"
    }

    fn last_price(&self, symbol: &str) -> (price: Option<i64>) {
        match self.last_prices.get(symbol) {
            Some(price) => Some(*price),
            None => None,
        }
    }

    fn update_last_price(&mut self, symbol: &str, price: i64) {
        self.last_prices.insert(symbol.to_owned(), price);
    }

    fn can_match(&self, buy_order: &Order, sell_order: &Order) -> (matching: bool) {
        orders_cross(buy_order, sell_order)
    }

    fn match_orders(&mut self, buy_order: &Order, sell_order: &Order) -> (result: Result<
        (Trade, u64, u64),
        ExchangeError,
    >) {
        if !self.can_match(buy_order, sell_order) {
            return Err(ExchangeError::InternalError("Orders cannot match".to_owned()));
        }
        // Calculate match quantity
        let buy_remaining: u64 = buy_order.quantity - buy_order.filled_quantity;
        let sell_remaining: u64 = sell_order.quantity - sell_order.filled_quantity;
        let match_qty: u64 = if buy_remaining <= sell_remaining {
            buy_remaining
        } else {
            sell_remaining
        };
        if match_qty == 0 {
            return Err(ExchangeError::InternalError("No quantity to match".to_owned()));
        }
        // Determine match price according to price-time priority
        let match_price: i64 = match (buy_order.price, sell_order.price) {
            // Both limit orders - the older one sets the price
            (Some(buy_price), Some(sell_price)) => {
                if buy_order.created_at.is_before(&sell_order.created_at) {
                    buy_price
                } else {
                    sell_price
                }
            },
            // Buy is market order, use sell limit price
            (None, Some(sell_price)) => sell_price,
            // Sell is market order, use buy limit price
            (Some(buy_price), None) => buy_price,
            // Both are market orders, use last price
            (None, None) => self.last_price(buy_order.symbol.as_str()).unwrap_or(0),
        };
        let trade = Trade::new(
            buy_order.symbol.clone(),
            buy_order.id,
            sell_order.id,
            match_price,
            match_qty,
        );
        self.update_last_price(trade.symbol.as_str(), match_price);
        Ok((trade, buy_remaining - match_qty, sell_remaining - match_qty))
    }

    fn validate_time_in_force(&self, order: &Order, fill_qty: u64) -> (result: Result<
        bool,
        ExchangeError,
    >) {
        check_time_in_force(order, fill_qty)
    }
}

/// Pro-rata matching engine implementation.
pub struct ProRataMatchingEngine {
    /// Last trade price per symbol
    last_prices: StringHashMap<i64>,
}

impl ProRataMatchingEngine {
    pub fn new() -> (engine: Self)
        ensures
            engine.last_prices() == Map::<Seq<char>, i64>::empty(),
    {
        Self { last_prices: StringHashMap::new() }
    }
}

impl MatchingAlgorithm for ProRataMatchingEngine {
    closed spec fn last_prices(&self) -> Map<Seq<char>, i64> {
        self.last_prices@
    }

    open spec fn title(&self) -> Seq<char> {
        "Pro-Rata"@
    }

    fn name(&self) -> (name: &str) {
        "Pro-Rata"
    }

    fn last_price(&self, symbol: &str) -> (price: Option<i64>) {
        match self.last_prices.get(symbol) {
            Some(price) => Some(*price),
            None => None,
        }
    }

    fn update_last_price(&mut self, symbol: &str, price: i64) {
        self.last_prices.insert(symbol.to_owned(), price);
    }

    fn can_match(&self, buy_order: &Order, sell_order: &Order) -> (matching: bool) {
        // Same matching criteria as price-time
        orders_cross(buy_order, sell_order)
    }

    fn match_orders(&mut self, buy_order: &Order, sell_order: &Order) -> (result: Result<
        (Trade, u64, u64),
        ExchangeError,
    >) {
        // For single order matching, pro-rata behaves like price-time.
        // The difference would be seen when matching against multiple orders.
        if !self.can_match(buy_order, sell_order) {
            return Err(ExchangeError::InternalError("Orders cannot match".to_owned()));
        }
        let buy_remaining: u64 = buy_order.quantity - buy_order.filled_quantity;
        let sell_remaining: u64 = sell_order.quantity - sell_order.filled_quantity;
        let match_qty: u64 = if buy_remaining <= sell_remaining {
            buy_remaining
        } else {
            sell_remaining
        };
        if match_qty == 0 {
            return Err(ExchangeError::InternalError("No quantity to match".to_owned()));
        }
        // Price determination is the same
        let match_price: i64 = match (buy_order.price, sell_order.price) {
            (Some(buy_price), Some(sell_price)) => {
                if buy_order.created_at.is_before(&sell_order.created_at) {
                    buy_price
                } else {
                    sell_price
                }
            },
            (None, Some(sell_price)) => sell_price,
            (Some(buy_price), None) => buy_price,
            (None, None) => self.last_price(buy_order.symbol.as_str()).unwrap_or(0),
        };
        let trade = Trade::new(
            buy_order.symbol.clone(),
            buy_order.id,
            sell_order.id,
            match_price,
            match_qty,
        );
        self.update_last_price(trade.symbol.as_str(), match_price);
        Ok((trade, buy_remaining - match_qty, sell_remaining - match_qty))
    }

    fn validate_time_in_force(&self, order: &Order, fill_qty: u64) -> (result: Result<
        bool,
        ExchangeError,
    >) {
        // Same TIF rules apply regardless of matching algorithm
        check_time_in_force(order, fill_qty)
    }
}

/// The matching algorithm of an order book.
pub struct MatchingEngine {
    pub algorithm: Box<dyn MatchingAlgorithm>,
}

impl MatchingEngine {
    /// The last traded price of each symbol that has traded.
    pub open spec fn last_prices(&self) -> Map<Seq<char>, i64> {
        self.algorithm.last_prices()
    }

    /// The name of the algorithm.
    pub open spec fn title(&self) -> Seq<char> {
        self.algorithm.title()
    }
}

/// The name of the algorithm that `lowered`, a text in lower case, stands for.
pub open spec fn title_for(lowered: Seq<char>) -> Seq<char> {
    if lowered == "pro-rata"@ {
        "Pro-Rata"@
    } else {
        "Price-Time Priority"@
    }
}

/// Factory function to create matching algorithms. The type is read without
/// regard to case; one that is not known gives price-time priority.
pub fn create_matching_algorithm(algorithm_type: &str) -> (engine: MatchingEngine)
    ensures
        engine.title() == title_for(crate::text::lower_case(algorithm_type@)),
        (forall|i: int|
            0 <= i < algorithm_type@.len() ==> #[trigger] algorithm_type@[i] as int <= 127)
            ==> engine.title() == title_for(
            algorithm_type@.map_values(|c: char| crate::text::ascii_lower_case(c)),
        ),
        engine.last_prices() == Map::<Seq<char>, i64>::empty(),
{
    let lowered = to_lower_case(algorithm_type);
    assert(algorithm_type@.map_values(|c: char| crate::text::ascii_lower_case(c)) =~= Seq::new(
        algorithm_type@.len(),
        |i: int| crate::text::ascii_lower_case(algorithm_type@[i]),
    ));
    algorithm_for(&lowered)
}

/// The matching algorithm that a type in lower case stands for.
pub fn algorithm_for(lowered: &String) -> (engine: MatchingEngine)
    ensures
        engine.title() == title_for(lowered@),
        engine.last_prices() == Map::<Seq<char>, i64>::empty(),
{
    if *lowered == "pro-rata".to_owned() {
        MatchingEngine { algorithm: Box::new(ProRataMatchingEngine::new()) }
    } else {
        MatchingEngine { algorithm: Box::new(PriceTimeMatchingEngine::new()) }
    }
}

} // verus!
