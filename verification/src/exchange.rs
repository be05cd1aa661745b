//! The exchange, which puts symbols, router and clock together.

use crate::calendar::{TimeSpan, Timestamp};
use crate::error::ExchangeError;
use crate::model::{ExchangeMessage, Order};
use crate::order_book::OrderBook;
use crate::router::Router;
use crate::time::{sleep_sim, ExchangeClock, TimeScale};
use vstd::prelude::*;

verus! {

/// Main exchange that coordinates all operations.
pub struct Exchange {
    // Available trading symbols
    symbols: Vec<String>,
    // The exchange clock
    clock: ExchangeClock,
    // Heartbeat interval in milliseconds
    heartbeat_interval_ms: u64,
    // The router of messages to order books
    router: Router,
}

/// The state of an exchange.
pub struct ExchangeView {
    /// Available trading symbols.
    pub symbols: Seq<Seq<char>>,
    /// The exchange clock.
    pub clock: crate::time::ClockView,
    /// Heartbeat interval in milliseconds.
    pub heartbeat_interval_ms: u64,
    /// The router of messages to order books.
    pub router: crate::router::RouterView,
}

/// The texts of strings.
pub open spec fn texts(strings: Seq<String>) -> Seq<Seq<char>> {
    strings.map_values(|string: String| string@)
}

impl ExchangeView {
    /// What holds of every exchange: the symbols that it offers are those that have
    /// an order book.
    pub open spec fn wf(self) -> bool {
        &&& self.clock.wf()
        &&& self.router.wf()
        &&& forall|symbol: Seq<char>| #[trigger]
            self.symbols.contains(symbol) <==> self.router.books.contains_key(symbol)
    }
}

impl View for Exchange {
    type V = ExchangeView;

    closed spec fn view(&self) -> ExchangeView {
        ExchangeView {
            symbols: texts(self.symbols@),
            clock: self.clock@,
            heartbeat_interval_ms: self.heartbeat_interval_ms,
            router: self.router@,
        }
    }
}

/// Whether the `n`th text repeats an earlier one, and no text before it does.
pub open spec fn first_repetition(names: Seq<Seq<char>>, n: int) -> bool {
    &&& 0 <= n < names.len()
    &&& names.take(n).no_duplicates()
    &&& names.take(n).contains(names[n])
}

impl Exchange {
    /// Create a new exchange instance, and the order books of its symbols, each
    /// with the handle of its place. A symbol that occurs twice is an error.
    pub fn new(
        symbols: Vec<String>,
        heartbeat_interval_ms: u64,
        channel_capacity: usize,
        default_matching_algorithm: String,
    ) -> (result: Result<(Exchange, Vec<OrderBook>), ExchangeError>)
        ensures
            match result {
                Ok((exchange, books)) => {
                    &&& texts(symbols@).no_duplicates()
                    &&& exchange@.wf()
                    &&& exchange@.symbols == texts(symbols@)
                    &&& exchange@.heartbeat_interval_ms == heartbeat_interval_ms
                    &&& exchange@.clock.scale == TimeScale::Normal
                    &&& exchange@.clock.start_sim == exchange@.clock.start_real
                    &&& exchange@.clock.current_time == exchange@.clock.start_real
                    &&& exchange@.router.channel_capacity == channel_capacity
                    &&& exchange@.router.default_algorithm == default_matching_algorithm@
                    &&& exchange@.router.algorithms == Map::<Seq<char>, Seq<char>>::empty()
                    &&& exchange@.router.next_handle == symbols.len()
                    &&& books.len() == symbols.len()
                    &&& forall|i: int|
                        0 <= i < symbols.len() ==> exchange@.router.books[(
                        #[trigger] symbols[i])@] == i
                    &&& forall|i: int|
                        0 <= i < symbols.len() ==> {
                            &&& (#[trigger] books[i])@ == crate::book::empty_book(
                                symbols[i]@,
                                Map::empty(),
                            )
                            &&& books[i].wf()
                            &&& books[i].algorithm() == crate::matching_engine::title_for(
                                crate::text::lower_case(default_matching_algorithm@),
                            )
                        }
                },
                Err(error) => exists|n: int| #[trigger]
                    first_repetition(texts(symbols@), n) && error@
                        == crate::router::already_exists(symbols[n]@),
            },
    {
        let ghost default_algorithm = default_matching_algorithm@;
        // Initialize the exchange clock and the router
        let clock = ExchangeClock::new(None);
        let mut router = Router::new(channel_capacity, default_matching_algorithm);
        let mut books: Vec<OrderBook> = Vec::new();
        let ghost names = texts(symbols@);
        // Create order books for each symbol
        let mut i: usize = 0;
        while i < symbols.len()
            invariant
                i <= symbols.len(),
                names == texts(symbols@),
                router@.wf(),
                router@.channel_capacity == channel_capacity,
                router@.default_algorithm == default_algorithm,
                router@.algorithms == Map::<Seq<char>, Seq<char>>::empty(),
                router@.next_handle == i,
                books.len() == i,
                names.take(i as int).no_duplicates(),
                forall|symbol: Seq<char>| #[trigger]
                    names.take(i as int).contains(symbol) <==> router@.books.contains_key(symbol),
                forall|j: int|
                    0 <= j < i ==> router@.books[(#[trigger] symbols[j])@] == j,
                forall|j: int|
                    0 <= j < i ==> {
                        &&& (#[trigger] books[j])@ == crate::book::empty_book(
                            symbols[j]@,
                            Map::empty(),
                        )
                        &&& books[j].wf()
                        &&& books[j].algorithm() == crate::matching_engine::title_for(
                            crate::text::lower_case(default_algorithm),
                        )
                    },
            decreases symbols.len() - i,
        {
            match router.create_order_book(symbols[i].clone()) {
                Ok((book, _)) => {
                    books.push(book);
                    proof {
                        let earlier = names.take(i as int);
                        assert(names.take(i + 1) =~= earlier.push(names[i as int]));
                        assert(!earlier.contains(names[i as int]));
                        assert forall|symbol: Seq<char>| #[trigger]
                            names.take(i + 1).contains(symbol)
                                <==> router@.books.contains_key(symbol) by {
                            if earlier.contains(symbol) {
                                let j = earlier.index_of(symbol);
                                assert(names.take(i + 1)[j] == symbol);
                            }
                            assert(names.take(i + 1)[i as int] == names[i as int]);
                        }
                        assert forall|j: int| 0 <= j < i implies router@.books[(
                        #[trigger] symbols[j])@] == j by {
                            assert(earlier[j] == names[j]);
                            assert(earlier.contains(names[j]));
                        }
                    }
                },
                Err(error) => {
                    assert(first_repetition(names, i as int));
                    return Err(error);
                },
            }
            i = i + 1;
        }
        assert(names.take(symbols.len() as int) =~= names);
        let exchange = Exchange { symbols, clock, heartbeat_interval_ms, router };
        assert(exchange@.symbols == names);
        Ok((exchange, books))
    }

    /// Whether the exchange offers a symbol.
    fn offers(&self, symbol: &String) -> (offered: bool)
        ensures
            offered == self@.symbols.contains(symbol@),
    {
        for i in 0..self.symbols.len()
            invariant
                forall|j: int| 0 <= j < i ==> self@.symbols[j] != symbol@,
        {
            if self.symbols[i] == *symbol {
                assert(self@.symbols[i as int] == symbol@);
                return true;
            }
        }
        false
    }

    /// Submit a new order to the exchange: the message for the router, and the
    /// identifier of the order.
    pub fn submit_order(&self, order: Order) -> (result: Result<
        (u128, ExchangeMessage),
        ExchangeError,
    >)
        ensures
            match result {
                Ok((order_id, message)) => {
                    &&& self@.symbols.contains(order.symbol@)
                    &&& order_id == order.id
                    &&& message == ExchangeMessage::SubmitOrder(order)
                },
                Err(error) => {
                    &&& !self@.symbols.contains(order.symbol@)
                    &&& error@ == crate::error::ErrorView::SymbolNotFound(order.symbol@)
                },
            },
    {
        // Validate symbol before sending
        if !self.offers(&order.symbol) {
            return Err(ExchangeError::SymbolNotFound(order.symbol));
        }
        let order_id: u128 = order.id;
        Ok((order_id, ExchangeMessage::SubmitOrder(order)))
    }

    /// Cancel an existing order: the message for the router.
    pub fn cancel_order(&self, order_id: u128) -> (message: ExchangeMessage)
        ensures
            message == ExchangeMessage::CancelOrder(order_id),
    {
        ExchangeMessage::CancelOrder(order_id)
    }

    /// Set the clock's time scale for testing.
    pub fn set_time_scale(&mut self, scale: TimeScale) -> (result: Result<(), ExchangeError>)
        requires
            old(self)@.wf(),
        ensures
            final(self)@.wf(),
            final(self)@ == (ExchangeView { clock: final(self)@.clock, ..old(self)@ }),
            exists|real_now: Timestamp| #[trigger]
                real_now.is_reading() && match result {
                    Ok(_) => final(self)@.clock == (crate::time::ClockView {
                        scale,
                        ..old(self)@.clock.updated(real_now)
                    }),
                    Err(error) => final(self)@.clock == old(self)@.clock && error@ == old(
                        self,
                    )@.clock.failure_at(real_now)->0,
                } && (result is Ok <==> old(self)@.clock.failure_at(real_now) is None),
    {
        self.clock.set_time_scale(scale)
    }

    /// Advance time (for Fixed time scale).
    pub fn advance_time(&mut self, duration: TimeSpan) -> (result: Result<(), ExchangeError>)
        requires
            old(self)@.wf(),
            duration.is_valid(),
            old(self)@.clock.current_time.plus(duration.total()) is Some,
        ensures
            result is Ok,
            final(self)@.wf(),
            final(self)@ == (ExchangeView {
                clock: crate::time::ClockView {
                    current_time: old(self)@.clock.current_time.plus(duration.total())->0,
                    ..old(self)@.clock
                },
                ..old(self)@
            }),
    {
        self.clock.advance_time(duration)
    }

    /// Get the current exchange time.
    pub fn current_time(&mut self) -> (result: Result<Timestamp, ExchangeError>)
        requires
            old(self)@.wf(),
        ensures
            final(self)@.wf(),
            exists|real_now: Timestamp| #[trigger]
                real_now.is_reading() && final(self)@ == (ExchangeView {
                    clock: old(self)@.clock.updated(real_now),
                    ..old(self)@
                }) && match result {
                    Ok(time) => old(self)@.clock.time_at(real_now) == Some(time),
                    Err(error) => error@ == old(self)@.clock.failure_at(real_now)->0,
                } && (result is Ok <==> old(self)@.clock.failure_at(real_now) is None),
    {
        let result = self.clock.now();
        assert(self@.symbols == old(self)@.symbols);
        result
    }

    /// The heartbeat that is due now: the message for the router, with the exchange
    /// time.
    pub fn heartbeat(&mut self) -> (result: Result<ExchangeMessage, ExchangeError>)
        requires
            old(self)@.wf(),
        ensures
            final(self)@.wf(),
            exists|real_now: Timestamp| #[trigger]
                real_now.is_reading() && final(self)@ == (ExchangeView {
                    clock: old(self)@.clock.updated(real_now),
                    ..old(self)@
                }) && match result {
                    Ok(message) => message == ExchangeMessage::Heartbeat(
                        old(self)@.clock.time_at(real_now)->0,
                    ),
                    Err(error) => error@ == old(self)@.clock.failure_at(real_now)->0,
                } && (result is Ok <==> old(self)@.clock.failure_at(real_now) is None),
    {
        let now = self.clock.now();
        assert(self@.symbols == old(self)@.symbols);
        match now {
            Ok(current_time) => Ok(ExchangeMessage::Heartbeat(current_time)),
            Err(error) => Err(error),
        }
    }

    /// Let an order book take in messages, by the exchange clock, up to the first
    /// order that the book cannot process. The result is how many were taken in.
    pub fn run_book(&mut self, book: &mut OrderBook, messages: Vec<ExchangeMessage>) -> (count:
        usize)
        requires
            old(self)@.wf(),
            old(book).wf(),
        ensures
            count <= messages.len(),
            exists|books: Seq<crate::book::BookView>, clocks: Seq<crate::time::ClockView>| #[trigger]
                crate::order_book::is_run(
                    books,
                    clocks,
                    crate::order_book::message_views(messages@).take(count as int),
                ) && books.first() == old(book)@ && books.last() == final(book)@ && clocks.first()
                    == old(self)@.clock && clocks.last() == final(self)@.clock,
            count < messages.len() ==> (messages[count as int] matches ExchangeMessage::SubmitOrder(
                order,
            ) && !final(book)@.admits(order@)),
            final(book).wf(),
            final(book).algorithm() == old(book).algorithm(),
            final(self)@.wf(),
            final(self)@ == (ExchangeView { clock: final(self)@.clock, ..old(self)@ }),
    {
        let count: usize = book.run(messages, &mut self.clock);
        assert(self@.symbols == old(self)@.symbols);
        count
    }

    /// Sleep for a simulated duration: how long to sleep in real time, or nothing
    /// where the clock is fixed and has been advanced instead.
    pub fn sleep(&mut self, duration: TimeSpan) -> (result: Result<Option<u64>, ExchangeError>)
        requires
            old(self)@.wf(),
            duration.is_valid(),
            old(self)@.clock.allows_sleep(duration),
        ensures
            final(self)@.wf(),
            final(self)@ == (ExchangeView { clock: final(self)@.clock, ..old(self)@ }),
            crate::time::slept(old(self)@.clock, duration, result, final(self)@.clock),
    {
        let result = sleep_sim(&mut self.clock, duration);
        assert(self@.symbols == old(self)@.symbols);
        result
    }

    /// The router of messages to order books.
    pub fn router(&self) -> (router: &Router)
        ensures
            router@ == self@.router,
    {
        &self.router
    }

    /// The exchange clock.
    pub fn clock(&self) -> (clock: &ExchangeClock)
        ensures
            clock@ == self@.clock,
    {
        &self.clock
    }

    /// Heartbeat interval in milliseconds.
    pub fn heartbeat_interval_ms(&self) -> (interval: u64)
        ensures
            interval == self@.heartbeat_interval_ms,
    {
        self.heartbeat_interval_ms
    }

    /// Get available symbols.
    pub fn symbols(&self) -> (symbols: &[String])
        ensures
            texts(symbols@) == self@.symbols,
    {
        self.symbols.as_slice()
    }

    /// Set matching algorithm for a specific symbol.
    pub fn set_matching_algorithm(&mut self, symbol: String, algorithm: String) -> (result: Result<
        (),
        ExchangeError,
    >)
        requires
            old(self)@.wf(),
        ensures
            final(self)@.wf(),
            match result {
                Ok(_) => {
                    &&& old(self)@.symbols.contains(symbol@)
                    &&& final(self)@ == (ExchangeView {
                        router: old(self)@.router.with_algorithm(symbol@, algorithm@),
                        ..old(self)@
                    })
                },
                Err(error) => {
                    &&& !old(self)@.symbols.contains(symbol@)
                    &&& error@ == crate::error::ErrorView::SymbolNotFound(symbol@)
                    &&& final(self)@ == old(self)@
                },
            },
    {
        if !self.offers(&symbol) {
            return Err(ExchangeError::SymbolNotFound(symbol));
        }
        self.router.set_matching_algorithm(symbol, algorithm);
        Ok(())
    }
}

} // verus!
