//! Which order book a message is for.

use crate::directory;
use crate::error::{joined, ExchangeError};
use crate::identity::write_id;
use crate::matching_engine::create_matching_algorithm;
use crate::model::ExchangeMessage;
use crate::order_book::OrderBook;
use dashmap::DashMap;
use vstd::prelude::*;

verus! {

/// Router directs messages to the appropriate order book.
pub struct Router {
    // Handles of the order books, keyed by symbol
    order_books: DashMap<String, usize>,
    // The handle that the next order book gets
    next_handle: usize,
    // Channel capacity for order book channels
    channel_capacity: usize,
    // Default matching algorithm type
    default_matching_algorithm: String,
    // Symbol-specific matching algorithms
    symbol_matching_algorithms: DashMap<String, String>,
}

/// Where a message goes.
#[derive(Debug)]
pub enum Route {
    /// To the order book with the handle.
    Book(usize),
    /// To the order books with the handles.
    Books(Vec<usize>),
    /// To the exchange.
    Exchange,
}

/// The state of a router.
#[verifier::ext_equal]
pub struct RouterView {
    /// The handle of the order book of each symbol that has one.
    pub books: Map<Seq<char>, usize>,
    /// The handle that the next order book gets.
    pub next_handle: usize,
    /// How many messages may wait for an order book.
    pub channel_capacity: usize,
    /// The matching algorithm of symbols that have none of their own.
    pub default_algorithm: Seq<char>,
    /// The matching algorithms of symbols that have one of their own.
    pub algorithms: Map<Seq<char>, Seq<char>>,
}

impl RouterView {
    /// What holds of every router: each book has a handle of its own, out of those
    /// that were given out.
    pub open spec fn wf(self) -> bool {
        &&& forall|symbol: Seq<char>| #[trigger]
            self.books.contains_key(symbol) ==> self.books[symbol] < self.next_handle
        &&& forall|a: Seq<char>, b: Seq<char>|
            #![trigger self.books[a], self.books[b]]
            self.books.contains_key(a) && self.books.contains_key(b) && self.books[a]
                == self.books[b] ==> a == b
    }

    /// The matching algorithm of a symbol.
    pub open spec fn algorithm_of(self, symbol: Seq<char>) -> Seq<char> {
        match self.algorithms.get(symbol) {
            Some(algorithm) => algorithm,
            None => self.default_algorithm,
        }
    }

    /// The name of the algorithm that a new order book of a symbol matches by.
    pub open spec fn title_of(self, symbol: Seq<char>) -> Seq<char> {
        crate::matching_engine::title_for(crate::text::lower_case(self.algorithm_of(symbol)))
    }

    /// The router with a matching algorithm set for a symbol.
    pub open spec fn with_algorithm(self, symbol: Seq<char>, algorithm: Seq<char>) -> RouterView {
        RouterView { algorithms: self.algorithms.insert(symbol, algorithm), ..self }
    }

    /// The router with an order book for a symbol that had none.
    pub open spec fn with_book(self, symbol: Seq<char>) -> RouterView {
        RouterView {
            books: self.books.insert(symbol, self.next_handle),
            next_handle: (self.next_handle + 1) as usize,
            ..self
        }
    }

    /// Whether `handles` lists the handles of all order books, each once.
    pub open spec fn lists_books(self, handles: Seq<usize>) -> bool {
        &&& handles.no_duplicates()
        &&& forall|handle: usize| #[trigger]
            handles.contains(handle) <==> self.books.contains_value(handle)
    }
}

/// A new order book gets a handle of its own.
pub proof fn lemma_with_book_wf(router: RouterView, symbol: Seq<char>)
    requires
        router.wf(),
        router.next_handle < usize::MAX,
    ensures
        router.with_book(symbol).wf(),
{
    let after = router.with_book(symbol);
    assert forall|a: Seq<char>, b: Seq<char>|
        #![trigger after.books[a], after.books[b]]
        after.books.contains_key(a) && after.books.contains_key(b) && after.books[a]
            == after.books[b] implies a == b by {
        assert(a != symbol ==> router.books[a] < router.next_handle);
        assert(b != symbol ==> router.books[b] < router.next_handle);
    }
}

/// The error of a second order book for a symbol.
pub open spec fn already_exists(symbol: Seq<char>) -> crate::error::ErrorView {
    crate::error::ErrorView::InternalError("Order book for "@ + symbol + " already exists"@)
}

impl View for Router {
    type V = RouterView;

    closed spec fn view(&self) -> RouterView {
        RouterView {
            books: crate::directory::book_handles(self.order_books),
            next_handle: self.next_handle,
            channel_capacity: self.channel_capacity,
            default_algorithm: self.default_matching_algorithm@,
            algorithms: crate::directory::algorithm_names(self.symbol_matching_algorithms),
        }
    }
}

impl Router {
    /// A router without order books.
    pub fn new(channel_capacity: usize, default_matching_algorithm: String) -> (router: Self)
        ensures
            router@ == (RouterView {
                books: Map::empty(),
                next_handle: 0,
                channel_capacity,
                default_algorithm: default_matching_algorithm@,
                algorithms: Map::empty(),
            }),
            router@.wf(),
    {
        let router = Router {
            order_books: directory::new_books(),
            next_handle: 0,
            channel_capacity,
            default_matching_algorithm,
            symbol_matching_algorithms: directory::new_algorithms(),
        };
        assert(router@.books =~= Map::empty());
        assert(router@.algorithms =~= Map::empty());
        router
    }

    /// How many messages may wait for an order book.
    pub fn channel_capacity(&self) -> (capacity: usize)
        ensures
            capacity == self@.channel_capacity,
    {
        self.channel_capacity
    }

    /// Set a specific matching algorithm for a symbol.
    pub fn set_matching_algorithm(&mut self, symbol: String, algorithm: String)
        ensures
            final(self)@ == old(self)@.with_algorithm(symbol@, algorithm@),
    {
        directory::insert_algorithm(&mut self.symbol_matching_algorithms, symbol, algorithm);
    }

    /// Get the matching algorithm for a symbol.
    pub fn get_matching_algorithm(&self, symbol: &str) -> (algorithm: String)
        ensures
            algorithm@ == self@.algorithm_of(symbol@),
    {
        match directory::get_algorithm(&self.symbol_matching_algorithms, symbol) {
            Some(algorithm) => algorithm,
            None => self.default_matching_algorithm.clone(),
        }
    }

    /// Create a new order book for a symbol, and the handle that messages for it
    /// are routed to.
    pub fn create_order_book(&mut self, symbol: String) -> (result: Result<
        (OrderBook, usize),
        ExchangeError,
    >)
        requires
            old(self)@.wf(),
            old(self)@.next_handle < usize::MAX,
        ensures
            final(self)@.wf(),
            match result {
                Ok((book, handle)) => {
                    &&& !old(self)@.books.contains_key(symbol@)
                    &&& handle == old(self)@.next_handle
                    &&& final(self)@ == old(self)@.with_book(symbol@)
                    &&& book@ == crate::book::empty_book(symbol@, Map::empty())
                    &&& book.wf()
                    &&& book.algorithm() == old(self)@.title_of(symbol@)
                },
                Err(error) => {
                    &&& old(self)@.books.contains_key(symbol@)
                    &&& error@ == already_exists(symbol@)
                    &&& final(self)@ == old(self)@
                },
            },
    {
        // Check if order book already exists
        if directory::has_book(&self.order_books, symbol.as_str()) {
            let reason = joined(
                joined("Order book for ", symbol.as_str()).as_str(),
                " already exists",
            );
            return Err(ExchangeError::InternalError(reason));
        }
        // Get the matching algorithm for this symbol
        let algo_type = self.get_matching_algorithm(symbol.as_str());
        let matching_engine = create_matching_algorithm(algo_type.as_str());
        // Create order book and store its handle
        let order_book = OrderBook::new(symbol.clone(), matching_engine);
        let handle: usize = self.next_handle;
        self.next_handle = handle + 1;
        directory::insert_book(&mut self.order_books, symbol, handle);
        proof {
            lemma_with_book_wf(old(self)@, symbol@);
        }
        Ok((order_book, handle))
    }

    /// The handles of all order books.
    fn all_handles(&self) -> (handles: Vec<usize>)
        requires
            self@.wf(),
        ensures
            self@.lists_books(handles@),
    {
        let entries = directory::all_books(&self.order_books);
        let mut handles: Vec<usize> = Vec::new();
        for i in 0..entries.len()
            invariant
                handles.len() == i,
                forall|j: int| 0 <= j < i ==> #[trigger] handles[j] == entries[j].1,
        {
            handles.push(entries[i].1);
        }
        proof {
            let books = self@.books;
            assert forall|i: int, j: int| 0 <= i < j < handles@.len() implies handles@[i]
                != handles@[j] by {
                assert(entries[i].0@ != entries[j].0@);
                assert(books[entries[i].0@] == entries[i].1);
                assert(books[entries[j].0@] == entries[j].1);
            }
            assert forall|handle: usize| #[trigger]
                handles@.contains(handle) <==> books.contains_value(handle) by {
                if handles@.contains(handle) {
                    let i = handles@.index_of(handle);
                    assert(books.contains_pair(entries[i].0@, entries[i].1));
                }
                if books.contains_value(handle) {
                    let symbol = choose|symbol: Seq<char>|
                        books.contains_key(symbol) && books[symbol] == handle;
                    let i = choose|i: int|
                        0 <= i < entries.len() && (#[trigger] entries[i]).0@ == symbol;
                    assert(handles@[i] == handle);
                }
            }
        }
        handles
    }

    /// Decide where a message goes. An order goes to the book of its symbol; a
    /// cancellation and a heartbeat go to every book; what remains goes to the
    /// exchange.
    pub fn route_message(&self, message: &ExchangeMessage) -> (result: Result<
        Route,
        ExchangeError,
    >)
        requires
            self@.wf(),
        ensures
            match message {
                ExchangeMessage::SubmitOrder(order) => match result {
                    Ok(route) => self@.books.contains_key(order.symbol@) && route == Route::Book(
                        self@.books[order.symbol@],
                    ),
                    Err(error) => !self@.books.contains_key(order.symbol@) && error@
                        == crate::error::ErrorView::SymbolNotFound(order.symbol@),
                },
                ExchangeMessage::CancelOrder(_) | ExchangeMessage::Heartbeat(_) => result matches Ok(
                    Route::Books(handles),
                ) && self@.lists_books(handles@),
                _ => result matches Ok(Route::Exchange),
            },
    {
        match message {
            ExchangeMessage::SubmitOrder(order) => {
                match directory::get_book(&self.order_books, order.symbol.as_str()) {
                    Some(handle) => Ok(Route::Book(handle)),
                    None => Err(ExchangeError::SymbolNotFound(order.symbol.clone())),
                }
            },
            ExchangeMessage::CancelOrder(_) | ExchangeMessage::Heartbeat(_) => Ok(
                Route::Books(self.all_handles()),
            ),
            _ => Ok(Route::Exchange),
        }
    }
}

/// What a broadcast cancellation comes to: it fails where no order book was
/// reached.
pub fn cancellation_result(order_id: u128, sent: bool) -> (result: Result<(), ExchangeError>)
    ensures
        crate::error::error_of(result) == if sent {
            None
        } else {
            Some(crate::error::ErrorView::OrderNotFound(crate::identity::id_text(order_id)))
        },
{
    if sent {
        Ok(())
    } else {
        Err(ExchangeError::OrderNotFound(write_id(order_id)))
    }
}

} // verus!
