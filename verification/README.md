# exchange_sim

A trading exchange with a limit order book per symbol, whose logic is verified
with Verus.

- `src/` is the library. `book.rs` says what an order book is and what each
  operation makes of it; `order_book.rs` carries the operations out and is proved
  to do just that. `matching_engine.rs` turns two orders into a trade, `time.rs`
  keeps the exchange clock, `router.rs` and `exchange.rs` bring orders to their
  books. `invariants.rs` says what holds of every book, and `laws.rs`
  states what can be relied on: price-time priority, fair prices, fill
  or kill, immediate or cancel, expiry, cancellation and more.
- `tests/` runs the library on concrete values.
- `app/` is the exchange as a running system: decimal prices, UUIDs and calendar
  dates on the outside, `tokio` tasks and channels in between.

Prices in the library are price keys, whole ten-thousandths of the currency unit.
What the library takes from other crates (`priority-queue`, `dashmap`, `chrono`,
`uuid`) stands behind small functions in `queue.rs`, `directory.rs`,
`calendar.rs` and `identity.rs`, each with the contract that it is trusted to
meet.
