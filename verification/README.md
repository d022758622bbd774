# exchange_rs

A limit order book and matching engine with a FIX 4.4 front end, written in
Verus: the library's behaviour is stated in `requires`/`ensures` contracts
and proved.

Layout:

- `src/order.rs`, `src/orderbook.rs` (with `orderbook/`): orders, price
  levels kept in price order, the stop book, and the book of one symbol.
- `src/matching_engine.rs`: order placement and matching with price-time
  priority, immediate-or-cancel, fill-or-kill, stop and iceberg orders.
- `src/fix/`: the FIX layer — byte-level parsing and checksums, typed
  fields, repeating groups, message types, validation, error recovery, the
  session state and message store, and the bridge between FIX messages and
  engine orders. Prices travel as exact decimals (`FixDecimal`).
- `src/fix_gateway.rs`: what the gateway does with one message, apart from
  its sockets.
- `src/optimizations.rs`: an order pool, a bounded single-producer queue and
  a cache-aligned price level.
- `src/metrics.rs`, `src/clock.rs`, `src/text.rs`: counters, the system
  clock, and text and digit helpers.
- `app/`: the program around the library — the TCP gateway and session
  driver (tokio), worker threads, and floating-point price conversions.
- `tests/`: the test suite.
