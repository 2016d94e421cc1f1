# perp_clob

A central limit order book exchange for perpetual futures, with its logic
verified by Verus.

- `src/` — the verified library: decimal arithmetic over `rust_decimal`
  (`decimal`), the order book (`orderbook`, with its laws in `book_laws`), the
  engine's state, settlement, valuation and request handling (`engine`,
  `valuation`, `handler`, with laws in `engine_laws`), the message spine's
  decisions (`stream`) and the HTTP gateway's decisions (`handlers`).
- `app/` — the two processes around it: the engine on Redis streams and the
  HTTP gateway on actix-web and Postgres, with the JSON forms of the
  library's types.
- `tests/` — tests of the library on concrete values.
