# hiquant

A personal quantitative-trading core whose logic is verified with Verus:
a price-time priority order book, orders, positions and accounts with
cash and volume freezing, a market system that routes orders to accounts
and books, a simulated broker, a bar-replay backtest engine with a
moving-average cross strategy, a trading calendar, and the QIFI/MIFI/TIFI
records.

Numbers are fixed point: prices and money in micro-units (one millionth),
volumes in whole units, rates in parts per million. Money is held in
i128, and the bounds on what a trade may carry follow from that: a price
up to 2^48 micro-units (about 281 million per unit), a volume up to 2^36
units and a contract multiplier up to 2^16 keep a trade's amount within
2^100, so that the sums over an account of up to 2^20 positions, with
fees, margins and frozen cash, stay below the i128 limit. Orders beyond
them are refused with `InvalidArgument` ("value out of range").

## Layout

- `src/` — the verified library. Each module states its behaviour in
  `requires`/`ensures` contracts over mathematical views; the laws of the
  library (order-book priority and volume conservation, cancel restoring
  cash, freeze/unfreeze, day settlement, date succession, sorting) are
  public proof functions named `law_*`.
- `tests/` — tests of the library on concrete values.
- `app/` — the program around the library: the `hiquant` command line, the
  HTTP/WebSocket service, the SQLite store, CSV and HTTP data sources, the
  live broker bridge, sample-data generation and floating-point
  performance figures.

## Collections

Tables keyed by code or id (`StrMap`) hold their keys and values in two
vectors, in insertion order, with no key twice; each side of the order
book is a vector in price-time priority; the trading calendar is an
ascending vector of dates. Every table is owned by the value that uses it
and changed only through `&mut self`, so each change shows in the
contracts: a concurrent map changed through shared references, or one
whose walk order depends on hashing, could not be followed by them.
