# backtest-engine

The logic of a backtest engine for intraday strategies, verified with Verus:
what becomes of an order once a strategy wants it, how market structure is read
off candles, how a run is configured, and how its data is put together. Every
function states what it does in a contract, and the contracts are proved.

## Numbers

Prices, R multiples and scores are floating-point numbers, and the library does
no arithmetic on them. It holds each as an order key, an integer that sorts as
the number does (`src/key.rs`), and compares and moves keys. Where a decision
rests on arithmetic (a stop moved by a fraction of the risk, a distance in ATR),
the caller computes the number and hands it in with the bar, as a *quote*. The
decisions are the library's; the sums are its caller's.

An instant is a place in the order of instants (`src/clock.rs`): every
nanosecond of chrono's calendar has one, and so has every nanosecond of a leap
second, between the second before it and the one after.

## Layout

- `src/paper/`: the fill simulator and trade ledger. `fill` decides one order on
  one bar; `pending`, `race` and `walk` apply a bar to the book, by its range or
  by its prints; `settle` plans the costs of a close; `report` and `table` lay
  the ledger out; `laws` says what holds of every candle.
- `src/liquidity/`: levels, sweeps, gaps, swings, sessions, equal highs and
  lows, and the ranked map of targets, stepped once per candle. `laws` says when
  two scanners stay alike, `runs` what holds along a run of calls.
- `src/params/`: the knobs a run is configured by.
- `src/data/`: columns, row groups, sources, merging, contract rolls and what
  may be appended.
- `src/driver/`: from a command line to a resolved run, and from the assets'
  books to one ledger.
- `src/pipeline.rs`: the order in which things happen to a candle.
- `src/fees.rs`, `hold.rs`, `leverage.rs`, `l2book.rs`, `atr.rs`,
  `example_strategy.rs`, `events.rs`, `models.rs`: the smaller parts.
- `src/clock.rs`, `text.rs`, `sort.rs`, `strmap.rs`, `tfmap.rs`, `record.rs`:
  what the others stand on.

`app/` is the `backtest` program around the library: the command line, files,
the floating-point arithmetic, and printing. `tests/` drive the library with
numbers.

## What is trusted

The proofs rest on the contracts of a few calls that are not proved: chrono's
calendar, its formatting and its parsing, a hash map under rustc-hash's hasher,
and appending a character to a string. Each is a small function whose comment
says what is claimed.
