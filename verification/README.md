# chronos-bt

An event-driven backtesting engine whose bookkeeping is verified with Verus.

A run pulls bars from a data feed one at a time, advances a simulation clock
that never moves backward, lets resting orders fill against the new bar
(market orders at the open of the bar after they were submitted, limit orders
when the bar's range reaches the limit), marks the portfolio, shows the
strategy only the history up to the current bar, sizes and submits its
signals, and records an equity sample.

## Units

The library holds no floating point. Prices and quantities are `i64` with
`SCALE` (10,000) units per 1.0; money is `i128` with `MONEY_SCALE` (10^8)
units per 1.0, so a price times a quantity is exact; timestamps are
milliseconds since the Unix epoch (UTC). Fractions, thresholds and basis
points are `SCALE`-scaled integers. Comparisons of averages, ratios and
z-scores are decided exactly on integers.

## Layout

- `src/` — the verified library:
  - `data/`: bars, symbols, the CSV record validation and gap detection,
    an FxHash hasher and a small symbol-keyed table;
  - `events.rs`, `engine.rs`: the event types and the event loop;
  - `execution/`: slippage and commission models, the simulated broker;
  - `portfolio/`: cash, positions, fills, closed trades, the equity curve,
    and fixed-fraction sizing;
  - `strategy/`: the ring buffer and strategy context, moving-average
    crossover, momentum and mean reversion;
  - `metrics/`: maximum drawdown and exact trade and cost aggregates;
  - `config.rs`, `cli.rs`, `fixed.rs`, `text.rs`: configuration choices,
    `--set` argument parsing, fixed-point helpers, decimal rendering.

The engine keeps a ghost log of its steps; its invariant states what each
step did (fills from the execution model, booked in order; the mark; the
window shown to the strategy, which is the last bars of the symbol up to
the current one; the sized and submitted orders; the equity sample), in
terms of the relations that the strategy, sizing and execution models
declare (`market_step`, `sizes`, `bar_step`, `submit_step`).
- `app/` — the `backtest` command-line program: argument handling, reading
  the TOML configuration and the CSV file, converting their floating-point
  values to fixed point, and the floating-point report (returns, volatility,
  Sharpe, Sortino, Calmar, trade ratios), its text table, chart and JSON.
- `tests/` — tests of the library on concrete values.
