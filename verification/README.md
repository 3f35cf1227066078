# augur

A trading program for one perpetual swap, and the replay of what it has recorded.

`src/` is a library in Verus: candles, pivots, patterns and price levels; the risk rules and the
register of positions; the messages to and from the exchange; the records on disk; and the replay
with its fills and figures. Every function there is proved against its contract. Decimal numbers
are 64-bit floating point numbers, held as their bits, with arithmetic that is proved to round
correctly (`number`, `rounding`, `root`, `fixed`, `parse`).

What other crates compute is stated beside the calls: JSON in `json`, and signatures and times in
`signing`. Theorems about several functions together are the proof functions whose names begin
with `law_`.

`app/` is the program around the library: sockets, requests, files and tasks. Without arguments it
trades, `backtest` replays recorded files, and `gen-synthetic` writes made-up ones.
