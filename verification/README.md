# polars_engine

The core of a streaming query engine, verified with Verus: a split-block bloom
filter, the boolean function kernels, execution metrics, and the scheduler that
runs tasks on worker threads.

- `src/` is the library. Its functions carry contracts, and what holds across
  functions is stated as proof functions whose names begin with `law_`.
  - `bloom_filter`: the filter that Parquet files carry.
  - `boolean`: boolean functions over columns.
  - `nested`: columns built from optional nested items.
  - `cpu_time`, `live_timer`, `io_metrics`: clocks and I/O accounting.
  - `metrics`: metrics of queries and nodes, and metrics that nodes define.
  - `executor`: queues, stealing, thread identities, attribution, scopes.
  - `opt_spawned_future`: running futures inline or as tasks.
  - `keys`, `node_table`, `slots`, `numbered`: the tables underneath.
- `app/` is ordinary Rust around the library: threads, futures, clocks, locks
  and floating point.
- `tests/` runs the library.

The work queues come from `crossbeam-deque`, the random numbers from `rand` and
the keyed tables from `slotmap`. What the proofs rest on is written down beside
each call into these crates.
