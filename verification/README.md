# quickwit

Building blocks of a distributed search engine, written in Rust and verified with Verus: what each
function returns or changes is stated in its contract, and proved.

- `cache`: size-bounded caches in memory (least recently used, S3-FIFO, TinyLFU), on disk, and in
  two tiers.
- `search`: the order of hits, the best hits of a segment, the cost of a query, and the accounting
  of searches.
- `thread_pool`: the scheduler that shares a thread pool among queries, and the accounting of
  tasks.
- `serve`: folded profiles, the state of the profiler, and what the REST API says of indexing
  pipelines.
- `maintenance`: the maintenance mode of the control plane, and how it is persisted.
- `metrics_wrappers`, `metrics`: the accounting of requests to object storages, and descriptions of
  metrics.
- `runtimes`, `dns`, `bucket_selector`, `cluster_sandbox`: the threads of runtimes, the accounting
  of DNS lookups, the selection of storage buckets, and clusters that run on one machine.

`src/` is the library. It decides, and leaves input and output to its callers: where a function
needs a file, a socket or the time, it takes what was read as an argument, or returns what to do
next. `app/` does these things, with `tokio`, `rayon`, `warp` and `prometheus`. `tests/` runs the
library on concrete values.

Functions of other crates that the library calls stand behind small wrappers. Each wrapper says in
its doc comment what is assumed of the function it calls.
