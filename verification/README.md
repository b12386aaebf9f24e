# bustubx

The storage-side pieces of a small relational database, verified with Verus.

- `src/buffer/`: the buffer pool (`buffer_pool.rs`) with its LRU-K replacer
  (`replacer.rs`), pages (`page.rs`), properties that span several pool
  operations (`laws.rs`), a plain LRU replacer (`lru.rs`) and the counters of
  the buffer pool benchmark (`bpm_bench.rs`).
- `src/catalog.rs`, `src/common.rs`, `src/storage.rs`, `src/expression.rs`:
  columns, schemas, values, rows and column references.
- `src/execution.rs`: the executor trait, with the sort operator (which
  drains its input), a fixed list of rows, and index creation;
  `src/optimizer.rs`: the insert operator.
- `src/transaction.rs`: the types of lock requests; `src/database.rs`: how a
  line of input is classified (listing command or SQL).
- `src/practice/`: a small LRU cache and Fibonacci numbers.

The buffer pool does no I/O. Operations that need a page from disk take its
bytes as an argument, and pages that must be written are handed back as
values. `app/` holds the file-backed disk manager that performs that I/O, the
benchmark loop and the Fibonacci benchmarks.
