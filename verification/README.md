# ngram_cache

A row cache for n-gram embedding tables that live on NVMe, verified with Verus.

A batch's row ids are resolved to the slots of a flat memory that a device
gathers from by slot number. Rows that are not resident are given a slot by a
second-chance clock and read into it. The library decides all of that and keeps
the bytes; it never opens a file. For each row it says which blocks it wants, and
takes them in.

The slots' memory is the library's own, or a region that the caller has made
readable for the device and hands over with its address.

- `src/` is the library. `src/laws.rs`, `src/lookups.rs` and `src/reading.rs`
  state what holds across calls, first of all that a slot handed out for a row holds the table's
  bytes of that row, and that a batch that fails leaves no row claimed that was
  not read.
- `tests/` runs it over tables in memory.
- `app/` puts it over real files and worker threads, and into a model layer.

Trusted is one call: the address of a buffer (`host_addr` in `src/block.rs`), of
which nothing is claimed.
