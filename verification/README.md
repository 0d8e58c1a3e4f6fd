# minidb

The storage core of a small relational database, written in Verus.

`src/` is the verified library:

- `relation/` — data types and values (with their display text), column and
  table schemas, and the binary tuple format: `Tuple::encode` and
  `Tuple::decode` are specified byte for byte, and `lemma_tuple_roundtrip`
  proves that decoding an encoded tuple gives it back.
- `catalog/` — the layouts of the `sys_pages` and `sys_schema` system tables,
  the `CatalogManager` lookup cache, and `CatalogLoader`, a page-at-a-time state
  machine that reads both system B+-trees into the catalog.
- `execution/` — the B+-tree leaf cursor and the WHERE-filter decision.
- `storage/` — the in-memory page model, the LRU page replacer, and the
  buffer pool's page table (`PageTable`, whose invariant keeps every tracked
  page cached and the cache within capacity) with its write-back decision.

`app/` holds what has to run outside the verifier: the buffer pool that puts
the page table behind a lock and reads and writes pages through a disk manager, catalog bootstrap over that pool, and the pull-based
executors.
