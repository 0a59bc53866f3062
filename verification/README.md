# urva

A typed document-store layer over MongoDB, with its logic verified by Verus.

- `src/` is the verified library: the stored layout of documents and their
  optimistic version lock (`doc`, `version`), typed filters, updates and
  sorts (`field`, `filter`, `update`, `sort`), declared indexes and the diff
  between declared and existing indexes with the sync plan (`index`,
  `lifecycle`, with what the diff says of each index in `lifecycle_laws`), the decisions of writes, bulk writes and partial failures
  (`ops`, `partial`), the retry decisions of transactions (`transaction`),
  and the rules of entity declarations: the `#[index(...)]` grammar
  (`index_attr`), JSON given in index options (`json`), the field, option
  and index checks (`entity_decl`) and module naming (`case`).
- `app/` is the driver side: conversions between the driver's values and the
  library's, the asynchronous store operations and the transaction runner,
  and the derive glue that reads a declaration into plain facts and writes
  the generated code.
- `tests/` exercises the library.
