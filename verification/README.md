# search_engine

An in-memory search engine with dynamic collections: schemas are defined as
JSON, documents are validated against their collection's schema, stored and
indexed, and searched by keyword, filters (equality and `gte`/`lte`/`gt`/`lt`
ranges), multi-field sorting, facet counts and pagination.

The library under `src/` is written in Verus, and every function in it has a
contract that the verifier proves:

- `domain` — collection schemas and their validation, document ids, and
  documents checked against a built schema.
- `value` — a JSON model as plain data (`JsonValue`, `JsonMap`) and the
  ordered name maps that documents and facet counts use.
- `text` — string helpers: trimming, lower-casing, substring search,
  lexicographic order, decimal rendering.
- `tables` — the `dashmap::DashMap` tables that hold schemas and documents,
  used through small trusted wrappers whose contracts state what the map
  holds.
- `repository` — the schema and document stores.
- `search` — query matching, filters, document ordering, facets and paging.
- `index` — the in-memory index and its search.
- `application` — the services: collection management, document indexing
  (single and batch) and search, with their request and response types.
- `stats` — engine and system statistics.
- `errors` — application errors, their messages, and the HTTP status and
  body that answer each of them.
- `laws` — properties that hold across operations, stated and proved as
  proof functions.

`app/` is the HTTP server (axum and tokio): routing, JSON (de)serialisation
of the library's types, reading system figures with `sysinfo`, timing
searches, and logging. `tests/` holds the tests of the library.
