# operon_query

The query layer of a document store that keeps collections in object storage
and a log: requests and their JSON forms, planning and ranking of searches,
SQL over collections, Flight SQL tickets and bulk loading, and the decisions of
the facade that every gateway goes through.

- `src/` is the library. Every function carries a contract over mathematical
  models of its data, and Verus proves it. Floating-point numbers are held by
  their bits; offsets are maps from partition to offset; durations are
  milliseconds. Calls into other crates (bitmaps, checksums, hashes, dates,
  JSON text) stand behind small functions whose doc comments say what is
  claimed of the call.
- `tests/` runs the library on concrete values.
- `app/` is the serving side in ordinary Rust: conversions of JSON, Arrow and
  SQL values, the tonic and DataFusion traits, score arithmetic, and the loops
  that perform what the library asks for. What a node stores and how it reads
  its indexes comes in through traits.

Where a function waits for something (the metastore, the tail of the log, an
index), the library has its decisions as a step: a state, what happened, and
what to do next. The module `exec` has the steps of a search (`planner`,
`ann`, `scroll`, `tail_merge`), `read` those of a read view, `service` those of
the facade, `flight_ingest::put` those of a put, and `sql::table_scan` those of
a table scan.

Laws that relate several functions are public proof functions beside them, for
example that a token of a read can be pinned (`read::tokens_can_be_pinned`),
that skipping matches in field order loses no hit
(`exec::field_buffer::skipping_loses_nothing`), that scrolling gives every row
once (`exec::scroll_laws`), or that the chunks of a put cover its batch
(`flight_ingest::put::chunks_cover`).
