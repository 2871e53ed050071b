# block_reader

Reads the projected columns of the blocks of a table with few requests to the storage, and holds
the errors of an application on top of a meta-store. The library is verified with Verus: its
contracts say what every function returns, and public proof functions named `law_*` say what
holds of several functions together.

- `src/ranges.rs`: merging of byte ranges that are close to each other
- `src/merge_io.rs`: which requests to send for some parts of an object, and where the parts are
  in what comes back
- `src/chunks.rs`: the bytes that were fetched, and the columns in them
- `src/reader.rs`: the reader of a table: its projection, its default values, the parts it reads
- `src/scalar.rs`, `src/schema.rs`: values, default values and schemas
- `src/errors.rs`: errors and their conversions
- `src/entries.rs`, `src/text.rs`: maps made from lists, numbers and ranges as text
- `app/`: the requests themselves, counters of what is read, and what is displayed or sent of the errors
