# mssql_odbc

The verified core of an ODBC driver for SQL Server. Every function under `src/`
carries a contract that Verus proves, but for three private wrappers of std's
text functions in `conversion/unicode.rs`, whose contracts it believes; `app/` is
ordinary Rust around it.

- `handles` — identities that applications hold (`handle_id`), the calls in
  flight on them (`activity`), the registry that ties both to payloads
  (`registry`), the table as applications address it (`table`), and the state
  behind each kind of handle: environments, connections, statements and
  descriptors, with what a fork does to them (`fork`).
- `conversion` — numbers, dates and times, texts, and how a bound parameter
  becomes a value for the server, whole or in pieces.
- `fetch_engine` — large column values, delivered in pieces.
- `fuzz_support`, `byte_cursor` — entry points that take arbitrary input.
- `diag`, `odbc_types` — diagnostic records, and the codes of the interface.

Doubles are held by their bits: the library never computes with them. Clients,
decoders and runtimes are type parameters. Calls in flight, leases and closes are
given back by an explicit call; `app/handles.rs` puts the table behind a lock and
gives them back on drop.

Laws that relate several functions stand as public proof functions beside the
functions they speak of.
