# constella_db

A small column-oriented database with a SQL front end, a length-prefixed
message protocol, and the routing and scheduling decisions of its distributed
services (gateway, nodes, job and database services).

- `src/` is the verified library. Each operation states its result over a
  mathematical model (`engine_wf`, `select_spec`, `insert_spec`, ...), and the
  properties that relate several operations are proof functions named `law_*`
  (engine laws in `laws.rs`, the others beside the code they speak of).
  SQL text is parsed by `sqlparser` behind trusted wrappers in `sql.rs`; the
  conversion of its syntax tree into commands is verified in `parser.rs`.
- `tests/` runs the library on concrete values.
- `app/` holds the programs around it: command-line handling, sockets, HTTP,
  files on disk, and the serde copies of the library's types.
