# Luna Mux

The core of a terminal workbench for coding agents, verified with Verus.

- `src/` holds the rules: the control service with its permissions, approvals, idempotency and
  events; sessions, panes and their layouts; saved connections, their groups and imports; the
  database runtimes with query bounds and dumps; local terminals; diagnostics; notifications and
  the application menu. What a function promises stands in its contract, and the laws that relate
  several functions are the proof functions whose names start with `law_`.
- `tests/` runs the library on concrete values.
- `app/` is ordinary Rust around it: the window, SQLite, MySQL and PostgreSQL connections, pseudo terminals,
  the secret store, sockets, files and JSON on the wire.

What is believed of other crates without proof is marked `external_body`, `assume_specification` or
`uninterp` in `src/`, with a comment that names the function and says what is claimed of it:
`clock.rs`, `ids.rs`, `text.rs`, `remote_import.rs`, `sql_query.rs`, `mysql_text.rs`,
`local_pty.rs`, `doctor_environment.rs` and `doctor_probe.rs`.
