# libra_core

The verified core of the Libra version control tool: the parts that decide, written in Rust and
proved with Verus.

- `src/patch_mode/`: interactive staging. Unified diffs are parsed, hunks are split, edited and
  applied, and a session turns answers into decisions.
- `src/rebase_todo.rs`: the todo list of an interactive rebase, rendered and parsed.
- `src/operation/`: the operation log. Facets, views and snapshots of a working copy, the store's
  rows, heads and statements, and the steps of a command that is recorded as an operation.
- `src/legacy_operation.rs`, `src/legacy_statements.rs`: operation records and pages in their first
  shape, and the statements that store and list them.
- `src/db/`, `src/config/`: the schema manifest of the databases, and the diagnosis of the
  configuration database.
- `src/agent_session.rs`, `src/tool.rs`: captured agent sessions and tool calls.
- `src/command_safety.rs`: which shell commands an agent may run.
- `src/upgrade/`: where per-user state lives.
- `src/web_assets.rs`: the retired web front end, in which every lookup finds nothing.
- `src/text.rs`, `src/order.rs`, `src/sql.rs`, `src/oid.rs`: text, order, statements and object ids,
  on which the rest is stated.

`app/` carries out what the library decides: files, the object storage, the database, the
environment and the terminal. `tests/` runs the library.

Proof functions named `law_..` state what holds across functions. Functions marked
`external_body`, and the two specifications at the head of `src/text.rs`, are trusted: each says
which outside function it calls and what is believed of it.
