# meteor

A token data transport library: `context:namespace:key=value` streams, bracket
notation for keys (`list[0]` is stored as `list__i_0`), a stateful engine with
a cursor, an audit trail of control commands and hybrid flat/tree storage, and
export/import of namespaces as text or JSON.

The library's functions are verified with Verus against contracts over
mathematical models (`Seq`, `Map`, spec functions and views of each type). The
few calls into std and the `base64` crate that Verus does not specify go
through small trusted wrappers whose doc comments say what is assumed.

## Layout

- `src/` — the verified library.
  - `text.rs`, `assoc.rs`: string and association-list helpers with their specs.
  - `escape.rs`, `split.rs`, `bracket.rs`, `key.rs`, `namespace.rs`,
    `context.rs`, `token.rs`: the parts of the data format.
  - `meteor.rs`, `shower.rs`, `storage.rs`, `workspace.rs`, `engine.rs`,
    `export.rs`: the data types, the storage and the engine.
  - `stream.rs`, `token_stream.rs`, `meteor_stream.rs`, `parse.rs`,
    `validators.rs`, `validation.rs`, `organize.rs`, `transform.rs`,
    `bucket.rs`, `primary.rs`: parsers and utilities.
  - `console.rs`: what each command of the `meteor` command line prints.
  - `shell.rs`: the interactive shell as a state machine from (engine, state,
    line) to (engine, state, reply).
  - Laws (public proof functions named `law_*`) state what holds across calls:
    a read gives back a write, writes to one path leave the others alone,
    an import restores the values it carries, bracket keys round-trip, and
    more.
- `tests/` — tests run against the compiled library.
- `app/main.rs` — the command line: argument handling and standard input and
  output around `console` and `shell`.
