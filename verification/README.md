# cmdkit

A command-line runtime with explicit command trees, an instance-owned
registry, a plain-text argument parser and help renderer, and dispatch to the
handler that a command line selects. The library in `src/` is written in
Verus: every function carries a contract over a mathematical model of its
inputs, and the laws of the runtime are stated and proved as proof functions.

Layout:

- `src/text.rs`: strings as character sequences, code-point order, joining.
- `src/name_map.rs`: maps keyed by name, kept in key order.
- `src/metadata.rs`: switch and argument declarations, command metadata.
- `src/command.rs`: commands, strategies (handler, router, fallback), the
  subcommand router, the fluent builder, and subcommand catalogs.
- `src/invocation.rs`: the parsed invocation.
- `src/parser.rs`: the plain-text interpreter and its laws.
- `src/registry.rs`, `src/resolution.rs`: the registry, its collision rules,
  and the agreement between lookup and dispatch.
- `src/help.rs`: the plain-text help text.
- `src/runtime.rs`: routing to a handler, dispatch of a command line, and the
  runtime with its builder.
- `src/naming.rs`: the signatures the `#[cli]` attribute accepts and the names it generates.
- `src/executor.rs`: the worker counts of the thread-pool executor.
- `app/`: handler objects, pluggable renderers and interpreters, process-level
  runs, and the thread-pool executor.
