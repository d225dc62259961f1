# mcp-memory-server-rust

A knowledge-graph memory server for the Model Context Protocol, whose core is
verified with Verus.

## Layout

- `src/` — the verified library:
  - `models.rs`: entities, relations, graphs and memory scopes, with their views.
  - `tables.rs`: the `dashmap` tables that hold entities and relations, behind
    trusted wrappers whose contracts speak of the tables' contents.
  - `graph.rs`: `MemoryGraph`, the in-memory graph. Every operation is specified
    by a transition function on `GraphView` and keeps the graph well formed
    (each relation joins two stored entities); every change of content is
    recorded in the dirty flag.
  - `graph_laws.rs`: laws of the graph — saving then loading gives back the
    same graph; creating entities a second time stores the same entities and
    relations, and, when their names are distinct, records no change either;
    observations added are present and observations deleted are gone; opening
    after creating or deleting; finding an entity by its name; a search ignores
    the case of ASCII letters; no change escapes the change record over a run
    of calls.
  - `protocol.rs`: JSON-RPC messages, tool parameters, requests and replies.
  - `dispatcher.rs`: the JSON-RPC methods and tools (with the tool catalog and
    the health check), protocol-version negotiation, resources, and batches.
  - `session.rs`, `transport.rs`: sessions (with the law of a session's life
    from creation to removal), request routing, the legacy endpoint URI,
    authorization and allowed origins.
  - `registry.rs`: the graphs loaded per project and scope (one graph per
    key), their files, which of them are to be saved, and marking a written
    graph saved only while it still holds what was written.
  - `text.rs`: string operations used by the above.
- `app/` — the server: command line, HTTP/SSE and stdio transports, JSON
  encoding, and file reads and writes.
- `tests/` — tests of the library.
