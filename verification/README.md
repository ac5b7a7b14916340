# sofa_registry

The verified core of a slot-partitioned service registry with three server
roles (meta, data, session) and an MCP front end for AI assistants.

- `src/` is the library, written in Verus: slot tables and their balanced
  allocation, node and session leases, the publisher and subscriber
  registries, client connections, leader election decisions, digest-based
  slot replication, the wire forms of registrations and the answers of the
  servers' RPC and admin APIs and of the MCP tools. Every function carries a
  contract that Verus proves; the laws that relate several operations are
  public proof functions.
- `tests/` runs the library on concrete values.
- `app/` is ordinary Rust around the library: the MCP server's JSON-RPC
  messages (with their serde forms), its stdio loop, and the HTTP requests to
  the registry's admin APIs.

Outside crates called from the library sit behind a few trusted wrappers,
each with a doc comment that says what its contract claims: `crc32c` for the
slot of a data id, `chrono` for the wall clock, std's `Instant` for the
monotonic clock of leases and pooled channels, `serde_json` for reading the
admin APIs' JSON answers (four wrappers), and two std functions
(`str::to_lowercase` and `String::push`).
