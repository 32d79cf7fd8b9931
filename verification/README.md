# Aomori

A deterministic, programmable MUD world: accounts, contracts, zones, actors,
items, quests, inventories, receipts and events, with a state root over the
whole world, Lua world scripts, signed transactions and versioned snapshots.

The world's rules are a Verus library with their contracts proved:

- `src/model.rs`, `src/maps.rs`, `src/json.rs`, `src/text.rs`: the world's
  data, sorted maps and JSON values, each with its mathematical view.
- `src/world.rs`, `src/validate.rs`, `src/inventory.rs`, `src/quests.rs`,
  `src/events.rs`: what a valid world is, checked rule by rule.
- `src/runtime.rs`, `src/host.rs`, `src/commit.rs`, `src/transaction.rs`:
  deploying contracts, creating entities, the host operations that scripts
  call, committing or rolling back a run, and signed transactions.
- `src/encode.rs`, `src/digest.rs`: the canonical encoding and the state root.
- `src/storage.rs`, `src/migration.rs`, `src/demo.rs`, `src/upgrade.rs`:
  snapshot formats and migrations, the demo world and its upgrade.
- `src/limiter.rs`: the per-client token buckets of the RPC rate limit, and
  the client found through trusted proxies.
- `src/rpc.rs`, `src/error.rs`: JSON-RPC requests, the unsigned-write policy,
  metrics and error messages.

`app/` is the node around the library: command line, snapshot files, the
Lua interpreter, and the HTTP/WebSocket server. `extras/` holds the container
and service files.
