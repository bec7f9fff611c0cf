# blvm_stratum_v2

A Stratum V2 mining module for a Bitcoin node, written in Verus.

`src/` is the verified library:

- `pool.rs` — miners, channels, jobs and share accounting (`StratumV2Pool`),
  channel targets, share and block validation; `pool_laws.rs` holds the laws
  proved of it (job cleanup, share counters, job assignment, target order).
- `server.rs` — the server state and the handling of miner requests
  (setup, open channel, submit shares), new jobs and new-tip notices, and
  the Bitcoin wire serialization of transactions.
- `merkle.rs` — transaction ids, the Merkle branch of the coinbase and the
  coinbase split sent to miners.
- `protocol.rs` — TLV framing of messages, with its round-trip laws;
  `encoding.rs` — little-endian and compact-size integers.
- `messages.rs`, `message_types.rs` — the protocol messages and their tags.
- `hash.rs`, `consensus.rs` — SHA-256 and the node's proof-of-work check,
  reached through small trusted wrappers.
- `commands.rs`, `module_api.rs` — operator command texts and the API other
  modules call; `config.rs`, `merge_mining.rs`, `template.rs`, `decimal.rs`,
  `error.rs`, `types.rs` — configuration, secondary chains, templates and
  plain value types.

`app/` is the unverified process around it: the node IPC, the event loop,
bincode and JSON encodings, and the CLI.
