# node_manager

The bookkeeping of the peers of a blockchain network node, verified with Verus:
which addresses are known and may be dialed, which sessions are open and whose
they are, which messages have been passed on, whether all validators are
linked, and whose certificates are accepted.

The library decides; it does nothing itself. A message or a tick changes a
`manager::NodesManager` and leads to a list of `action::Action`s for the
network layer.

- `src/state.rs` is the model: everything that a manager knows, as maps, sets
  and sequences, and how each event changes it. The contracts of the executable
  functions are stated over it.
- `src/manager.rs` holds the manager; `sessions.rs`, `dialing.rs`, `nodes.rs`,
  `gossip.rs` and `revocation.rs` hold what it does about sessions, addresses,
  messages and certificates; `message.rs` ties these together.
- `src/laws.rs` holds what is proved of the manager as a whole.
- `src/pem.rs` finds out whether openssl would ask for a password.
- `src/cert.rs`, `address.rs`, `bytes.rs`, `crl.rs`, `chance.rs` and
  `fnv_map.rs` hold the calls into other crates. What is taken on trust about
  each of them stands above the call.
- `app/` is the unverified rest: channels, tickers, files, name lookups and the
  network layer. `Cargo.toml` names `tokio-util` only to hold it to a version
  with which tentacle's own dependencies compile.
