# messenger

The core of a resilient, end-to-end encrypted messenger, written in Verus: the compact
wire protocol, the signed relay directory and the transport manager's failover, device
identity and recovery, the OpenMLS engine of a device, the encrypted local store's rules,
and the delivery service's rules. Every function in `src/` carries a contract that Verus
proves; the calls into outside crates (SHA-256, Ed25519, HKDF, XChaCha20-Poly1305, BIP-39,
Unicode normalization, OpenMLS) stand behind small trusted functions whose contracts say
what the crates' sources show.

Layout:

- `src/protocol.rs` — frames and application envelopes, with canonical encoding.
- `src/transport.rs`, `src/transport_manager.rs` — the signed relay directory and the
  outbox, endpoint health and flush state machine.
- `src/endpoint_list.rs`, `src/hex.rs` — the text formats of the offline directory tool.
- `src/identity.rs`, `src/primitives.rs`, `src/sealed.rs` — account and device keys,
  certificates, invites, recovery, and the trusted primitives.
- `src/mls_state.rs`, `src/crypto_engine.rs` — member credentials, state snapshots and
  the OpenMLS engine.
- `src/local_store.rs` — sealed rows and the message state machine of the local store.
- `src/delivery.rs`, `src/api_wire.rs`, `src/relay_rules.rs` — the delivery service's
  decisions, its binary request format, and the relay's rules.
- `app/` — the programs around the library: the delivery service on PostgreSQL, the
  relay, the SQLite local store, the network senders and the command-line tools.
- `tests/` — tests of the library.
