# hybridconsensus

A hybrid consensus library: a Raft-style replication layer (CCR) and a PBFT
replica with a table of cross-layer links (CCC), sharding of the data key
space, and post-quantum (Kyber768 + AES-256-GCM) encryption of the messages
nodes exchange. The library is written in Verus: every function carries a
contract, and Verus proves the code against it.

## Layout

- `src/` — the verified library.
  - `ccc/pbft.rs` — PBFT messages and the replica's state machine: each
    handler maps the replica's state and one message to the next state and
    the actions to perform (broadcasts, state application, client replies,
    checkpoints).
  - `ccc/mod.rs` — the cross-layer layer: a replica plus the link table
    from which broadcasts are addressed.
  - `ccr/` — the Raft-style node state (`mod.rs`), the replicated log
    (`log.rs`) and election timing (`raft.rs`).
  - `node.rs` — what a node does on a timer tick and on a message.
  - `sharding/` — ranges of data identifiers and the nodes serving them.
  - `crypto/` — the encryption frame `nonce || Kyber ciphertext || AES-GCM`.
  - `codec.rs` — the JSON encoding of requests that digests are taken over,
    and decimal parsing.
- `tests/` — tests run against the compiled library.
- `app/` — the program around the library: an in-process network on tokio
  channels, serde copies of the messages, file persistence of the log,
  metrics, and the loops that feed messages and timer ticks to the library
  and perform the actions it returns.

Time enters the library as plain milliseconds handed in by the caller, and
randomness and cryptography through small trusted wrappers around `rand`,
`sha2`, `aes-gcm` and `pqcrypto-kyber`, each documented with what its
contract claims.
