# zkbft

The logic of a HotStuff-style consensus node whose signatures are
zero-knowledge proofs over Goldilocks field elements, written in Verus and
verified.

- `src/field.rs`: field elements and the little-endian packing of four of them
  into 32 bytes, with both round trips proved.
- `src/codec.rs`: base64 and hexadecimal text, through the `base64` and `hex`
  crates.
- `src/crypto.rs`: digests, public and secret keys, key generation, signatures
  and transactions.
- `src/consensus/`: committee configuration (stakes, quorum threshold) and the
  verification of blocks, votes, timeouts and their certificates, with the
  quorum-intersection property proved. Verifying a message checks its
  authors and quorums and hands back the signature checks it calls for; the
  caller runs those proofs and settles the message with their verdicts
  (`Verification::settle`).
- `src/node_ws.rs`, `src/gateway.rs`: the decisions of the two websocket
  services (wire form of field vectors, client registry, request routing,
  heartbeat drops).
- `src/mempool.rs`, `src/node_config.rs`, `src/circuit.rs`, `src/text.rs`:
  mempool transactions, node configuration, circuit digests, text helpers.
- `app/`: file and network I/O, serde forms of the library's types, and the
  async servers that run the library's decisions.
- `tests/`: tests on concrete values.
