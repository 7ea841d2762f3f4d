# mirror_pool

The verified core of mirror-pool, a synchronized behavioral mixer for Solana:
a Poseidon commitment/nullifier scheme over BN254, an incremental Merkle
membership tree (off-chain and as the on-chain pool), the round state machine
(propose, seal, commit, threshold, execute), the proposal statement and its
witness, the agent's action policy and keystore, the relayer's instruction
builder, the keeper's batch, and the anonymity measures.

- `src/` is the library, written in Verus. Its own functions carry
  contracts and are proved. Calls into outside crates (light-poseidon,
  solana-poseidon, groth16-solana, solana-pubkey, sha2, hex) sit behind
  small trusted wrappers, which are not proved: Verus takes their
  contracts, which name what the outside code returns, on trust.
- `tests/` runs the library with the real outside crates linked.
- `app/` is the command-line front end: file and JSON I/O, randomness,
  floating-point reports, the arkworks constraint system and Groth16
  prover, and Solana transaction signing.

Verify `src/lib.rs` with Verus, with the outside crates of `Cargo.toml` linked.
