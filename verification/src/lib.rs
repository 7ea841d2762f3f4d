//! Verified core of a synchronized behavioral mixer for Solana.
//!
//! Members deposit Poseidon commitments into a Merkle membership tree; a
//! member anonymously summons a round's action with a Groth16 membership
//! proof bound to a per-round nullifier; a crowd commits, and the round goes
//! ahead only if enough wallets committed.
//!
//! - [`field`], [`bytes`]: BN254 scalar encodings and byte arithmetic.
//! - [`poseidon`], [`note`]: the hash, commitments and nullifiers.
//! - [`merkle_math`], [`merkle`]: tree mathematics and the incremental tree.
//! - [`program`]: the on-chain pool and the round state machine.
//! - [`circuit`], [`proposal`], [`solana_format`]: the proposal statement,
//!   its witness and the verifier's byte layout.
//! - [`policy`], [`keystore`]: the participant agent's core.
//! - [`relayer`], [`keeper`]: proposal submission and batched execution.
//! - [`trace`], [`eval`]: measuring anonymity and attribution.
pub mod bytes;
pub mod circuit;
pub mod eval;
pub mod field;
pub mod keeper;
pub mod keystore;
pub mod merkle;
pub mod merkle_math;
pub mod note;
pub mod policy;
pub mod poseidon;
pub mod program;
pub mod proposal;
pub mod relayer;
pub mod solana_format;
pub mod trace;
