//! Core of an anonymous pairing protocol: Pedersen hashing over an
//! embedded Edwards curve, the canonical point codec, a fixed-depth
//! Merkle tree, transaction semantics over a replicated block state, and
//! the surrounding block checks.

pub mod bits;
pub mod block;
pub mod client;
pub mod crypto;
pub mod hash;
pub mod merkle;
pub mod proofs;
pub mod state;
pub mod transaction;
