//! An authenticated-data-structure library: it commits an ordered sequence
//! of values to a single `u64` root digest, produces compact inclusion
//! proofs for single positions, verifies such proofs from the root digest
//! alone, and replaces single values while recomputing only the digests on
//! the path from the touched leaf to the root.

pub mod hashing;
pub mod laws;
pub mod model;
pub mod tree;

pub use hashing::hash_values;
pub use hashing::Hashable;
pub use laws::lemma_build_update_equivalence;
pub use laws::lemma_construction_deterministic;
pub use laws::lemma_pad_length;
pub use laws::lemma_proof_soundness;
pub use laws::lemma_update_locality;
pub use tree::verify;
pub use tree::MerkleError;
pub use tree::MerkleTree;
pub use tree::Node;
