//! A binary hash tree over an ordered collection of byte-string records.
//!
//! The tree commits to the whole collection through a single root digest,
//! and supports compact inclusion proofs that can be checked against a
//! claimed root without the tree at hand.

mod construct;
mod hashing;
mod inclusion;
mod laws;
mod node;
mod tree;

pub use laws::lemma_deterministic;
pub use laws::lemma_empty_tree;
pub use laws::lemma_exclusion;
pub use laws::lemma_find_contains;
pub use laws::lemma_find_fold;
pub use laws::lemma_inclusion;
pub use laws::lemma_proof_length;
pub use laws::lemma_single_record;

pub use tree::MerkleTree;

pub use inclusion::sibs_view;
pub use inclusion::spec_fold;
pub use inclusion::MerkleProof;
pub use inclusion::SpecProof;

pub use construct::clog2;
pub use construct::lemma_clog2_is_ceiling;
pub use construct::padded_count;
pub use construct::pow2;
pub use construct::spec_build;
pub use construct::spec_leaf_level;
pub use construct::spec_pad;
pub use construct::spec_pair;
pub use construct::spec_root;
pub use construct::spec_tree;

pub use hashing::hex_digit;
pub use hashing::hex_of;
pub use hashing::sha256_of;
pub use node::spec_find;
pub use node::SpecNode;

