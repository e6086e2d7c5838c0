//! A binary Merkle tree over a fixed list of leaf values.
//!
//! The tree is kept as a sequence of levels, the leaves first and the root
//! last. Two adjacent nodes of a level are combined into their parent by a
//! [`HashOracle`] that the caller supplies; a trailing node without a partner
//! is carried up unchanged. The library builds the tree, answers root and
//! authentication-path queries, and recomputes the ancestors of a leaf that
//! is replaced.
//!
//! [`model`] holds the mathematical description of the tree, [`tree`] the
//! executable structure, and [`laws`] the theorems about the two. [`oracle`]
//! is the interface to the hash.
//!
//! Around the tree stand the texts that go to and come from the programs
//! that hash and prove: [`witness`] writes the record of two leaf updates,
//! [`prover`] writes the hashing program's input and reads the hash from its
//! output, [`hex`] reads such a hash as a number, and [`display`] shortens
//! node values for printing. [`text`] has the work on characters that they
//! share.

pub mod display;
pub mod error;
pub mod hex;
pub mod laws;
pub mod model;
pub mod oracle;
pub mod prover;
pub mod text;
pub mod tree;
pub mod witness;

pub use error::MerkleError;
pub use oracle::{FnOracle, HashError, HashOracle};
pub use tree::MerkleTree;
pub use witness::Witness;
