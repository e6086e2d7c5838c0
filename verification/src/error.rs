//! Errors of the tree's operations.

use vstd::prelude::*;
use crate::oracle::HashError;

verus! {

#[derive(Debug, Clone, PartialEq, Eq)]
pub enum MerkleError {
    /// The oracle failed on a pair of nodes.
    Hash(HashError),
    /// A leaf index at or beyond the number of leaves.
    IndexOutOfRange,
    /// A tree was asked for over no leaves at all.
    EmptyInput,
}

} // verus!
