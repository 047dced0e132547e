//! Witness-check logic for Merkle Patricia Trie proofs: classification of
//! leaf/branch rows into RLP-length cases, random-linear-combination (RLC)
//! accumulation of path keys nibble by nibble, branch-level structural
//! invariants, and the key-continuity check for a leaf drifted into a newly
//! added branch.
//!
//! The computation is modelled as a linear fold over the rows of a trie
//! proof: a `KeyAccumulator` is threaded from the root branch down to the
//! terminal leaf, each branch or extension node consumes key nibbles, and the
//! leaf engines check that the accumulated key RLC and the total nibble count
//! (exactly 64 for a 32-byte key) match the values the proof claims.

use vstd::prelude::*;

pub mod branch;
pub mod cell_manager;
pub mod classifier;
pub mod drifted;
pub mod fp;
pub mod key;
pub mod leaf;

verus! {

/// The ways a trie-proof witness can fail its constraints. A witness either
/// satisfies every check or it is rejected with the class of the violated
/// constraint; there is no partial success.
#[derive(Clone, Copy, Debug, PartialEq, Eq, Structural)]
pub enum MptError {
    /// A structural flag holds a value other than 0 or 1.
    MalformedFlags,
    /// An expected RLP marker byte (248, 32, a nibble prefix) is absent.
    RlpPrefixMismatch,
    /// A recomputed key RLC disagrees with the stored value.
    KeyContinuity,
    /// The nibbles consumed along the path cannot total 64.
    NibbleCount,
    /// A branch-level invariant is broken: child bookkeeping, S/C equality
    /// outside the modified child, or placeholder shape.
    BranchInvariant,
    /// A node's hash does not match the hash recorded in its parent.
    HashLinkage,
}

} // verus!
