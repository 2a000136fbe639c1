//! The full-or-pruned sum type, and the leaf item it ultimately wraps.

use vstd::prelude::*;
use crate::digest::Digest;

verus! {

/// One committed value, as the leaf of the tree.
#[derive(Clone, Copy, Debug, PartialEq, Eq, Structural)]
pub struct Item {
    pub value: u64,
}

/// What a slot of a tier holds: either a full substructure (`Keep`), which
/// stays witnessable and mutable by descent, or only its digest (`Hash`),
/// permanently immutable and witness-incapable from that point on.
#[derive(Clone, Debug, PartialEq, Eq)]
pub enum Insert<T> {
    Keep(T),
    Hash(Digest),
}

} // verus!
