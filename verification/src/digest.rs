//! The digest arithmetic shared by every tier of the tree.
//!
//! A digest is a 64-bit summary. Digests are combined left to right with
//! `mix`, a fixed affine congruence, so that the root digest of a tier is a
//! pure function of the digests of its children.

use vstd::prelude::*;

verus! {

/// Multiplier of the mixing congruence.
pub const MIX_MULT: u64 = 1099511628211;

/// Increment of the mixing congruence.
pub const MIX_INC: u64 = 1442695040888963407;

/// Tag mixed into the digest of a leaf item.
pub const ITEM_TAG: u64 = 1;

/// Digest of a tier that holds no children at the block level.
pub const EMPTY_BLOCK_DIGEST: u64 = 2;

/// Digest of a tier that holds no children at the epoch level.
pub const EMPTY_EPOCH_DIGEST: u64 = 3;

/// Digest of a tier that holds no children at the eternity level.
pub const EMPTY_ETERNITY_DIGEST: u64 = 4;

/// A 64-bit summary of committed content.
#[derive(Clone, Copy, Debug, PartialEq, Eq, Structural)]
pub struct Digest {
    pub value: u64,
}

/// How two digests combine: `(a * MIX_MULT + b + MIX_INC) mod 2^64`.
pub open spec fn mix(a: u64, b: u64) -> u64 {
    (((a * MIX_MULT) + b + MIX_INC) % 0x10000000000000000) as u64
}

/// Digest of a single committed value.
pub open spec fn item_digest(value: u64) -> u64 {
    mix(ITEM_TAG, value)
}

/// Combines two digests, as `mix` states.
pub fn mix64(a: u64, b: u64) -> (r: u64)
    ensures
        r == mix(a, b),
{
    proof {
        assert((a as int) * (MIX_MULT as int) <= 0xffffffffffffffff * (MIX_MULT as int))
            by (nonlinear_arith)
            requires
                a <= 0xffffffffffffffff,
        ;
    }
    let wide: u128 = (a as u128) * (MIX_MULT as u128) + (b as u128) + (MIX_INC as u128);
    (wide % 0x10000000000000000u128) as u64
}

/// Computes the digest of a single committed value, as `item_digest` states.
pub fn item_digest64(value: u64) -> (r: u64)
    ensures
        r == item_digest(value),
{
    mix64(ITEM_TAG, value)
}

} // verus!
