//! Trusted boundary around `fixedbitset::FixedBitSet`, the bit-packed array
//! that stores the grid's cells.
//!
//! The contents of a bit set are named by the uninterpreted function
//! [`bits_of`]: one boolean per bit of the set's capacity, index `i` true
//! exactly when bit `i` is enabled. Each wrapper states over that name what
//! the crate's source shows of the method it calls.

use vstd::prelude::*;

use fixedbitset::FixedBitSet;

verus! {

#[verifier::external_type_specification]
#[verifier::external_body]
pub struct ExFixedBitSet(FixedBitSet);

/// What a `FixedBitSet` holds: its capacity in bits as the length, and for
/// each index below it whether that bit is enabled.
pub uninterp spec fn bits_of(b: FixedBitSet) -> Seq<bool>;

/// Relies on `FixedBitSet::with_capacity`: a set of exactly `bits` bits,
/// all initially clear.
#[verifier::external_body]
pub(crate) fn bs_with_capacity(bits: usize) -> (r: FixedBitSet)
    ensures
        bits_of(r).len() == bits,
        forall|i: int| 0 <= i < bits ==> !bits_of(r)[i],
{
    FixedBitSet::with_capacity(bits)
}

/// Relies on `FixedBitSet::contains`: whether bit `i` is enabled.
#[verifier::external_body]
pub(crate) fn bs_get(b: &FixedBitSet, i: usize) -> (r: bool)
    requires
        i < bits_of(*b).len(),
    ensures
        r == bits_of(*b)[i as int],
{
    b.contains(i)
}

/// Relies on `FixedBitSet::set`: writes bit `i` and leaves every other bit
/// and the capacity unchanged. It panics on an index at or above the
/// capacity, which the precondition rules out.
#[verifier::external_body]
pub(crate) fn bs_set(b: &mut FixedBitSet, i: usize, v: bool)
    requires
        i < bits_of(*old(b)).len(),
    ensures
        bits_of(*final(b)) == bits_of(*old(b)).update(i as int, v),
{
    b.set(i, v)
}

/// Relies on `FixedBitSet::as_slice`: the backing `u32` blocks. The crate
/// keeps exactly `ceil(capacity / 32)` blocks, bit `i` stored as bit
/// `i % 32` of block `i / 32`; its `contains` reads bits that way, and
/// every constructor and mutator preserves that block count.
#[verifier::external_body]
pub(crate) fn bs_blocks(b: &FixedBitSet) -> (r: &[u32])
    ensures
        r@.len() == (bits_of(*b).len() + 31) / 32,
        forall|i: int|
            0 <= i < bits_of(*b).len() ==> (bits_of(*b)[i] == (((#[trigger] r@[i / 32] >> ((i % 32)
                as u32)) & 1u32) == 1u32)),
{
    b.as_slice()
}

} // verus!
