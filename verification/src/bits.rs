//! The dense bit-packed cell storage, kept in `fixedbitset::FixedBitSet`.
//! The contents of a bit set are modeled by the uninterpreted `bits_of`,
//! and the three operations the engine needs are wrapped with contracts
//! over that model.

use vstd::prelude::*;

verus! {

#[verifier::external_type_specification]
#[verifier::external_body]
pub struct ExFixedBitSet(fixedbitset::FixedBitSet);

/// The value of each bit of the set, lowest index first.
pub uninterp spec fn bits_of(b: fixedbitset::FixedBitSet) -> Seq<bool>;

/// Relies on FixedBitSet::with_capacity: a set of exactly `n` bits,
/// all initially unset.
#[verifier::external_body]
pub(crate) fn fbs_with_capacity(n: usize) -> (r: fixedbitset::FixedBitSet)
    ensures
        bits_of(r) == Seq::new(n as nat, |i: int| false),
{
    fixedbitset::FixedBitSet::with_capacity(n)
}

/// Relies on FixedBitSet::set: writes one bit in bounds and leaves the
/// rest unchanged (it panics out of bounds, which the contract rules out).
#[verifier::external_body]
pub(crate) fn fbs_set(b: &mut fixedbitset::FixedBitSet, i: usize, v: bool)
    requires
        i < bits_of(*old(b)).len(),
    ensures
        bits_of(*final(b)) == bits_of(*old(b)).update(i as int, v),
{
    b.set(i, v)
}

/// Relies on FixedBitSet::contains: whether the bit at an in-bounds
/// index is set.
#[verifier::external_body]
pub(crate) fn fbs_contains(b: &fixedbitset::FixedBitSet, i: usize) -> (r: bool)
    requires
        i < bits_of(*b).len(),
    ensures
        r == bits_of(*b)[i as int],
{
    b.contains(i)
}

} // verus!
