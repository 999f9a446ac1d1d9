//! Trusted view of the `fixedbitset` crate's `FixedBitSet`, which stores
//! the grid's cells as one bit each. The set's contents are modelled as a
//! `Seq<bool>` through [`bits_of`]; the wrappers below state what the few
//! methods the engine calls do to that sequence.

use vstd::prelude::*;

verus! {

#[verifier::external_type_specification]
#[verifier::external_body]
pub struct ExFixedBitSet(fixedbitset::FixedBitSet);

/// The bits held by a `FixedBitSet`, in index order: `bits_of(s)[i]` is
/// true exactly when bit `i` is set.
pub uninterp spec fn bits_of(s: fixedbitset::FixedBitSet) -> Seq<bool>;

/// Relies on `FixedBitSet::with_capacity`: a set of `nbits` bits, all unset.
#[verifier::external_body]
pub(crate) fn bitset_new(nbits: usize) -> (r: fixedbitset::FixedBitSet)
    ensures
        bits_of(r) == Seq::new(nbits as nat, |i: int| false),
{
    fixedbitset::FixedBitSet::with_capacity(nbits)
}

/// Relies on `FixedBitSet::contains`: whether bit `bit` is set.
#[verifier::external_body]
pub(crate) fn bitset_contains(s: &fixedbitset::FixedBitSet, bit: usize) -> (r: bool)
    requires
        bit < bits_of(*s).len(),
    ensures
        r == bits_of(*s)[bit as int],
{
    s.contains(bit)
}

/// Relies on `FixedBitSet::set`: sets bit `bit` to `enabled`, leaving the
/// others alone; panics when `bit` is out of range, so that is required away.
#[verifier::external_body]
pub(crate) fn bitset_set(s: &mut fixedbitset::FixedBitSet, bit: usize, enabled: bool)
    requires
        bit < bits_of(*old(s)).len(),
    ensures
        bits_of(*final(s)) == bits_of(*old(s)).update(bit as int, enabled),
{
    s.set(bit, enabled)
}

/// Relies on `FixedBitSet::toggle`: flips bit `bit`, leaving the others
/// alone; panics when `bit` is out of range, so that is required away.
#[verifier::external_body]
pub(crate) fn bitset_toggle(s: &mut fixedbitset::FixedBitSet, bit: usize)
    requires
        bit < bits_of(*old(s)).len(),
    ensures
        bits_of(*final(s)) == bits_of(*old(s)).update(bit as int, !bits_of(*old(s))[bit as int]),
{
    s.toggle(bit)
}

} // verus!
