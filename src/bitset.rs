//! The cell storage: a bit set from the `fixedbitset` crate, seen through
//! the sequence of bits it holds.
//!
//! Every bit set handled here is made by `with_capacity`, `set` or `clone`,
//! so no bit past its length is ever enabled.

use fixedbitset::FixedBitSet;
use vstd::prelude::*;

use crate::rules::set_indices;

verus! {

#[verifier::external_type_specification]
#[verifier::external_body]
pub struct ExFixedBitSet(FixedBitSet);

/// The bits that a bit set holds, one per position below its length.
pub uninterp spec fn bits_of(s: FixedBitSet) -> Seq<bool>;

/// Whether bit `k` of `w` is enabled.
pub open spec fn word_bit(w: u32, k: int) -> bool {
    (w >> (k as u32)) & 1u32 == 1u32
}

/// Relies on `FixedBitSet::with_capacity`: `n` bits, all clear.
#[verifier::external_body]
pub(crate) fn with_capacity(n: usize) -> (r: FixedBitSet)
    ensures
        bits_of(r) == Seq::new(n as nat, |i: int| false),
{
    FixedBitSet::with_capacity(n)
}

/// Relies on `FixedBitSet::contains`: the bit at `bit`, and `false` past the length.
#[verifier::external_body]
pub(crate) fn contains(s: &FixedBitSet, bit: usize) -> (r: bool)
    ensures
        r == (bit < bits_of(*s).len() && bits_of(*s)[bit as int]),
{
    s.contains(bit)
}

/// Relies on `FixedBitSet::set`: writes one bit and leaves the others; it
/// panics past the length.
#[verifier::external_body]
pub(crate) fn set(s: &mut FixedBitSet, bit: usize, enabled: bool)
    requires
        bit < bits_of(*old(s)).len(),
    ensures
        bits_of(*final(s)) == bits_of(*old(s)).update(bit as int, enabled),
{
    s.set(bit, enabled)
}

/// Relies on `FixedBitSet`'s `Clone`: a copy of the blocks and the length.
#[verifier::external_body]
pub(crate) fn copy(s: &FixedBitSet) -> (r: FixedBitSet)
    ensures
        bits_of(r) == bits_of(*s),
{
    s.clone()
}

/// Relies on `FixedBitSet::ones`: the positions of the enabled bits, in
/// increasing order.
#[verifier::external_body]
pub(crate) fn ones(s: &FixedBitSet) -> (r: Vec<usize>)
    ensures
        r@.map_values(|i: usize| i as int) == set_indices(bits_of(*s)),
{
    s.ones().collect()
}

/// Relies on `FixedBitSet::as_slice`: the 32-bit blocks, bit `i` of the set
/// being bit `i % 32` of block `i / 32`.
#[verifier::external_body]
pub(crate) fn blocks(s: &FixedBitSet) -> (r: &[u32])
    ensures
        r@.len() == (bits_of(*s).len() + 31) / 32,
        forall|i: int|
            0 <= i < bits_of(*s).len() ==> (#[trigger] bits_of(*s)[i] == word_bit(r@[i / 32], i % 32)),
{
    s.as_slice()
}

} // verus!
