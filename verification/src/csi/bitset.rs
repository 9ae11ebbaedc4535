//! The bit set that marks candidate bins during a query, kept in bit_vec's
//! packed bit vector.

use vstd::prelude::*;

verus! {

#[verifier::external_type_specification]
#[verifier::external_body]
#[verifier::reject_recursive_types(B)]
pub struct ExBitVec<B>(bit_vec::BitVec<B>);

/// The bits a packed bit vector holds, in index order.
pub uninterp spec fn bits_of(bv: bit_vec::BitVec<u32>) -> Seq<bool>;

/// Relies on bit_vec's `BitVec::from_elem`: a fresh vector of `nbits` bits,
/// each equal to `bit`.
#[verifier::external_body]
pub fn bitvec_from_elem(nbits: usize, bit: bool) -> (r: bit_vec::BitVec<u32>)
    ensures
        bits_of(r).len() == nbits,
        forall|i: int| 0 <= i < nbits ==> bits_of(r)[i] == bit,
{
    bit_vec::BitVec::from_elem(nbits, bit)
}

/// Relies on bit_vec's `BitVec::set`: it stores `bit` at index `i` and leaves
/// every other bit alone; it panics only when `i` is out of bounds, which the
/// precondition rules out.
#[verifier::external_body]
pub fn bitvec_set(bv: &mut bit_vec::BitVec<u32>, i: usize, bit: bool)
    requires
        i < bits_of(*old(bv)).len(),
    ensures
        bits_of(*final(bv)) == bits_of(*old(bv)).update(i as int, bit),
{
    bv.set(i, bit);
}

/// Relies on bit_vec's `BitVec::get`: it returns the bit at index `i`, and
/// `None` only when `i` is out of bounds, which the precondition rules out.
#[verifier::external_body]
pub fn bitvec_get(bv: &bit_vec::BitVec<u32>, i: usize) -> (r: bool)
    requires
        i < bits_of(*bv).len(),
    ensures
        r == bits_of(*bv)[i as int],
{
    bv.get(i).expect("the index is within bounds")
}

} // verus!
