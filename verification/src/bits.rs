//! Trusted view of `bit_vec::BitVec`, the bit storage both filter variants
//! build on. The contents of a vector are modelled as a `Seq<bool>`, and each
//! method the filters call gets a wrapper whose contract states what the
//! method does to that sequence.

use vstd::prelude::*;

verus! {

/// Declares `bit_vec::BitVec` so that it can stand in signatures and fields.
#[verifier::external_type_specification]
#[verifier::external_body]
#[verifier::reject_recursive_types(B)]
pub struct ExBitVec<B>(bit_vec::BitVec<B>);

/// The bits a `bit_vec::BitVec` holds, in index order.
pub uninterp spec fn bit_vec_bits(v: bit_vec::BitVec) -> Seq<bool>;

/// Relies on `bit_vec::BitVec::from_elem`: a vector of `len` bits, every one
/// equal to `bit`.
#[verifier::external_body]
pub(crate) fn bitvec_from_elem(len: usize, bit: bool) -> (r: bit_vec::BitVec)
    ensures
        bit_vec_bits(r).len() == len,
        forall|j: int| 0 <= j < len ==> bit_vec_bits(r)[j] == bit,
{
    bit_vec::BitVec::from_elem(len, bit)
}

/// Relies on `bit_vec::BitVec::len`: the number of bits held.
#[verifier::external_body]
pub(crate) fn bitvec_len(v: &bit_vec::BitVec) -> (r: usize)
    ensures
        r == bit_vec_bits(*v).len(),
{
    v.len()
}

/// Relies on `bit_vec::BitVec::get`: `Some` of bit `i` when `i` is in
/// bounds, `None` otherwise; the vector is not changed.
#[verifier::external_body]
pub(crate) fn bitvec_get(v: &bit_vec::BitVec, i: usize) -> (r: Option<bool>)
    ensures
        r == (if i < bit_vec_bits(*v).len() {
            Some(bit_vec_bits(*v)[i as int])
        } else {
            None::<bool>
        }),
{
    v.get(i)
}

/// Relies on `bit_vec::BitVec::set`: writes `x` to bit `i` and leaves every
/// other bit alone. The method panics out of bounds, so that is excluded.
#[verifier::external_body]
pub(crate) fn bitvec_set(v: &mut bit_vec::BitVec, i: usize, x: bool)
    requires
        i < bit_vec_bits(*old(v)).len(),
    ensures
        bit_vec_bits(*final(v)) == bit_vec_bits(*old(v)).update(i as int, x),
{
    v.set(i, x)
}

} // verus!
