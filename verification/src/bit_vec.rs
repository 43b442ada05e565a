//! The small bit vector that remembers which modifiers a pass has reported.

use smallbitvec::SmallBitVec;
use vstd::prelude::*;

verus! {

/// `smallbitvec::SmallBitVec`, held opaque.
#[verifier::external_type_specification]
#[verifier::external_body]
pub struct ExSmallBitVec(smallbitvec::SmallBitVec);

/// The bits that a `SmallBitVec` holds, first bit first.
pub uninterp spec fn bits_of(v: SmallBitVec) -> Seq<bool>;

/// Calls `SmallBitVec::from_elem(len, val)`, which builds a vector of `len`
/// bits, each equal to `val`. The inline capacity is the word width less
/// two, so up to 30 bits are stored inline on 32- and 64-bit targets and no
/// allocation can fail; larger lengths are left out.
#[verifier::external_body]
pub(crate) fn bits_from_elem(len: usize, val: bool) -> (v: SmallBitVec)
    requires
        len <= 30,
    ensures
        bits_of(v) == Seq::new(len as nat, |i: int| val),
{
    SmallBitVec::from_elem(len, val)
}

/// Calls `SmallBitVec::set(n, val)`, which overwrites bit `n` and leaves the
/// others; it panics when `n` is out of bounds, which `requires` rules out.
#[verifier::external_body]
pub(crate) fn bits_set(v: &mut SmallBitVec, n: usize, val: bool)
    requires
        n < bits_of(*old(v)).len(),
    ensures
        bits_of(*final(v)) == bits_of(*old(v)).update(n as int, val),
{
    v.set(n, val)
}

/// Calls the indexing operator `v[n]` of `SmallBitVec`, which returns bit
/// `n`; it panics when `n` is out of bounds, which `requires` rules out.
#[verifier::external_body]
pub(crate) fn bits_index(v: &SmallBitVec, n: usize) -> (b: bool)
    requires
        n < bits_of(*v).len(),
    ensures
        b == bits_of(*v)[n as int],
{
    v[n]
}

} // verus!
