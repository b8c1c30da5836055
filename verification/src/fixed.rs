//! The fixed-size sequence: a collection whose element count is part of its
//! type and never changes. Out-of-range access is rejected before execution;
//! in-range access has no failure path.

use vstd::prelude::*;

verus! {

/// The seven letters used to demonstrate indexed reads of a fixed-size
/// sequence.
pub fn letters() -> (r: [char; 7])
    ensures
        r@ =~= seq!['a', 'b', 'c', 'd', 'e', 'f', 'g'],
{
    ['a', 'b', 'c', 'd', 'e', 'f', 'g']
}

/// A fixed-size sequence built from a single repeated value and a count
/// known before the program runs: a buffer of 512 zeroed bytes.
pub fn byte_buffer() -> (r: [u8; 512])
    ensures
        forall|i: int| 0 <= i < 512 ==> r@[i] == 0,
{
    [0u8; 512]
}

/// Read-only indexed access to a fixed-size sequence of seven elements.
/// The bound is part of the contract, so an out-of-range index is rejected
/// at verification time and the read itself can never fault.
pub fn read_letter(a: &[char; 7], i: usize) -> (r: char)
    requires
        i < 7,
    ensures
        r == a@[i as int],
{
    a[i]
}

} // verus!
