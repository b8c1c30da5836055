//! Two worked micro-exercises in positional access: extracting one element
//! from a fixed-size tuple and from a fixed-size array, each checked against
//! its expected value. The checks are proved, so neither can fault.

use vstd::prelude::*;

verus! {

/// Build the tuple `(1, 2, 3)` and check that the element at position 1
/// is `2`. The check is discharged by the verifier, so the function never
/// raises at runtime.
pub fn indexing_tuple() {
    let numbers: (i32, i32, i32) = (1, 2, 3);
    let second: i32 = numbers.1;
    assert(second == 2);
}

/// Build the array `['a', 'b', 'c', 'd', 'e']` and check that the element
/// at position 3 is `'d'`. The check is discharged by the verifier, so the
/// function never raises at runtime.
pub fn indexing_array() {
    let characters: [char; 5] = ['a', 'b', 'c', 'd', 'e'];
    let letter_d: char = characters[3];
    assert(letter_d == 'd');
}

} // verus!
