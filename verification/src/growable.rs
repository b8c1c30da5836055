//! The growable sequence: an ordered collection whose length may change at
//! runtime through append and remove-last. Bounds are checked at runtime, so
//! the direct indexed read and write carry a precondition that excludes the
//! faulting out-of-range inputs, and a non-faulting read returns an absent
//! result instead.

use vstd::prelude::*;

verus! {

/// Construct an empty growable sequence.
pub fn make_empty() -> (r: Vec<i64>)
    ensures
        r@ == Seq::<i64>::empty(),
{
    Vec::new()
}

/// Construct a growable sequence of `n` copies of one value.
pub fn repeated(x: i64, n: usize) -> (r: Vec<i64>)
    ensures
        r@.len() == n,
        forall|i: int| 0 <= i < n ==> r@[i] == x,
{
    let mut r: Vec<i64> = Vec::new();
    let mut k: usize = 0;
    while k < n
        invariant
            k <= n,
            r@.len() == k,
            forall|i: int| 0 <= i < k ==> r@[i] == x,
        decreases n - k,
    {
        r.push(x);
        k = k + 1;
    }
    r
}

/// Append one value at the end, growing the sequence by one.
pub fn append(v: &mut Vec<i64>, x: i64)
    ensures
        final(v)@ == old(v)@.push(x),
{
    v.push(x);
}

/// Remove and return the last element. On an empty sequence the result is
/// absent and the sequence is unchanged; this operation never faults.
pub fn remove_last(v: &mut Vec<i64>) -> (r: Option<i64>)
    ensures
        old(v)@.len() == 0 ==> r is None && final(v)@ == old(v)@,
        old(v)@.len() > 0 ==> r == Some(old(v)@.last()) && final(v)@ == old(v)@.drop_last(),
{
    let r = v.pop();
    proof {
        if old(v)@.len() > 0 {
            assert(final(v)@ =~= old(v)@.drop_last());
        }
    }
    r
}

/// Direct indexed read. Out of range this operation is a fatal runtime
/// fault, so the precondition admits only in-range indices; for any other
/// index use `read_checked`.
pub fn read_at(v: &Vec<i64>, i: usize) -> (r: i64)
    requires
        i < v@.len(),
    ensures
        r == v@[i as int],
{
    v[i]
}

/// Non-faulting indexed read: absent exactly when the index is out of range.
pub fn read_checked(v: &Vec<i64>, i: usize) -> (r: Option<i64>)
    ensures
        i < v@.len() ==> r == Some(v@[i as int]),
        i >= v@.len() ==> r is None,
{
    if i < v.len() {
        Some(v[i])
    } else {
        None
    }
}

/// Direct indexed write. As with `read_at`, an out-of-range index is a
/// fatal runtime fault and is excluded by the precondition.
pub fn write_at(v: &mut Vec<i64>, i: usize, x: i64)
    requires
        i < old(v)@.len(),
    ensures
        final(v)@ == old(v)@.update(i as int, x),
{
    v.set(i, x);
}

} // verus!
