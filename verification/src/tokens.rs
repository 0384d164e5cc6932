//! Scanning a batch of values for a marked token: the compute step of a
//! judge task whose answer is whether a given token occurs in the case's
//! sequence.

use vstd::prelude::*;

verus! {

/// Whether `target` occurs anywhere in `values`.
pub fn contains_value(values: &Vec<i32>, target: i32) -> (r: bool)
    ensures
        r == values@.contains(target),
{
    let mut found = false;
    let mut j: usize = 0;
    while j < values.len()
        invariant
            j <= values@.len(),
            found == exists|t: int| 0 <= t < j && values@[t] == target,
        decreases values@.len() - j,
    {
        if values[j] == target {
            found = true;
        }
        j += 1;
    }
    found
}

} // verus!
