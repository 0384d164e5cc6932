//! Small verified functions on integers and strings: sums, lengths, and
//! picking the largest or longest of two or more values.

use vstd::prelude::*;
use vstd::string::StringExecFns;
use vstd::string::StringSliceAdditionalSpecFns;
use vstd::utf8::encode_utf8;

verus! {

/// The sum of `a` and `b`.
pub fn add(a: i32, b: i32) -> (r: i32)
    requires
        i32::MIN <= a + b <= i32::MAX,
    ensures
        r == a + b,
{
    a + b
}

/// The sum and the difference of `a` and `b`, as a pair.
pub fn add_sub(a: i32, b: i32) -> (r: (i32, i32))
    requires
        i32::MIN <= a + b <= i32::MAX,
        i32::MIN <= a - b <= i32::MAX,
    ensures
        r.0 == a + b,
        r.1 == a - b,
{
    (a + b, a - b)
}

/// The length of `s` in bytes of its UTF-8 encoding, reading the string
/// through a shared borrow.
pub fn calculate_length(s: &String) -> (len: usize)
    ensures
        len == encode_utf8(s@).len(),
{
    s.as_str().as_bytes().len()
}

/// Appends a fixed marker to `s` and returns the new length in bytes.
pub fn calculate_length_and_modify(s: &mut String) -> (len: usize)
    ensures
        final(s)@ == old(s)@ + " (modified)"@,
        len == encode_utf8(final(s)@).len(),
{
    s.append(" (modified)");
    s.as_str().as_bytes().len()
}

/// The length of `s` in bytes of its UTF-8 encoding, taking ownership of
/// the string.
pub fn calculate_length_full_ownership(s: String) -> (len: usize)
    ensures
        len == encode_utf8(s@).len(),
{
    s.as_str().as_bytes().len()
}

/// The largest element of a non-empty vector.
pub fn largest(list: &Vec<i32>) -> (r: i32)
    requires
        list@.len() > 0,
    ensures
        list@.contains(r),
        forall|j: int| 0 <= j < list@.len() ==> list@[j] <= r,
{
    let mut best: i32 = list[0];
    let mut idx: usize = 1;
    while idx < list.len()
        invariant
            1 <= idx <= list@.len(),
            list@.contains(best),
            forall|j: int| 0 <= j < idx ==> list@[j] <= best,
        decreases list@.len() - idx,
    {
        if list[idx] > best {
            best = list[idx];
        }
        idx += 1;
    }
    best
}

/// Of two string slices, the one with the greater byte length; ties go to
/// the second.
pub fn longest<'a>(x: &'a str, y: &'a str) -> (r: &'a str)
    ensures
        x.spec_bytes().len() > y.spec_bytes().len() ==> r@ == x@ && r.spec_bytes() == x.spec_bytes(),
        x.spec_bytes().len() <= y.spec_bytes().len() ==> r@ == y@ && r.spec_bytes() == y.spec_bytes(),
{
    if x.as_bytes().len() > y.as_bytes().len() {
        x
    } else {
        y
    }
}

} // verus!
