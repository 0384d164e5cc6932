//! A guarded integer: a guess that is only ever constructed in the range
//! `1..=100`.

use vstd::prelude::*;

verus! {

/// A guess whose value is guaranteed to lie in `1..=100`.
pub struct Guess {
    value: i32,
}

impl Guess {
    /// The wrapped value.
    pub closed spec fn spec_value(&self) -> i32 {
        self.value
    }

    /// The guarded range: the wrapped value lies in `1..=100`.
    pub open spec fn wf(&self) -> bool {
        1 <= self.spec_value() <= 100
    }

    /// Wraps a value, which must lie in `1..=100`.
    pub fn new(value: i32) -> (g: Guess)
        requires
            1 <= value <= 100,
        ensures
            g.spec_value() == value,
            g.wf(),
    {
        Guess { value }
    }

    /// Reads the wrapped value.
    pub fn value(&self) -> (v: i32)
        ensures
            v == self.spec_value(),
    {
        self.value
    }
}

} // verus!
