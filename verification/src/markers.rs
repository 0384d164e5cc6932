//! Zero-sized marker types and a fixed-size array wrapper with a
//! compile-time length.

use vstd::prelude::*;
use core::marker::PhantomData;

verus! {

/// Marker for a click.
pub struct ClickEvent;

/// Marker for a hover.
pub struct HoverEvent;

/// A zero-sized event tagged at the type level by its marker `T`.
pub struct Event<T> {
    marker: PhantomData<T>,
}

impl<T> Event<T> {
    /// A new event of kind `T`.
    pub fn new() -> (e: Self) {
        Event { marker: PhantomData }
    }
}

/// A fixed-size array wrapper whose length `N` is part of the type.
pub struct Array<T, const N: usize> {
    pub data: [T; N],
}

impl<T: Copy, const N: usize> Array<T, N> {
    /// An array with every element set to `fill`.
    pub fn new(fill: T) -> (a: Self)
        ensures
            forall|i: int| 0 <= i < N ==> a.data@[i] == fill,
    {
        Array { data: [fill;N] }
    }

    /// The compile-time length `N`.
    pub fn len(&self) -> (l: usize)
        ensures
            l == N,
    {
        N
    }
}

} // verus!
