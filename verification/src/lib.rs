//! A small verified library grown out of a collection of Rust exercises.
//!
//! The centrepiece is the heap-position permutation checker in [`checker`]:
//! given a sequence claimed to place the values `1..=n` into heap array
//! positions, it decides whether every value's recorded position can reach
//! its target index by repeated doubling or halving, the parent/child moves
//! of a 1-based binary heap. The remaining modules hold small verified
//! utilities: arithmetic helpers, string length helpers, a rectangle type,
//! a builder, and a guarded integer.

pub mod checker;
pub mod exercises;
pub mod guess;
pub mod house;
pub mod markers;
pub mod people;
pub mod shapes;
pub mod tokens;
