//! The random source: the thread-local generator of the `rand` crate.
//!
//! This is the only contract of the library that is taken on trust, and it
//! promises nothing about the value drawn: every caller is proved correct
//! for each value that may come back.

use vstd::prelude::*;

verus! {

/// `rand::random` samples a value of type `T` from the standard
/// distribution with the thread-local generator. The contract claims
/// nothing about the value: two calls may return anything that `T` holds.
/// The call takes no argument and fails only where the operating system
/// cannot seed the generator.
pub assume_specification<T>[ rand::random::<T> ]() -> (draw: T)
    where rand::distributions::Standard: rand::distributions::Distribution<T>,
;

} // verus!
