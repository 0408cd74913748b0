//! Randomness for the sampler.
//!
//! The only trusted item of the crate sits here: a specification for
//! `rand::random`, which promises nothing of the value drawn.  The verified
//! helpers below fold a raw draw into the ranges the tracer needs, so every
//! contract downstream holds whatever the generator returns.

use vstd::prelude::*;

verus! {

/// Relies on rand::random: an independent draw from the thread-local
/// generator.  Nothing can be promised of a random value.
pub assume_specification<T>[ rand::random::<T> ]() -> (r: T)
    where
        rand::distributions::Standard: rand::distributions::Distribution<T>,
;

/// A random raw scalar in `[-1, 1]`, that is in `[-65536, 65536]`.
pub fn rand_sym() -> (r: i64)
    ensures
        -65536 <= r <= 65536,
{
    let u: u64 = rand::random::<u64>();
    (u % 131073) as i64 - 65536
}

/// A random raw scalar in `[0, 1)`, that is in `[0, 65536)`.
pub fn rand_01() -> (r: i64)
    ensures
        0 <= r < 65536,
{
    let u: u64 = rand::random::<u64>();
    (u % 65536) as i64
}

} // verus!
