//! Trusted boundary to the `rand` crate.
//!
//! The simulation draws randomness in two places: seeding the spawn
//! rotation cursor and steering bots. Nothing can be promised about a
//! random value, so the specification below has no `ensures`; every
//! caller states what holds of its own result whatever value comes back.

use vstd::prelude::*;

verus! {

/// Relies on `rand::random`: draws one value of the standard
/// distribution from the thread-local generator.
pub assume_specification<T>[ rand::random::<T> ]() -> (r: T)
    where
        rand::distributions::Standard: rand::distributions::Distribution<T>,
;

} // verus!
