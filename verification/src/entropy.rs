//! The library's only source of randomness, kept behind one trusted
//! declaration so that everything built on top of it is verified for every
//! possible outcome.

use vstd::prelude::*;

verus! {

/// Relies on rand::random: draws one uniformly random value of the
/// requested type from the thread-local generator. Nothing is assumed of
/// the value.
pub assume_specification<T>[ rand::random::<T> ]() -> (r: T)
    where
        rand::distributions::Standard: rand::distributions::Distribution<T>,
;

/// Draws `n` random bytes.
pub fn random_bytes(n: usize) -> (r: Vec<u8>)
    ensures
        r@.len() == n,
{
    let mut v: Vec<u8> = Vec::new();
    while v.len() < n
        invariant
            v@.len() <= n,
        decreases n - v@.len(),
    {
        let b: u8 = rand::random::<u8>();
        v.push(b);
    }
    v
}

} // verus!
