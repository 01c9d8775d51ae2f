//! The library's only sources of randomness, each a thin wrapper over the
//! `rand` crate.

use rand::seq::SliceRandom;
use rand::RngCore;
use vstd::prelude::*;

verus! {

/// Relies on rand::seq::SliceRandom::shuffle: a Fisher-Yates pass over the
/// slice that permutes it in place, so the elements are kept and only their
/// order changes.
#[verifier::external_body]
pub(crate) fn shuffle_indices(v: &mut Vec<usize>)
    ensures
        final(v)@.to_multiset() == old(v)@.to_multiset(),
        final(v)@.len() == old(v)@.len(),
{
    v.shuffle(&mut rand::thread_rng());
}

/// Relies on rand::rngs::ThreadRng and rand::RngCore::fill_bytes for one
/// byte from the thread-local generator; nothing holds of a random value.
#[verifier::external_body]
pub(crate) fn random_byte() -> u8 {
    let mut b: u8 = 0;
    rand::thread_rng().fill_bytes(std::slice::from_mut(&mut b));
    b
}

} // verus!
