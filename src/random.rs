//! Randomness from the operating system's secure generator.
use rand::rngs::OsRng;
use rand::{Rng, RngCore};
use vstd::prelude::*;

verus! {

/// Relies on `RngCore::fill_bytes` of `rand::rngs::OsRng`: `len` bytes from the
/// operating system's secure generator. Nothing is known of their values.
#[verifier::external_body]
pub(crate) fn random_bytes(len: usize) -> (r: Vec<u8>)
    ensures
        r@.len() == len,
{
    let mut buf = vec![0u8; len];
    OsRng.fill_bytes(&mut buf);
    buf
}

/// Relies on `Rng::gen_range` over `rand::rngs::OsRng`: a value below `bound`.
#[verifier::external_body]
pub(crate) fn random_below(bound: usize) -> (r: usize)
    requires
        bound > 0,
    ensures
        r < bound,
{
    OsRng.gen_range(0..bound)
}

} // verus!
