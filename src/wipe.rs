//! Wiping key material from memory.
use vstd::prelude::*;
use zeroize::Zeroize;

verus! {

/// Relies on `Zeroize` for byte arrays: every byte is overwritten with zero.
#[verifier::external_body]
pub(crate) fn wipe_key_bytes(bytes: &mut [u8; 32])
    ensures
        final(bytes)@ == Seq::new(32, |i: int| 0u8),
    opens_invariants none
    no_unwind
{
    bytes.zeroize();
}

/// Relies on `Zeroize` for `Vec<u8>`: the bytes and the spare capacity are
/// overwritten with zeros, then the vector is emptied.
#[verifier::external_body]
pub(crate) fn wipe_byte_vec(bytes: &mut Vec<u8>)
    ensures
        final(bytes)@.len() == 0,
    opens_invariants none
    no_unwind
{
    bytes.zeroize();
}

/// Relies on `Zeroize` for `String`: its buffer is overwritten with zeros,
/// then the string is emptied.
#[verifier::external_body]
pub(crate) fn wipe_string(s: &mut String)
    ensures
        final(s)@.len() == 0,
    opens_invariants none
    no_unwind
{
    s.zeroize();
}

} // verus!
