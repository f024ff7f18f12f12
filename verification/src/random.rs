//! Operating-system randomness, behind one trusted wrapper.

use rand::RngCore;
use vstd::prelude::*;

verus! {

/// A buffer of fresh random bytes.
///
/// Relies on rand: `thread_rng()` hands out the thread-local
/// cryptographically secure generator, and `RngCore::fill_bytes` fills the
/// whole buffer with random bytes. Nothing is promised of the values, only
/// the length; every caller must work for every byte string.
#[verifier::external_body]
pub(crate) fn random_bytes(n: usize) -> (r: Vec<u8>)
    ensures
        r@.len() == n,
{
    let mut v = vec![0u8; n];
    rand::thread_rng().fill_bytes(&mut v);
    v
}

} // verus!
