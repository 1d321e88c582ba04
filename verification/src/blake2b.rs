//! The BLAKE2b hash of the `blake2b_simd` crate.

use vstd::prelude::*;

verus! {

/// The BLAKE2b digest of `input`, with output length `hash_length` and
/// personalization `personal`, unkeyed and unsalted.
pub uninterp spec fn blake2b_personal(hash_length: usize, personal: Seq<u8>, input: Seq<u8>) -> Seq<u8>;

/// Hashes `input` with `blake2b_simd::Params::new().hash_length(..).personal(..).hash(..)`.
///
/// Trusted: the digest is `blake2b_personal` of the three arguments, and it is
/// `hash_length` bytes long (`Hash::as_bytes` returns the first `hash_length`
/// bytes of the state). `hash_length` outside `1..=64` makes the crate panic,
/// so `requires` leaves it out; a 16-byte personalization is always accepted.
#[verifier::external_body]
pub(crate) fn blake2b_hash(hash_length: usize, personal: &[u8; 16], input: &[u8]) -> (digest: Vec<u8>)
    requires
        1 <= hash_length <= 64,
    ensures
        digest@ == blake2b_personal(hash_length, personal@, input@),
        digest@.len() == hash_length,
{
    blake2b_simd::Params::new().hash_length(hash_length).personal(personal).hash(input).as_bytes().to_vec()
}

} // verus!
