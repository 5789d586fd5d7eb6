//! The digest function that addresses and call ids are derived with.
use vstd::prelude::*;

verus! {

/// The 256-bit BLAKE2b digest of `data`, as `sp_io::hashing::blake2_256`
/// computes it. The digest is a function of the bytes alone.
pub uninterp spec fn blake2_256_digest(data: Seq<u8>) -> Seq<u8>;

/// Calls `sp_io::hashing::blake2_256` on the bytes of `data`.
///
/// Trusted: the result is the digest that [`blake2_256_digest`] names. Nothing
/// else is claimed of it; that it has 32 bytes is its type.
#[verifier::external_body]
pub(crate) fn blake2_256(data: &Vec<u8>) -> (digest: [u8; 32])
    ensures
        digest@ == blake2_256_digest(data@),
{
    sp_io::hashing::blake2_256(data.as_slice())
}

/// The digest of `data` as an array of its 32 bytes.
pub open spec fn digest_of(data: Seq<u8>) -> [u8; 32] {
    choose|digest: [u8; 32]| digest@ == blake2_256_digest(data)
}

/// The 256-bit BLAKE2b digest of `data`.
pub fn digest(data: &Vec<u8>) -> (digest: [u8; 32])
    ensures
        digest == digest_of(data@),
        digest@ == blake2_256_digest(data@),
{
    broadcast use vstd::array::group_array_axioms;

    let digest: [u8; 32] = blake2_256(data);
    assert(digest_of(data@)@ == digest@);
    assert(digest_of(data@) =~= digest);
    digest
}

} // verus!
