//! SCALE encoding of the values that enter a digest, and the decoding of a
//! digest into an account identifier.
use vstd::prelude::*;
use vstd::bytes::{
    spec_u16_to_le_bytes, spec_u32_to_le_bytes, spec_u64_from_le_bytes, spec_u64_to_le_bytes,
};
use parity_scale_codec::{Decode, Encode};
use sp_runtime::traits::TrailingZeroInput;

verus! {

/// The SCALE compact encoding of a length `n` of at most `u32::MAX`.
///
/// The two lowest bits of the first byte tell the form: one byte for a
/// length under 2^6, two bytes under 2^14, four bytes under 2^30, each
/// holding the length shifted left by two bits, least significant byte
/// first; and the byte 3 followed by the four bytes of the length beyond
/// that.
pub open spec fn compact_length(n: nat) -> Seq<u8> {
    if n < 64 {
        seq![(n * 4) as u8]
    } else if n < 16384 {
        spec_u16_to_le_bytes((n * 4 + 1) as u16)
    } else if n < 1073741824 {
        spec_u32_to_le_bytes((n * 4 + 2) as u32)
    } else {
        seq![3u8] + spec_u32_to_le_bytes(n as u32)
    }
}

/// The eight bytes of each identifier of `ids`, least significant first, one
/// identifier after the other.
pub open spec fn ids_bytes(ids: Seq<u64>) -> Seq<u8>
    decreases ids.len(),
{
    if ids.len() == 0 {
        Seq::<u8>::empty()
    } else {
        ids_bytes(ids.drop_last()) + spec_u64_to_le_bytes(ids.last())
    }
}

/// The SCALE encoding of a list of account identifiers: the compact-encoded
/// number of identifiers, then each identifier.
pub open spec fn scale_encoded_ids(ids: Seq<u64>) -> Seq<u8> {
    compact_length(ids.len()) + ids_bytes(ids)
}

/// The SCALE encoding of a byte string: the compact-encoded number of
/// bytes, then the bytes.
pub open spec fn scale_encoded_bytes(bytes: Seq<u8>) -> Seq<u8> {
    compact_length(bytes.len()) + bytes
}

/// Calls `parity_scale_codec::Encode::encode` on a `Vec<u64>`.
///
/// Trusted: the result is the encoding of a vector as the crate documents
/// it and [`scale_encoded_ids`] states it. The encoder panics on a list of
/// more than `u32::MAX` items, which `requires` leaves out.
#[verifier::external_body]
pub(crate) fn scale_encode_ids(ids: &Vec<u64>) -> (encoded: Vec<u8>)
    requires
        ids@.len() <= u32::MAX,
    ensures
        encoded@ == scale_encoded_ids(ids@),
{
    ids.encode()
}

/// Calls `parity_scale_codec::Encode::encode` on a `Vec<u8>`.
///
/// Trusted: the result is the encoding of a vector as the crate documents
/// it and [`scale_encoded_bytes`] states it. The encoder panics on more than
/// `u32::MAX` bytes, which `requires` leaves out.
#[verifier::external_body]
pub(crate) fn scale_encode_bytes(bytes: &Vec<u8>) -> (encoded: Vec<u8>)
    requires
        bytes@.len() <= u32::MAX,
    ensures
        encoded@ == scale_encoded_bytes(bytes@),
{
    bytes.encode()
}

/// Calls `parity_scale_codec::Encode::encode` on a `u64`.
///
/// Trusted: the encoding of a `u64` is its eight bytes, least significant
/// first.
#[verifier::external_body]
pub(crate) fn scale_encode_u64(value: u64) -> (encoded: Vec<u8>)
    ensures
        encoded@ == spec_u64_to_le_bytes(value),
{
    value.encode()
}

/// Calls `parity_scale_codec::Decode::decode` for a `u64` on
/// `sp_runtime::traits::TrailingZeroInput` over the digest.
///
/// Trusted: such an input never runs out, so decoding cannot fail, and a
/// `u64` is read from the first eight bytes, least significant first.
#[verifier::external_body]
pub(crate) fn decode_account_id(digest: &[u8; 32]) -> (id: u64)
    ensures
        id == spec_u64_from_le_bytes(digest@.subrange(0, 8)),
{
    u64::decode(&mut TrailingZeroInput::new(&digest[..]))
        .expect("an input of endless length decodes into any integer")
}

} // verus!
