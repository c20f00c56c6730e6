//! Content addressing: SHA-256 digests rendered as lowercase hex.
//!
//! `address_for` is the address codec: a deterministic, fixed-length hex
//! identifier computed from the canonical bytes of a primitive.

use sha2::Digest;
use vstd::prelude::*;

use crate::hexstr::hex_char;

verus! {

/// The SHA-256 digest of a byte sequence, named abstractly: the digest is a
/// function of the input bytes alone.
pub uninterp spec fn sha256_of(data: Seq<u8>) -> Seq<u8>;

/// Relies on sha2::Sha256: a 32-byte digest determined by the input bytes alone.
#[verifier::external_body]
pub(crate) fn sha256(data: &[u8]) -> (r: Vec<u8>)
    ensures
        r@ == sha256_of(data@),
        r@.len() == 32,
{
    sha2::Sha256::digest(data).to_vec()
}

/// Lowercase hex rendering of a byte sequence: two digits per byte, high
/// nibble first.
pub open spec fn spec_hex_encode(data: Seq<u8>) -> Seq<char> {
    Seq::new(
        2 * data.len(),
        |i: int|
            if i % 2 == 0 {
                hex_char(data[i / 2] >> 4)
            } else {
                hex_char(data[i / 2] & 0xf)
            },
    )
}

/// Relies on hex::encode: lowercase hex, two digits per input byte, high
/// nibble first. The input bound keeps the output length within `usize`.
#[verifier::external_body]
pub(crate) fn hex_encode(data: &[u8]) -> (r: String)
    requires
        data@.len() <= usize::MAX / 2,
    ensures
        r@ == spec_hex_encode(data@),
{
    hex::encode(data)
}

/// The address of a byte sequence: lowercase hex of its SHA-256 digest.
pub open spec fn spec_address_of(data: Seq<u8>) -> Seq<char> {
    spec_hex_encode(sha256_of(data))
}

/// Computes the content address of a byte sequence: 64 lowercase hex
/// characters, the same for every call on the same bytes.
pub fn address_for(data: &[u8]) -> (r: String)
    ensures
        r@ == spec_address_of(data@),
        r@.len() == 64,
{
    let digest = sha256(data);
    hex_encode(digest.as_slice())
}

} // verus!
