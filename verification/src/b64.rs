//! Base64 framing for chunk, scratchpad and key-value payloads.
//!
//! Chunk content travels base64-encoded; the engine decodes it before
//! storage and re-encodes it on retrieval. Both directions are named
//! abstractly: each is a function of its input alone.

use base64::Engine;
use vstd::prelude::*;

verus! {

/// The padded standard-alphabet base64 rendering of a byte sequence.
pub uninterp spec fn base64_encoded(data: Seq<u8>) -> Seq<char>;

/// What the padded standard-alphabet base64 decoder yields on a string:
/// `None` when the string is not valid base64.
pub uninterp spec fn base64_decoded(s: Seq<char>) -> Option<Seq<u8>>;

/// Relies on base64's STANDARD engine (standard alphabet, padded): the
/// encoding is determined by the input bytes alone, and decoding it yields
/// the bytes back. The input bound keeps the output length computation
/// within `usize`.
#[verifier::external_body]
pub(crate) fn b64_encode(data: &[u8]) -> (r: String)
    requires
        data@.len() <= usize::MAX / 4,
    ensures
        r@ == base64_encoded(data@),
        base64_decoded(r@) == Some(data@),
{
    base64::engine::general_purpose::STANDARD.encode(data)
}

/// Relies on base64's STANDARD engine: the decoding is determined by the
/// input string alone; a rejected string yields `None`. The engine demands
/// canonical padding and rejects nonzero trailing bits, so a string that
/// decodes is exactly the encoding of its decoded bytes, which also bounds
/// the decoded length by the input length.
#[verifier::external_body]
pub(crate) fn b64_decode(s: &str) -> (r: Option<Vec<u8>>)
    ensures
        match r {
            Some(v) => base64_decoded(s@) == Some(v@) && v@.len() <= s@.len()
                && base64_encoded(v@) == s@,
            None => base64_decoded(s@) is None,
        },
{
    base64::engine::general_purpose::STANDARD.decode(s).ok()
}

} // verus!
