//! The binary-safe encoding of a config's joined line content.
//!
//! The `data` column holds the joined lines base64-encoded, so that texts
//! with quotes or other delicate characters survive storage losslessly.
//! The encoding itself is base64's; it is named, not restated, and the
//! decoder's contract pins it down as the exact inverse.

use vstd::prelude::*;

use crate::error::Error;
use base64::Engine;

verus! {

/// The base64 form (standard alphabet, padded) of the UTF-8 bytes of a
/// text.
pub uninterp spec fn b64_of(text: Seq<char>) -> Seq<char>;

/// Relies on base64's `Engine::encode` with the `STANDARD` engine: the
/// result is a function of the input bytes alone.
#[verifier::external_body]
pub(crate) fn encode_text(s: &str) -> (r: String)
    ensures
        r@ == b64_of(s@),
{
    base64::engine::general_purpose::STANDARD.encode(s.as_bytes())
}

/// Relies on base64's `Engine::decode` with the `STANDARD` engine: it
/// requires canonical padding and rejects set trailing bits, so it accepts
/// exactly the outputs of `Engine::encode` and returns their unique
/// preimage; decoded bytes that are not UTF-8 likewise have no text
/// preimage.
#[verifier::external_body]
pub(crate) fn decode_text(s: &str) -> (r: Result<String, Error>)
    ensures
        match r {
            Ok(t) => b64_of(t@) == s@ && forall|u: Seq<char>| b64_of(u) == s@ ==> u == t@,
            Err(e) => e == Error::Storage && forall|u: Seq<char>| b64_of(u) != s@,
        },
{
    match base64::engine::general_purpose::STANDARD.decode(s.as_bytes()) {
        Ok(bytes) => match String::from_utf8(bytes) {
            Ok(t) => Ok(t),
            Err(_) => Err(Error::Storage),
        },
        Err(_) => Err(Error::Storage),
    }
}

} // verus!
