//! Base64 encoding and decoding of binary payloads, through the `base64`
//! crate. The encoding itself is not restated here: the two spec names
//! below stand for what the crate computes, and the wrappers record the
//! documented facts the transcoder's proofs need — the standard alphabet
//! (so an encoded payload never contains a space or a line terminator),
//! the padded output length, and that decoding an encoding gives back the
//! original bytes.

use vstd::prelude::*;

verus! {

/// The base64 text (standard alphabet, with padding) of a byte sequence,
/// as `base64::encode` computes it.
pub uninterp spec fn b64_encode_of(bytes: Seq<u8>) -> Seq<u8>;

/// The bytes that base64 text decodes to, as `base64::decode` computes
/// them: `None` where the text is not valid base64.
pub uninterp spec fn b64_decode_of(text: Seq<u8>) -> Option<Seq<u8>>;

/// A byte of the standard base64 alphabet, or the `=` padding byte.
pub open spec fn is_b64_byte(b: u8) -> bool {
    ||| 65 <= b <= 90  // A-Z
    ||| 97 <= b <= 122  // a-z
    ||| 48 <= b <= 57  // 0-9
    ||| b == 43  // +
    ||| b == 47  // /
    ||| b == 61  // = (padding)
}

/// Relies on `base64::encode` with the standard, padded configuration:
/// the output draws on the standard alphabet plus `=` padding, is four
/// bytes for every three input bytes rounded up, and `base64::decode`
/// recovers the input from it exactly.
#[verifier::external_body]
pub(crate) fn b64_encode(bytes: &[u8]) -> (r: Vec<u8>)
    ensures
        r@ == b64_encode_of(bytes@),
        b64_decode_of(r@) == Some(bytes@),
        r@.len() == 4 * ((bytes@.len() + 2) / 3),
        forall|i: int| 0 <= i < r@.len() ==> is_b64_byte(r@[i]),
{
    base64::encode(bytes).into_bytes()
}

/// Relies on `base64::decode` with the standard, padded configuration:
/// it returns the decoded bytes, or an error where the input is not
/// valid base64.
#[verifier::external_body]
pub(crate) fn b64_decode(text: &[u8]) -> (r: Option<Vec<u8>>)
    ensures
        match r {
            Some(v) => b64_decode_of(text@) == Some(v@),
            None => b64_decode_of(text@) is None,
        },
{
    match base64::decode(text) {
        Ok(v) => Some(v),
        Err(_) => None,
    }
}

} // verus!
