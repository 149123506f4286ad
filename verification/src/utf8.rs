//! UTF-8 validity of a line, through `std::str::from_utf8`. An opaque
//! line is forwarded only where it is valid UTF-8 text; validity is a
//! function of the bytes alone and is named rather than restated.

use vstd::prelude::*;

verus! {

/// Whether a byte sequence is valid UTF-8, as `core::str::from_utf8`
/// decides it.
pub uninterp spec fn is_utf8(bytes: Seq<u8>) -> bool;

/// Relies on `core::str::from_utf8`: it returns `Ok` exactly when the
/// bytes are valid UTF-8.
#[verifier::external_body]
pub(crate) fn utf8_check(bytes: &[u8]) -> (r: bool)
    ensures
        r == is_utf8(bytes@),
{
    core::str::from_utf8(bytes).is_ok()
}

} // verus!
