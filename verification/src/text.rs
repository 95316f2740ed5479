//! Conversion between bytes and text.

use vstd::prelude::*;
use vstd::utf8::*;

verus! {

/// Calls `String::from_utf8` and drops the error's detail.
///
/// Trusted: the result is `Some` exactly when the bytes are well-formed
/// UTF-8, and then the text holds the characters that the bytes encode.
#[verifier::external_body]
pub(crate) fn text_of_bytes(bytes: Vec<u8>) -> (text: Option<String>)
    ensures
        text is Some <==> valid_utf8(bytes@),
        text matches Some(t) ==> t@ == decode_utf8(bytes@),
{
    String::from_utf8(bytes).ok()
}

} // verus!
