//! Bytes as text: conversions the standard library makes.

use vstd::prelude::*;

verus! {

/// What `String::from_utf8_lossy` makes of a byte string.
pub uninterp spec fn lossy_text(bytes: Seq<u8>) -> Seq<char>;

/// What the `Debug` rendering of a string slice is.
pub uninterp spec fn debug_text(s: Seq<char>) -> Seq<char>;

/// `String::from_utf8_lossy`, as an owned string. Claimed: the text is a
/// function of the bytes, and of valid UTF-8 it is what the bytes encode.
/// How ill-formed sequences are replaced is left unsaid.
#[verifier::external_body]
pub(crate) fn from_utf8_lossy(bytes: &[u8]) -> (r: String)
    ensures
        r@ == lossy_text(bytes@),
        vstd::utf8::valid_utf8(bytes@) ==> r@ == vstd::utf8::decode_utf8(bytes@),
{
    String::from_utf8_lossy(bytes).into_owned()
}

/// `format!("{:?}")` of a string slice. Claimed: the rendering is a
/// function of the text. Which characters are escaped is left unsaid.
#[verifier::external_body]
pub(crate) fn debug_str(s: &str) -> (r: String)
    ensures
        r@ == debug_text(s@),
{
    format!("{:?}", s)
}

/// `String::from_utf8`. Claimed: it succeeds exactly on valid UTF-8, and
/// then gives the text that the bytes encode.
#[verifier::external_body]
pub(crate) fn string_from_utf8(bytes: Vec<u8>) -> (r: Option<String>)
    ensures
        r is Some <==> vstd::utf8::valid_utf8(bytes@),
        r is Some ==> r->0@ == vstd::utf8::decode_utf8(bytes@),
{
    String::from_utf8(bytes).ok()
}

} // verus!
