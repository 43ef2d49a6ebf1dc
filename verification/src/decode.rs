//! What the standard library decides about UTF-8.
//!
//! Nothing in this file is proved. Each item states what a function of the
//! standard library returns, and the rest of the crate is verified against
//! these statements.

use vstd::prelude::*;
use vstd::utf8::*;

verus! {

/// The text with which the standard library describes why `bytes` is not
/// valid UTF-8: what the error of `std::str::from_utf8` displays.
pub uninterp spec fn utf8_failure_detail(bytes: Seq<u8>) -> Seq<char>;

/// The text that `String::from_utf8_lossy` makes of `bytes`, with a
/// replacement character wherever they are not valid UTF-8.
pub uninterp spec fn lossy_text(bytes: Seq<u8>) -> Seq<char>;

/// Calls `std::str::from_utf8`. The claim: it accepts exactly the byte
/// sequences that are valid UTF-8, and hands them back as the text they
/// encode; what its error displays depends on the bytes alone.
#[verifier::external_body]
pub(crate) fn utf8_text(bytes: &[u8]) -> (r: Result<&str, String>)
    ensures
        r is Ok <==> valid_utf8(bytes@),
        r matches Ok(text) ==> text@ == decode_utf8(bytes@),
        r matches Err(detail) ==> detail@ == utf8_failure_detail(bytes@),
{
    match std::str::from_utf8(bytes) {
        Ok(text) => Ok(text),
        Err(err) => Err(err.to_string()),
    }
}

/// Calls `String::from_utf8_lossy`. The claim: the text it returns depends on
/// the bytes alone.
#[verifier::external_body]
pub(crate) fn lossy(bytes: &[u8]) -> (text: String)
    ensures
        text@ == lossy_text(bytes@),
{
    String::from_utf8_lossy(bytes).into_owned()
}

/// `String::push` appends one character.
pub assume_specification[ String::push ](s: &mut String, ch: char)
    ensures
        final(s)@ == old(s)@.push(ch),
;

} // verus!
