//! Turning the bytes of an object into text.
use vstd::prelude::*;
use vstd::utf8::{decode_utf8, valid_utf8};

verus! {

/// The words in which the standard library says why `bytes` are not UTF-8.
///
/// The library does not look into them: they are handed on as the detail of
/// a [`DecodeError`].
pub uninterp spec fn utf8_fault_text(bytes: Seq<u8>) -> Seq<char>;

/// Why the bytes of an object are not text.
#[derive(Debug, PartialEq, Eq)]
pub struct DecodeError {
    /// What the decoder said.
    pub detail: String,
}

impl View for DecodeError {
    type V = Seq<char>;

    open spec fn view(&self) -> Seq<char> {
        self.detail@
    }
}

/// What decoding `bytes` gives: their characters, or the decoder's words.
pub open spec fn decoded(bytes: Seq<u8>) -> Result<Seq<char>, Seq<char>> {
    if valid_utf8(bytes) {
        Ok(decode_utf8(bytes))
    } else {
        Err(utf8_fault_text(bytes))
    }
}

/// Calls `String::from_utf8`, and `to_string` on the error it may return.
///
/// Trusted: the call succeeds exactly on well-formed UTF-8, the string then
/// holds the characters that the bytes encode, and the error's text depends
/// on the bytes alone.
#[verifier::external_body]
fn string_from_utf8(bytes: Vec<u8>) -> (r: Result<String, String>)
    ensures
        r is Ok <==> valid_utf8(bytes@),
        r matches Ok(text) ==> text@ == decode_utf8(bytes@),
        r matches Err(detail) ==> detail@ == utf8_fault_text(bytes@),
{
    match String::from_utf8(bytes) {
        Ok(text) => Ok(text),
        Err(e) => Err(e.to_string()),
    }
}

/// Reads bytes as UTF-8 text.
pub fn decode(bytes: Vec<u8>) -> (r: Result<String, DecodeError>)
    ensures
        match decoded(bytes@) {
            Ok(text) => r is Ok && r->Ok_0@ == text,
            Err(detail) => r is Err && r->Err_0@ == detail,
        },
{
    match string_from_utf8(bytes) {
        Ok(text) => Ok(text),
        Err(detail) => Err(DecodeError { detail }),
    }
}

} // verus!
