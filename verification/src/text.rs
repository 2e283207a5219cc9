//! UTF-8 decoding and ASCII case mapping, the text operations of std that the
//! parser and the executor rely on.

use vstd::prelude::*;
use vstd::utf8::*;

verus! {

/// The text that `String::from_utf8_lossy` makes of `bytes`: the decoded
/// characters, with U+FFFD in place of each ill-formed sequence.
pub uninterp spec fn utf8_lossy(bytes: Seq<u8>) -> Seq<char>;

/// The text made of `bytes` as `String::from_utf8_lossy` makes it: the plain
/// decoding of well-formed UTF-8, and otherwise the decoding with U+FFFD in
/// place of each ill-formed sequence.
pub open spec fn lossy_text(bytes: Seq<u8>) -> Seq<char> {
    if valid_utf8(bytes) {
        decode_utf8(bytes)
    } else {
        utf8_lossy(bytes)
    }
}

/// The ASCII upper-case form of a text: `'a'..='z'` become `'A'..='Z'`, every
/// other character stays.
pub open spec fn ascii_upper(s: Seq<char>) -> Seq<char> {
    s.map_values(|c: char| if 'a' <= c && c <= 'z' { ((c as u32) - 32) as char } else { c })
}

/// Calls `std::str::from_utf8`: the bytes are accepted exactly when they are
/// well-formed UTF-8, and the text is then their decoding (vstd's
/// `valid_utf8` and `decode_utf8` state the encoding).
#[verifier::external_body]
pub(crate) fn utf8_to_string(bytes: &[u8]) -> (r: Option<String>)
    ensures
        match r {
            Some(s) => valid_utf8(bytes@) && s@ == decode_utf8(bytes@),
            None => !valid_utf8(bytes@),
        },
{
    match std::str::from_utf8(bytes) {
        Ok(s) => Some(s.to_string()),
        Err(_) => None,
    }
}

/// Calls `String::from_utf8_lossy`; the text is named by `utf8_lossy`, and for
/// well-formed UTF-8 it is the plain decoding, as its documentation states.
#[verifier::external_body]
pub(crate) fn utf8_lossy_string(bytes: &[u8]) -> (r: String)
    ensures
        r@ == utf8_lossy(bytes@),
        valid_utf8(bytes@) ==> r@ == decode_utf8(bytes@),
        r@ == lossy_text(bytes@),
{
    String::from_utf8_lossy(bytes).to_string()
}

/// Calls `str::to_ascii_uppercase`, which maps `'a'..='z'` to `'A'..='Z'` and
/// keeps every other character.
#[verifier::external_body]
pub(crate) fn to_ascii_uppercase(s: &str) -> (r: String)
    ensures
        r@ == ascii_upper(s@),
{
    s.to_ascii_uppercase()
}

} // verus!
