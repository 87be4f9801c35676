//! The two text primitives the console takes from std: lenient decoding of
//! output bytes, and whitespace trimming of prompts.

use vstd::prelude::*;

verus! {

/// The text that lenient UTF-8 decoding makes of a byte sequence.
pub uninterp spec fn lossy_of(b: Seq<u8>) -> Seq<char>;

/// The text left when leading and trailing whitespace is removed.
pub uninterp spec fn trim_of(s: Seq<char>) -> Seq<char>;

/// A text is blank when nothing but whitespace is in it.
pub open spec fn is_blank(s: Seq<char>) -> bool {
    trim_of(s).len() == 0
}

/// Relies on `String::from_utf8_lossy`: every invalid sequence becomes a
/// replacement character, so decoding never fails; nothing decodes to nothing.
#[verifier::external_body]
pub(crate) fn decode_lossy(b: &[u8]) -> (r: String)
    ensures
        r@ == lossy_of(b@),
        b@.len() == 0 ==> r@.len() == 0,
{
    String::from_utf8_lossy(b).into_owned()
}

/// Relies on `str::trim`: the result is the text without its leading and
/// trailing whitespace.
#[verifier::external_body]
pub(crate) fn trim(s: &str) -> (r: &str)
    ensures
        r@ == trim_of(s@),
{
    s.trim()
}

/// Whether a text holds nothing but whitespace.
pub fn blank(s: &str) -> (r: bool)
    ensures
        r == is_blank(s@),
{
    trim(s).is_empty()
}

} // verus!
