//! Percent-decoding of request path segments.
//!
//! Decoding happens on the UTF-8 bytes of a segment: every `%XX` escape
//! (two hex digits) becomes the byte `XX`, and the decoded bytes must read
//! back as UTF-8.  The full mapping takes the URL standard to state, so it
//! is left as an uninterpreted function of the segment; the library records
//! beside it only what the decoder's documentation plainly gives: a segment
//! without `%` decodes to itself.

use vstd::prelude::*;

verus! {

/// What percent-decoding yields on a segment, or `None` when the decoded
/// bytes are not valid UTF-8.
pub uninterp spec fn decoded_of(s: Seq<char>) -> Option<Seq<char>>;

/// The mathematical value of a decode result.
pub open spec fn decoded_view(r: Option<String>) -> Option<Seq<char>> {
    match r {
        Some(d) => Some(d@),
        None => None,
    }
}

/// Relies on `percent_encoding::percent_decode_str` and
/// `PercentDecode::decode_utf8`: un-escapes each `%XX` sequence in the
/// segment's bytes and validates the result as UTF-8.  A segment without
/// `%` has no escape to un-escape and is valid UTF-8 already, so it decodes
/// to itself.
#[verifier::external_body]
pub fn percent_decode_segment(s: &str) -> (r: Option<String>)
    ensures
        decoded_view(r) == decoded_of(s@),
        !s@.contains('%') ==> decoded_view(r) == Some(s@),
{
    match percent_encoding::percent_decode_str(s).decode_utf8() {
        Ok(decoded) => Some(decoded.into_owned()),
        Err(_) => None,
    }
}

} // verus!
