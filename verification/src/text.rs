//! Text carried by a decoded payload: UTF-8 validation of the bytes and the
//! compact string that holds the text.

use vstd::prelude::*;
use vstd::string::StringSliceAdditionalSpecFns;
use vstd::utf8::{decode_utf8, valid_utf8};

use compact_str::CompactString;

verus! {

/// `compact_str::CompactString`, an owned string stored inline when short.
#[verifier::external_type_specification]
#[verifier::external_body]
pub struct ExCompactString(CompactString);

/// The characters a `CompactString` holds.
pub uninterp spec fn compact_chars(s: CompactString) -> Seq<char>;

/// `core::str::from_utf8`: the bytes as text when they are valid UTF-8. The documentation
/// promises success exactly for valid UTF-8, and a `str` over the same bytes.
#[verifier::external_body]
fn utf8_str(bytes: &[u8]) -> (r: Option<&str>)
    ensures
        r is Some <==> valid_utf8(bytes@),
        r matches Some(s) ==> s.spec_bytes() == bytes@,
{
    core::str::from_utf8(bytes).ok()
}

/// `CompactString::from(&str)`: a compact string holding the same characters.
#[verifier::external_body]
fn compact_from_str(s: &str) -> (r: CompactString)
    ensures
        compact_chars(r) == s@,
{
    CompactString::from(s)
}

/// The bytes as compact text, if they are valid UTF-8.
pub fn utf8_text(bytes: &[u8]) -> (r: Option<CompactString>)
    ensures
        r is Some <==> valid_utf8(bytes@),
        r matches Some(s) ==> compact_chars(s) == decode_utf8(bytes@),
{
    match utf8_str(bytes) {
        Some(s) => {
            proof {
                vstd::utf8::encode_utf8_decode_utf8(s@);
            }
            Some(compact_from_str(s))
        },
        None => None,
    }
}

} // verus!
