//! Conversion between ASCII byte strings and `String`.

use vstd::prelude::*;
use vstd::string::*;
use crate::encode::{all_ascii, encode_bytes, percent_encode_bytes};

verus! {

/// The characters of an ASCII byte string, one character per byte.
pub open spec fn chars_of_bytes(s: Seq<u8>) -> Seq<char> {
    s.map_values(|b: u8| b as char)
}

/// Relies on std's String::from_utf8: ASCII bytes are valid UTF-8 and
/// decode to the string holding exactly those characters.
#[verifier::external_body]
pub fn ascii_to_string(v: Vec<u8>) -> (r: String)
    requires
        all_ascii(v@),
    ensures
        r@ == chars_of_bytes(v@),
{
    match String::from_utf8(v) {
        Ok(s) => s,
        Err(_) => String::new(),
    }
}

/// Strict percent-encoding of a string, applied to its UTF-8 bytes.
pub fn percent_encode(s: &str) -> (r: String)
    ensures
        r@ == chars_of_bytes(encode_bytes(s.spec_bytes())),
{
    let b = s.as_bytes_vec();
    let e = percent_encode_bytes(b.as_slice());
    ascii_to_string(e)
}

} // verus!
