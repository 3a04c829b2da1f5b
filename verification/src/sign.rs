//! The string-to-sign and the HMAC-SHA1/base64 signature primitives.

use vstd::prelude::*;
use crate::encode::{all_ascii, encode_bytes, percent_encode_bytes};

verus! {

/// The HMAC-SHA1 tag of a message under a key. The tag is a fixed function
/// of key and message alone; its pages-long definition is left to the
/// signing library and is not restated here.
pub uninterp spec fn hmac_sha1_of(key: Seq<u8>, message: Seq<u8>) -> Seq<u8>;

/// The base64 rendering of a byte string, standard alphabet with `=`
/// padding, a fixed function of the bytes alone.
pub uninterp spec fn base64_of(bytes: Seq<u8>) -> Seq<char>;

/// Relies on ring's hmac::Key::new with HMAC_SHA1_FOR_LEGACY_USE_ONLY and
/// on ring's hmac::sign: the 20-byte HMAC-SHA1 tag of the message under the
/// key, determined by key and message alone. ring signs any input shorter
/// than SHA-1's length limit; the bounds keep callers clear of it.
#[verifier::external_body]
pub fn hmac_sha1(key: &[u8], message: &[u8]) -> (r: Vec<u8>)
    requires
        key@.len() < 0x800000000000000,
        message@.len() < 0x800000000000000,
    ensures
        r@ == hmac_sha1_of(key@, message@),
        r@.len() == 20,
{
    let k = ring::hmac::Key::new(ring::hmac::HMAC_SHA1_FOR_LEGACY_USE_ONLY, key);
    let tag = ring::hmac::sign(&k, message);
    tag.as_ref().to_vec()
}

/// Relies on base64::encode: standard-alphabet base64 with `=` padding,
/// four ASCII characters for every three input bytes, determined by the
/// bytes alone.
#[verifier::external_body]
pub fn base64_string(bytes: &[u8]) -> (r: String)
    ensures
        r@ == base64_of(bytes@),
        r@.len() == 4 * ((bytes@.len() + 2) / 3),
{
    base64::encode(bytes)
}

/// The fixed prefix of every string-to-sign: `GET&%2F&`, as ASCII bytes.
pub open spec fn method_prefix() -> Seq<u8> {
    seq![71u8, 69u8, 84u8, 38u8, 37u8, 50u8, 70u8, 38u8]
}

/// The string-to-sign of a canonical query string: the fixed prefix
/// `GET&%2F&` followed by the strict encoding of the whole canonical string
/// taken as a single value.
pub open spec fn string_to_sign_of(canonical: Seq<u8>) -> Seq<u8> {
    method_prefix() + encode_bytes(canonical)
}

/// Build the string-to-sign of a canonical query string.
pub fn string_to_sign(canonical: &[u8]) -> (r: Vec<u8>)
    ensures
        r@ == string_to_sign_of(canonical@),
        r@.len() <= 8 + 3 * canonical@.len(),
{
    let mut r: Vec<u8> = Vec::new();
    r.push(71);
    r.push(69);
    r.push(84);
    r.push(38);
    r.push(37);
    r.push(50);
    r.push(70);
    r.push(38);
    let mut e = percent_encode_bytes(canonical);
    r.append(&mut e);
    proof {
        assert(r@ =~= string_to_sign_of(canonical@));
    }
    r
}

} // verus!
