//! Client-side request construction for an SMS-over-HTTP-GET provider API.
//!
//! The crate builds a signed request URL from a credential pair and a set of
//! request parameters: every key and value is percent-encoded under a strict
//! byte-level scheme, the encoded `key=value` pairs are sorted in ascending
//! byte order and joined with `&` into a canonical query string, an
//! HMAC-SHA1 signature (base64-encoded) is computed over a string derived
//! from that canonical form, and the signature is appended to the final URL.
//! Sending the request and decoding the JSON reply are left to the caller.

pub mod aliyun;
pub mod canonical;
pub mod clock;
pub mod encode;
pub mod order;
pub mod proto;
pub mod sign;
pub mod text;

pub use aliyun::Aliyun;
