//! Per-request freshness: the timestamp and the nonce.
//!
//! The canonicalization and signing pipeline is a pure function of its
//! inputs; only the two functions here consult the clock.

use vstd::prelude::*;
use crate::encode::all_ascii;
use crate::text::{ascii_to_string, chars_of_bytes};

verus! {

/// Relies on chrono's Utc::now and DateTime::to_rfc3339_opts with seconds
/// precision and a `Z` suffix: the current UTC time in RFC 3339 form.
/// Nothing is assumed of the value, which depends on the clock.
#[verifier::external_body]
pub fn now_rfc3339_seconds() -> (r: String) {
    chrono::Utc::now().to_rfc3339_opts(chrono::SecondsFormat::Secs, true)
}

/// Relies on chrono's Utc::now and DateTime::timestamp_nanos_opt:
/// nanoseconds since the Unix epoch, where they fit an `i64`. Nothing is
/// assumed of the value, which depends on the clock.
#[verifier::external_body]
pub fn now_unix_nanos() -> (r: Option<i64>) {
    chrono::Utc::now().timestamp_nanos_opt()
}

/// Decimal digits of `n`, most significant first, as ASCII bytes.
pub open spec fn dec_bytes(n: nat) -> Seq<u8>
    decreases n,
{
    if n < 10 {
        seq![(48 + n) as u8]
    } else {
        dec_bytes(n / 10).push((48 + n % 10) as u8)
    }
}

/// Decimal digit strings are non-empty and ASCII.
pub proof fn lemma_dec_bytes_bounds(n: nat)
    ensures
        dec_bytes(n).len() >= 1,
        all_ascii(dec_bytes(n)),
    decreases n,
{
    if n >= 10 {
        lemma_dec_bytes_bounds(n / 10);
    }
}

/// Decimal rendering of a 64-bit value.
fn u64_dec_bytes(n: u64) -> (r: Vec<u8>)
    ensures
        r@ == dec_bytes(n as nat),
    decreases n,
{
    if n < 10 {
        let mut r: Vec<u8> = Vec::new();
        r.push(48 + (n as u8));
        proof {
            assert(r@ =~= dec_bytes(n as nat));
        }
        r
    } else {
        let mut r = u64_dec_bytes(n / 10);
        r.push(48 + ((n % 10) as u8));
        proof {
            assert(r@ =~= dec_bytes(n as nat));
        }
        r
    }
}

/// A fresh request nonce: the clock reading in nanoseconds, rendered in
/// decimal. Distinct calls read distinct nanosecond counts in practice,
/// which is what keeps nonces from repeating; nothing of the sort can be
/// promised of a clock, so the contract only fixes the shape.
pub fn fresh_nonce() -> (r: String)
    ensures
        r@.len() >= 1,
        exists|n: nat| r@ == chars_of_bytes(dec_bytes(n)),
{
    let now = now_unix_nanos();
    let v: u64 = match now {
        Some(x) => if x >= 0 {
            x as u64
        } else {
            0
        },
        None => 0,
    };
    let d = u64_dec_bytes(v);
    proof {
        lemma_dec_bytes_bounds(v as nat);
    }
    let r = ascii_to_string(d);
    proof {
        assert(r@ == chars_of_bytes(dec_bytes(v as nat)));
    }
    r
}

} // verus!
