//! Strict percent-encoding of byte strings.
//!
//! Unreserved bytes (ASCII letters, digits, `-`, `_`, `.`, `~`) stand for
//! themselves; every other byte becomes `%` followed by two upper-case hex
//! digits. In particular a space becomes `%20`, `*` becomes `%2A`, and `~`
//! is left as itself, as the provider's signing scheme demands.

use vstd::prelude::*;

verus! {

/// The bytes the strict encoding leaves unescaped: ASCII letters, digits,
/// `-`, `_`, `.` and `~`.
pub open spec fn is_unreserved(b: u8) -> bool {
    (65 <= b && b <= 90)  // 'A'..='Z'
    || (97 <= b && b <= 122)  // 'a'..='z'
    || (48 <= b && b <= 57)  // '0'..='9'
    || b == 45  // '-'
    || b == 95  // '_'
    || b == 46  // '.'
    || b == 126  // '~'
}

/// Every byte of `s` is unreserved.
pub open spec fn all_unreserved(s: Seq<u8>) -> bool {
    forall|i: int| 0 <= i < s.len() ==> is_unreserved(#[trigger] s[i])
}

/// Every byte of `s` is ASCII.
pub open spec fn all_ascii(s: Seq<u8>) -> bool {
    forall|i: int| 0 <= i < s.len() ==> #[trigger] s[i] < 128
}

/// Upper-case hexadecimal digit (as an ASCII byte) of a value below 16.
pub open spec fn hex_upper(n: u8) -> u8
    recommends
        n < 16,
{
    if n < 10 {
        (48 + n) as u8  // '0' + n
    } else {
        (55 + n) as u8  // 'A' + (n - 10)
    }
}

/// Strict encoding of a single byte.
pub open spec fn encode_byte(b: u8) -> Seq<u8> {
    if is_unreserved(b) {
        seq![b]
    } else {
        seq![37u8, hex_upper(b / 16), hex_upper(b % 16)]  // '%' h h
    }
}

/// Strict encoding of a byte string: each byte encoded in order.
pub open spec fn encode_bytes(s: Seq<u8>) -> Seq<u8>
    decreases s.len(),
{
    if s.len() == 0 {
        Seq::empty()
    } else {
        encode_byte(s[0]) + encode_bytes(s.drop_first())
    }
}

/// Peeling the last byte off the input peels its encoding off the output.
pub proof fn lemma_encode_bytes_snoc(s: Seq<u8>)
    requires
        s.len() > 0,
    ensures
        encode_bytes(s) == encode_bytes(s.drop_last()) + encode_byte(s.last()),
    decreases s.len(),
{
    if s.len() == 1 {
        assert(s.drop_last() =~= Seq::<u8>::empty());
        assert(s.drop_first() =~= Seq::<u8>::empty());
        assert(encode_bytes(s) =~= encode_bytes(s.drop_last()) + encode_byte(s.last()));
    } else {
        lemma_encode_bytes_snoc(s.drop_first());
        assert(s.drop_first().drop_last() =~= s.drop_last().drop_first());
        assert(s.drop_first().last() == s.last());
        assert(s.drop_last()[0] == s[0]);
        assert(s.drop_last().len() > 0);
        assert(encode_bytes(s) =~= encode_bytes(s.drop_last()) + encode_byte(s.last()));
    }
}

/// The encoding of one byte is ASCII and at most three bytes long.
pub proof fn lemma_encode_byte_bounds(b: u8)
    ensures
        all_ascii(encode_byte(b)),
        1 <= encode_byte(b).len() <= 3,
{
}

/// The encoding of a byte string is ASCII and at most three times as long.
pub proof fn lemma_encode_bytes_bounds(s: Seq<u8>)
    ensures
        all_ascii(encode_bytes(s)),
        encode_bytes(s).len() <= 3 * s.len(),
    decreases s.len(),
{
    if s.len() > 0 {
        lemma_encode_byte_bounds(s[0]);
        lemma_encode_bytes_bounds(s.drop_first());
        assert forall|i: int| 0 <= i < encode_bytes(s).len() implies #[trigger] encode_bytes(
            s,
        )[i] < 128 by {
            let head = encode_byte(s[0]);
            if i >= head.len() {
                assert(encode_bytes(s)[i] == encode_bytes(s.drop_first())[i - head.len()]);
            }
        }
    }
}

/// An all-unreserved byte string encodes to itself.
pub proof fn lemma_encode_unreserved_identity(s: Seq<u8>)
    requires
        all_unreserved(s),
    ensures
        encode_bytes(s) == s,
    decreases s.len(),
{
    if s.len() > 0 {
        assert(is_unreserved(s[0]));
        lemma_encode_unreserved_identity(s.drop_first());
        assert(encode_bytes(s) =~= s);
    }
}

/// The three bytes the provider's scheme singles out encode as the scheme
/// demands: a space becomes `%20`, `*` becomes `%2A`, and `~` stays `~`.
pub proof fn lemma_encode_deviations()
    ensures
        encode_byte(32) == seq![37u8, 50u8, 48u8],  // ' '  -> "%20"
        encode_byte(42) == seq![37u8, 50u8, 65u8],  // '*'  -> "%2A"
        encode_byte(126) == seq![126u8],  // '~'  -> "~"
{
    assert(encode_byte(32) =~= seq![37u8, 50u8, 48u8]);
    assert(encode_byte(42) =~= seq![37u8, 50u8, 65u8]);
    assert(encode_byte(126) =~= seq![126u8]);
}

/// Upper-case hexadecimal digit of a value below 16.
fn hex_digit_upper(n: u8) -> (r: u8)
    requires
        n < 16,
    ensures
        r == hex_upper(n),
{
    if n < 10 {
        48 + n
    } else {
        55 + n
    }
}

/// Whether a byte is left unescaped by the strict encoding.
fn is_unreserved_byte(b: u8) -> (r: bool)
    ensures
        r == is_unreserved(b),
{
    (65 <= b && b <= 90) || (97 <= b && b <= 122) || (48 <= b && b <= 57) || b == 45 || b == 95
        || b == 46 || b == 126
}

/// Strict percent-encoding of a byte string.
pub fn percent_encode_bytes(s: &[u8]) -> (r: Vec<u8>)
    ensures
        r@ == encode_bytes(s@),
        all_ascii(r@),
        r@.len() <= 3 * s@.len(),
{
    let mut r: Vec<u8> = Vec::new();
    let mut i: usize = 0;
    while i < s.len()
        invariant
            i <= s@.len(),
            r@ == encode_bytes(s@.take(i as int)),
        decreases s@.len() - i,
    {
        let b = s[i];
        if is_unreserved_byte(b) {
            r.push(b);
        } else {
            r.push(37);
            r.push(hex_digit_upper(b / 16));
            r.push(hex_digit_upper(b % 16));
        }
        proof {
            let t = s@.take(i + 1);
            assert(t.drop_last() =~= s@.take(i as int));
            assert(t.last() == s@[i as int]);
            lemma_encode_bytes_snoc(t);
            assert(r@ =~= encode_bytes(t));
        }
        i = i + 1;
    }
    proof {
        assert(s@.take(s@.len() as int) =~= s@);
        lemma_encode_bytes_bounds(s@);
    }
    r
}

} // verus!
