//! Canonical query string construction.
//!
//! Each parameter becomes `encode(key) + "=" + encode(value)`; the pair
//! strings are sorted in ascending byte order and joined with `&`. The
//! result is both the query string that is sent and the input to the
//! signature computation.

use vstd::prelude::*;
use crate::encode::{all_ascii, encode_bytes, lemma_encode_bytes_bounds, percent_encode_bytes};
use crate::order::{insert_sorted, lemma_sort_bytes, sort_bytes, sort_byte_strings, views_of};

verus! {

/// Encoded form of one parameter: `encode(key) "=" encode(value)`.
pub open spec fn pair_encoding(k: Seq<u8>, v: Seq<u8>) -> Seq<u8> {
    encode_bytes(k) + seq![61u8] + encode_bytes(v)  // '=' is 61
}

/// Encoded forms of a parameter list, in the order given.
pub open spec fn encoded_pairs(ps: Seq<(Seq<u8>, Seq<u8>)>) -> Seq<Seq<u8>> {
    ps.map_values(|p: (Seq<u8>, Seq<u8>)| pair_encoding(p.0, p.1))
}

/// Byte strings joined with `&` between them.
pub open spec fn join_amp(parts: Seq<Seq<u8>>) -> Seq<u8>
    decreases parts.len(),
{
    if parts.len() == 0 {
        Seq::empty()
    } else if parts.len() == 1 {
        parts[0]
    } else {
        parts[0] + seq![38u8] + join_amp(parts.drop_first())  // '&' is 38
    }
}

/// The canonical query string of a parameter list: encoded pairs, sorted in
/// ascending byte order, joined with `&`.
pub open spec fn canonical_of(ps: Seq<(Seq<u8>, Seq<u8>)>) -> Seq<u8> {
    join_amp(sort_bytes(encoded_pairs(ps)))
}

/// Every byte string of the sequence is ASCII.
pub open spec fn all_elems_ascii(s: Seq<Seq<u8>>) -> bool {
    forall|i: int| 0 <= i < s.len() ==> all_ascii(#[trigger] s[i])
}

/// Total length of a sequence of byte strings.
pub open spec fn total_len(s: Seq<Seq<u8>>) -> nat
    decreases s.len(),
{
    if s.len() == 0 {
        0
    } else {
        s[0].len() + total_len(s.drop_first())
    }
}

/// Length budget of a parameter list: each pair costs at most three bytes
/// per input byte plus one for the separator.
pub open spec fn pairs_budget(ps: Seq<(Seq<u8>, Seq<u8>)>) -> nat
    decreases ps.len(),
{
    if ps.len() == 0 {
        0
    } else {
        3 * ps[0].0.len() + 3 * ps[0].1.len() + 1 + pairs_budget(ps.drop_first())
    }
}

/// An encoded pair is ASCII and no longer than its budget.
pub proof fn lemma_pair_encoding_bounds(k: Seq<u8>, v: Seq<u8>)
    ensures
        all_ascii(pair_encoding(k, v)),
        pair_encoding(k, v).len() <= 3 * k.len() + 3 * v.len() + 1,
{
    lemma_encode_bytes_bounds(k);
    lemma_encode_bytes_bounds(v);
    let p = pair_encoding(k, v);
    assert forall|i: int| 0 <= i < p.len() implies #[trigger] p[i] < 128 by {
        let ek = encode_bytes(k);
        let ev = encode_bytes(v);
        if i < ek.len() {
            assert(p[i] == ek[i]);
        } else if i == ek.len() {
            assert(p[i] == 61u8);
        } else {
            assert(p[i] == ev[i - ek.len() - 1]);
        }
    }
}

/// The encoded pairs of a list are ASCII and fit its budget in total.
pub proof fn lemma_encoded_pairs_bounds(ps: Seq<(Seq<u8>, Seq<u8>)>)
    ensures
        all_elems_ascii(encoded_pairs(ps)),
        total_len(encoded_pairs(ps)) <= pairs_budget(ps),
    decreases ps.len(),
{
    assert forall|i: int| 0 <= i < encoded_pairs(ps).len() implies all_ascii(
        #[trigger] encoded_pairs(ps)[i],
    ) by {
        lemma_pair_encoding_bounds(ps[i].0, ps[i].1);
    }
    if ps.len() > 0 {
        lemma_encoded_pairs_bounds(ps.drop_first());
        lemma_pair_encoding_bounds(ps[0].0, ps[0].1);
        assert(encoded_pairs(ps).drop_first() =~= encoded_pairs(ps.drop_first()));
    }
}

/// Inserting a byte string grows the total length by its length.
pub proof fn lemma_insert_total_len(x: Seq<u8>, s: Seq<Seq<u8>>)
    ensures
        total_len(insert_sorted(x, s)) == total_len(s) + x.len(),
    decreases s.len(),
{
    let r = insert_sorted(x, s);
    if s.len() == 0 {
        assert(r.drop_first() =~= Seq::<Seq<u8>>::empty());
        assert(total_len(Seq::<Seq<u8>>::empty()) == 0);
        assert(r[0] == x);
    } else if crate::order::bytes_le(x, s[0]) {
        assert(r.drop_first() =~= s);
        assert(r[0] == x);
    } else {
        lemma_insert_total_len(x, s.drop_first());
        assert(r.drop_first() =~= insert_sorted(x, s.drop_first()));
        assert(r[0] == s[0]);
    }
}

/// Sorting keeps the total length.
pub proof fn lemma_sort_total_len(s: Seq<Seq<u8>>)
    ensures
        total_len(sort_bytes(s)) == total_len(s),
    decreases s.len(),
{
    if s.len() > 0 {
        lemma_sort_total_len(s.drop_last());
        lemma_insert_total_len(s.last(), sort_bytes(s.drop_last()));
        lemma_total_len_snoc(s);
    }
}

/// Total length over a sequence splits off its last element.
pub proof fn lemma_total_len_snoc(s: Seq<Seq<u8>>)
    requires
        s.len() > 0,
    ensures
        total_len(s) == total_len(s.drop_last()) + s.last().len(),
    decreases s.len(),
{
    if s.len() == 1 {
        assert(s.drop_first() =~= Seq::<Seq<u8>>::empty());
        assert(s.drop_last() =~= Seq::<Seq<u8>>::empty());
    } else {
        lemma_total_len_snoc(s.drop_first());
        assert(s.drop_first().drop_last() =~= s.drop_last().drop_first());
        assert(s.drop_first().last() == s.last());
        assert(s.drop_last()[0] == s[0]);
    }
}

/// A join of ASCII byte strings is ASCII and no longer than the strings
/// together with one separator for each.
pub proof fn lemma_join_amp_bounds(parts: Seq<Seq<u8>>)
    requires
        all_elems_ascii(parts),
    ensures
        all_ascii(join_amp(parts)),
        join_amp(parts).len() <= total_len(parts) + parts.len(),
    decreases parts.len(),
{
    if parts.len() <= 1 {
    } else {
        assert(all_elems_ascii(parts.drop_first())) by {
            assert forall|i: int| 0 <= i < parts.drop_first().len() implies all_ascii(
                #[trigger] parts.drop_first()[i],
            ) by {
                assert(parts.drop_first()[i] == parts[i + 1]);
            }
        }
        lemma_join_amp_bounds(parts.drop_first());
        let j = join_amp(parts);
        let rest = join_amp(parts.drop_first());
        assert forall|i: int| 0 <= i < j.len() implies #[trigger] j[i] < 128 by {
            if i < parts[0].len() {
                assert(j[i] == parts[0][i]);
            } else if i == parts[0].len() {
                assert(j[i] == 38u8);
            } else {
                assert(j[i] == rest[i - parts[0].len() - 1]);
            }
        }
    }
}

/// Appending one more byte string appends a separator and the string.
pub proof fn lemma_join_amp_snoc(parts: Seq<Seq<u8>>, x: Seq<u8>)
    requires
        parts.len() >= 1,
    ensures
        join_amp(parts.push(x)) == join_amp(parts) + seq![38u8] + x,
    decreases parts.len(),
{
    let p = parts.push(x);
    if parts.len() == 1 {
        assert(p.drop_first() =~= seq![x]);
        assert(join_amp(seq![x]) == x);
        assert(p[0] == parts[0]);
        assert(join_amp(p) =~= join_amp(parts) + seq![38u8] + x);
    } else {
        lemma_join_amp_snoc(parts.drop_first(), x);
        assert(p.drop_first() =~= parts.drop_first().push(x));
        assert(join_amp(p) =~= join_amp(parts) + seq![38u8] + x);
    }
}

/// Canonicalization is deterministic: equal parameter lists give the
/// byte-identical canonical query string, whatever run produces it.
pub proof fn lemma_canonical_deterministic(
    ps1: Seq<(Seq<u8>, Seq<u8>)>,
    ps2: Seq<(Seq<u8>, Seq<u8>)>,
)
    requires
        ps1 == ps2,
    ensures
        canonical_of(ps1) == canonical_of(ps2),
{
}

/// The canonical query string joins the encoded pairs in ascending ordinal
/// byte order, keeping every occurrence of every pair.
pub proof fn lemma_canonical_sorted(ps: Seq<(Seq<u8>, Seq<u8>)>)
    ensures
        crate::order::sorted_bytes(sort_bytes(encoded_pairs(ps))),
        forall|y: Seq<u8>|
            #[trigger] crate::order::count_of(sort_bytes(encoded_pairs(ps)), y)
                == crate::order::count_of(encoded_pairs(ps), y),
        canonical_of(ps) == join_amp(sort_bytes(encoded_pairs(ps))),
{
    lemma_sort_bytes(encoded_pairs(ps));
}

/// The canonical query string treats the parameter list as a mapping: it
/// depends only on which encoded pairs occur how often, never on the order
/// the parameters were listed in.
pub proof fn lemma_canonical_order_independent(
    ps1: Seq<(Seq<u8>, Seq<u8>)>,
    ps2: Seq<(Seq<u8>, Seq<u8>)>,
)
    requires
        forall|y: Seq<u8>|
            #[trigger] crate::order::count_of(encoded_pairs(ps1), y) == crate::order::count_of(
                encoded_pairs(ps2),
                y,
            ),
    ensures
        canonical_of(ps1) == canonical_of(ps2),
{
    lemma_sort_bytes(encoded_pairs(ps1));
    lemma_sort_bytes(encoded_pairs(ps2));
    crate::order::lemma_sorted_counts_unique(
        sort_bytes(encoded_pairs(ps1)),
        sort_bytes(encoded_pairs(ps2)),
    );
}

/// Pairs with different keys encode to different strings: an unreserved
/// key stands unchanged in front of the `=`, so a byte at which two keys
/// differ tells the encoded pairs apart whatever the values are.
pub proof fn lemma_pair_encoding_distinct(
    k1: Seq<u8>,
    v1: Seq<u8>,
    k2: Seq<u8>,
    v2: Seq<u8>,
    i: int,
)
    requires
        crate::encode::all_unreserved(k1),
        crate::encode::all_unreserved(k2),
        0 <= i < k1.len(),
        i < k2.len(),
        k1[i] != k2[i],
    ensures
        pair_encoding(k1, v1) != pair_encoding(k2, v2),
{
    crate::encode::lemma_encode_unreserved_identity(k1);
    crate::encode::lemma_encode_unreserved_identity(k2);
    assert(pair_encoding(k1, v1)[i] == k1[i]);
    assert(pair_encoding(k2, v2)[i] == k2[i]);
}

/// Join byte vectors with `&` between them.
pub fn join_with_amp(parts: &Vec<Vec<u8>>) -> (r: Vec<u8>)
    ensures
        r@ == join_amp(views_of(parts@)),
{
    if parts.len() == 0 {
        let r: Vec<u8> = Vec::new();
        return r;
    }
    let mut r = crate::order::copy_bytes(&parts[0]);
    let mut i: usize = 1;
    proof {
        assert(views_of(parts@).take(1) =~= seq![parts@[0]@]);
    }
    while i < parts.len()
        invariant
            1 <= i <= parts@.len(),
            r@ == join_amp(views_of(parts@).take(i as int)),
        decreases parts@.len() - i,
    {
        r.push(38);
        let mut e = crate::order::copy_bytes(&parts[i]);
        r.append(&mut e);
        proof {
            let t = views_of(parts@).take(i as int);
            lemma_join_amp_snoc(t, parts@[i as int]@);
            assert(views_of(parts@).take(i + 1) =~= t.push(parts@[i as int]@));
            assert(r@ =~= join_amp(t) + seq![38u8] + parts@[i as int]@);
        }
        i = i + 1;
    }
    proof {
        assert(views_of(parts@).take(parts@.len() as int) =~= views_of(parts@));
    }
    r
}

/// Views of a list of byte-vector parameters.
pub open spec fn pairs_views(s: Seq<(Vec<u8>, Vec<u8>)>) -> Seq<(Seq<u8>, Seq<u8>)> {
    s.map_values(|p: (Vec<u8>, Vec<u8>)| (p.0@, p.1@))
}

/// The canonical query string of a parameter list, as bytes: pairs encoded,
/// sorted in ascending byte order, joined with `&`. The result is ASCII and
/// fits the list's length budget.
pub fn canonical_bytes(ps: &Vec<(Vec<u8>, Vec<u8>)>) -> (r: Vec<u8>)
    ensures
        r@ == canonical_of(pairs_views(ps@)),
        all_ascii(r@),
        r@.len() <= pairs_budget(pairs_views(ps@)) + ps@.len(),
{
    let mut encoded: Vec<Vec<u8>> = Vec::new();
    let mut i: usize = 0;
    while i < ps.len()
        invariant
            i <= ps@.len(),
            views_of(encoded@) == encoded_pairs(pairs_views(ps@).take(i as int)),
        decreases ps@.len() - i,
    {
        let mut p = percent_encode_bytes(ps[i].0.as_slice());
        p.push(61);
        let mut ev = percent_encode_bytes(ps[i].1.as_slice());
        p.append(&mut ev);
        proof {
            assert(p@ =~= pair_encoding(ps@[i as int].0@, ps@[i as int].1@));
        }
        let ghost pre = encoded@;
        let ghost pv = p@;
        encoded.push(p);
        proof {
            let t = pairs_views(ps@).take(i + 1);
            assert(t.len() == i + 1);
            assert(encoded_pairs(t).len() == t.len());
            assert(encoded@ == pre.push(p));
            assert(views_of(pre).len() == pre.len());
            assert(encoded_pairs(pairs_views(ps@).take(i as int)).len() == pairs_views(
                ps@,
            ).take(i as int).len());
            assert(pre.len() == i);
            assert(views_of(encoded@).len() == i + 1);
            assert forall|j: int| 0 <= j < i + 1 implies views_of(encoded@)[j] == encoded_pairs(
                t,
            )[j] by {
                assert(t[j] == (ps@[j].0@, ps@[j].1@));
                assert(encoded_pairs(t)[j] == pair_encoding(t[j].0, t[j].1));
                if j < i {
                    assert(encoded@[j] == pre[j]);
                    assert(views_of(encoded@)[j] == pre[j]@);
                    assert(views_of(pre)[j] == pre[j]@);
                    assert(views_of(pre)[j] == encoded_pairs(pairs_views(ps@).take(i as int))[j]);
                    assert(pairs_views(ps@).take(i as int)[j] == (ps@[j].0@, ps@[j].1@));
                    assert(encoded_pairs(pairs_views(ps@).take(i as int))[j] == pair_encoding(
                        ps@[j].0@,
                        ps@[j].1@,
                    ));
                } else {
                    assert(encoded@[j] == p);
                    assert(views_of(encoded@)[j] == pv);
                }
            }
            assert(views_of(encoded@) =~= encoded_pairs(t));
        }
        i = i + 1;
    }
    proof {
        assert(pairs_views(ps@).take(ps@.len() as int) =~= pairs_views(ps@));
    }
    let sorted = sort_byte_strings(&encoded);
    let r = join_with_amp(&sorted);
    proof {
        let eps = encoded_pairs(pairs_views(ps@));
        lemma_encoded_pairs_bounds(pairs_views(ps@));
        lemma_sort_bytes(eps);
        assert(all_elems_ascii(sort_bytes(eps))) by {
            assert forall|k: int| 0 <= k < sort_bytes(eps).len() implies all_ascii(
                #[trigger] sort_bytes(eps)[k],
            ) by {
                assert(eps.contains(sort_bytes(eps)[k]));
                let m = choose|m: int| 0 <= m < eps.len() && eps[m] == sort_bytes(eps)[k];
                assert(all_ascii(eps[m]));
            }
        }
        lemma_join_amp_bounds(sort_bytes(eps));
        lemma_sort_total_len(eps);
    }
    r
}

} // verus!
