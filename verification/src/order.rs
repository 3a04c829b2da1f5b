//! Lexicographic byte order and insertion sort over byte strings.
//!
//! The canonical query string demands a total, locale-independent ordinal
//! sort of the encoded `key=value` pair strings, ascending by byte value.

use vstd::prelude::*;

verus! {

/// Lexicographic order on byte strings, ascending by byte value: the empty
/// string comes first, and otherwise the first differing byte decides.
pub open spec fn bytes_le(a: Seq<u8>, b: Seq<u8>) -> bool
    decreases a.len(),
{
    if a.len() == 0 {
        true
    } else if b.len() == 0 {
        false
    } else if a[0] < b[0] {
        true
    } else if a[0] > b[0] {
        false
    } else {
        bytes_le(a.drop_first(), b.drop_first())
    }
}

/// `bytes_le` is reflexive.
pub proof fn lemma_bytes_le_refl(a: Seq<u8>)
    ensures
        bytes_le(a, a),
    decreases a.len(),
{
    if a.len() > 0 {
        lemma_bytes_le_refl(a.drop_first());
    }
}

/// `bytes_le` is total: two byte strings always compare one way or the other.
pub proof fn lemma_bytes_le_connected(a: Seq<u8>, b: Seq<u8>)
    ensures
        bytes_le(a, b) || bytes_le(b, a),
    decreases a.len(),
{
    if a.len() > 0 && b.len() > 0 && a[0] == b[0] {
        lemma_bytes_le_connected(a.drop_first(), b.drop_first());
    }
}

/// `bytes_le` is transitive.
pub proof fn lemma_bytes_le_trans(a: Seq<u8>, b: Seq<u8>, c: Seq<u8>)
    requires
        bytes_le(a, b),
        bytes_le(b, c),
    ensures
        bytes_le(a, c),
    decreases a.len(),
{
    if a.len() > 0 && b.len() > 0 && c.len() > 0 && a[0] == b[0] && b[0] == c[0] {
        lemma_bytes_le_trans(a.drop_first(), b.drop_first(), c.drop_first());
    }
}

/// `bytes_le` is antisymmetric: byte strings that precede each other are
/// equal.
pub proof fn lemma_bytes_le_antisym(a: Seq<u8>, b: Seq<u8>)
    requires
        bytes_le(a, b),
        bytes_le(b, a),
    ensures
        a == b,
    decreases a.len(),
{
    if a.len() == 0 {
        assert(b.len() == 0);
        assert(a =~= b);
    } else {
        assert(a[0] == b[0]);
        lemma_bytes_le_antisym(a.drop_first(), b.drop_first());
        assert forall|i: int| 0 <= i < a.len() implies a[i] == b[i] by {
            if i > 0 {
                assert(a.drop_first()[i - 1] == b.drop_first()[i - 1]);
            }
        }
        assert(a =~= b);
    }
}

/// A sequence of byte strings is in ascending lexicographic order.
pub open spec fn sorted_bytes(s: Seq<Seq<u8>>) -> bool {
    forall|i: int, j: int| 0 <= i < j < s.len() ==> #[trigger] bytes_le(s[i], s[j])
}

/// Insert a byte string in front of the first element it precedes or equals.
pub open spec fn insert_sorted(x: Seq<u8>, s: Seq<Seq<u8>>) -> Seq<Seq<u8>>
    decreases s.len(),
{
    if s.len() == 0 {
        seq![x]
    } else if bytes_le(x, s[0]) {
        seq![x] + s
    } else {
        seq![s[0]] + insert_sorted(x, s.drop_first())
    }
}

/// Sort a sequence of byte strings by inserting its elements in order.
pub open spec fn sort_bytes(s: Seq<Seq<u8>>) -> Seq<Seq<u8>>
    decreases s.len(),
{
    if s.len() == 0 {
        Seq::empty()
    } else {
        insert_sorted(s.last(), sort_bytes(s.drop_last()))
    }
}

/// How many times `x` occurs in `s`.
pub open spec fn count_of(s: Seq<Seq<u8>>, x: Seq<u8>) -> nat
    decreases s.len(),
{
    if s.len() == 0 {
        0
    } else {
        (if s[0] == x {
            1nat
        } else {
            0nat
        }) + count_of(s.drop_first(), x)
    }
}

/// Inserting grows the length by one, keeps the order sorted, occurs counts
/// of the inserted element up by one and leaves every other count unchanged,
/// and adds no element that was not already there.
pub proof fn lemma_insert_sorted(x: Seq<u8>, s: Seq<Seq<u8>>)
    requires
        sorted_bytes(s),
    ensures
        insert_sorted(x, s).len() == s.len() + 1,
        sorted_bytes(insert_sorted(x, s)),
        forall|y: Seq<u8>|
            #[trigger] count_of(insert_sorted(x, s), y) == count_of(s, y) + (if y == x {
                1nat
            } else {
                0nat
            }),
        forall|i: int|
            0 <= i < insert_sorted(x, s).len() ==> #[trigger] insert_sorted(x, s)[i] == x
                || s.contains(insert_sorted(x, s)[i]),
    decreases s.len(),
{
    let r = insert_sorted(x, s);
    if s.len() == 0 {
        assert forall|y: Seq<u8>| #[trigger] count_of(r, y) == count_of(s, y) + (if y == x {
            1nat
        } else {
            0nat
        }) by {
            assert(r.drop_first() =~= Seq::<Seq<u8>>::empty());
            assert(count_of(Seq::<Seq<u8>>::empty(), y) == 0);
            assert(r[0] == x);
        }
    } else if bytes_le(x, s[0]) {
        assert forall|i: int, j: int| 0 <= i < j < r.len() implies #[trigger] bytes_le(
            r[i],
            r[j],
        ) by {
            if i == 0 {
                if j == 1 {
                } else {
                    lemma_bytes_le_trans(x, s[0], s[j - 1]);
                }
            }
        }
        assert forall|y: Seq<u8>| #[trigger] count_of(r, y) == count_of(s, y) + (if y == x {
            1nat
        } else {
            0nat
        }) by {
            assert(r.drop_first() =~= s);
        }
        assert forall|i: int| 0 <= i < r.len() implies #[trigger] r[i] == x || s.contains(
            r[i],
        ) by {
            if i > 0 {
                assert(r[i] == s[i - 1]);
            }
        }
    } else {
        let tail = s.drop_first();
        assert(sorted_bytes(tail)) by {
            assert forall|i: int, j: int| 0 <= i < j < tail.len() implies #[trigger] bytes_le(
                tail[i],
                tail[j],
            ) by {
                assert(bytes_le(s[i + 1], s[j + 1]));
            }
        }
        lemma_insert_sorted(x, tail);
        let rt = insert_sorted(x, tail);
        assert(r =~= seq![s[0]] + rt);
        lemma_bytes_le_connected(x, s[0]);
        assert forall|i: int, j: int| 0 <= i < j < r.len() implies #[trigger] bytes_le(
            r[i],
            r[j],
        ) by {
            if i == 0 {
                assert(r[j] == rt[j - 1]);
                if rt[j - 1] == x {
                    assert(bytes_le(s[0], x));
                } else {
                    assert(tail.contains(rt[j - 1]));
                    let k = choose|k: int| 0 <= k < tail.len() && tail[k] == rt[j - 1];
                    assert(bytes_le(s[0], s[k + 1]));
                }
            } else {
                assert(r[i] == rt[i - 1] && r[j] == rt[j - 1]);
            }
        }
        assert forall|y: Seq<u8>| #[trigger] count_of(r, y) == count_of(s, y) + (if y == x {
            1nat
        } else {
            0nat
        }) by {
            assert(r.drop_first() =~= rt);
            assert(count_of(r, y) == (if s[0] == y {
                1nat
            } else {
                0nat
            }) + count_of(rt, y));
        }
        assert forall|i: int| 0 <= i < r.len() implies #[trigger] r[i] == x || s.contains(
            r[i],
        ) by {
            if i > 0 {
                assert(r[i] == rt[i - 1]);
                if rt[i - 1] != x {
                    assert(tail.contains(rt[i - 1]));
                    let k = choose|k: int| 0 <= k < tail.len() && tail[k] == rt[i - 1];
                    assert(s[k + 1] == rt[i - 1]);
                }
            }
        }
    }
}

/// Sorting keeps the length, sorts the order, keeps every occurrence count,
/// and introduces no element that was not in the input.
pub proof fn lemma_sort_bytes(s: Seq<Seq<u8>>)
    ensures
        sort_bytes(s).len() == s.len(),
        sorted_bytes(sort_bytes(s)),
        forall|y: Seq<u8>| #[trigger] count_of(sort_bytes(s), y) == count_of(s, y),
        forall|i: int|
            0 <= i < sort_bytes(s).len() ==> s.contains(#[trigger] sort_bytes(s)[i]),
    decreases s.len(),
{
    let r = sort_bytes(s);
    if s.len() > 0 {
        let pre = s.drop_last();
        lemma_sort_bytes(pre);
        lemma_insert_sorted(s.last(), sort_bytes(pre));
        assert forall|y: Seq<u8>| #[trigger] count_of(r, y) == count_of(s, y) by {
            lemma_count_of_snoc(s, y);
        }
        assert forall|i: int| 0 <= i < r.len() implies s.contains(#[trigger] r[i]) by {
            if r[i] == s.last() {
                assert(s[s.len() - 1] == r[i]);
            } else {
                assert(sort_bytes(pre).contains(r[i]));
                let k = choose|k: int| 0 <= k < sort_bytes(pre).len() && sort_bytes(pre)[k] == r[i];
                assert(pre.contains(sort_bytes(pre)[k]));
                let m = choose|m: int| 0 <= m < pre.len() && pre[m] == r[i];
                assert(s[m] == r[i]);
            }
        }
    }
}

/// Counting over a sequence splits off its last element.
pub proof fn lemma_count_of_snoc(s: Seq<Seq<u8>>, y: Seq<u8>)
    requires
        s.len() > 0,
    ensures
        count_of(s, y) == count_of(s.drop_last(), y) + (if s.last() == y {
            1nat
        } else {
            0nat
        }),
    decreases s.len(),
{
    if s.len() == 1 {
        assert(s.drop_first() =~= Seq::<Seq<u8>>::empty());
        assert(s.drop_last() =~= Seq::<Seq<u8>>::empty());
    } else {
        lemma_count_of_snoc(s.drop_first(), y);
        assert(s.drop_first().drop_last() =~= s.drop_last().drop_first());
        assert(s.drop_first().last() == s.last());
        assert(s.drop_last()[0] == s[0]);
    }
}

/// If `x` stands at one index of `s` and nowhere else, it occurs exactly once.
pub proof fn lemma_count_of_unique(s: Seq<Seq<u8>>, x: Seq<u8>, m: int)
    requires
        0 <= m < s.len(),
        s[m] == x,
        forall|j: int| 0 <= j < s.len() && j != m ==> #[trigger] s[j] != x,
    ensures
        count_of(s, x) == 1,
    decreases s.len(),
{
    if m == 0 {
        lemma_count_of_absent(s.drop_first(), x);
    } else {
        lemma_count_of_unique(s.drop_first(), x, m - 1);
    }
}

/// If `x` stands at no index of `s`, it does not occur at all.
pub proof fn lemma_count_of_absent(s: Seq<Seq<u8>>, x: Seq<u8>)
    requires
        forall|j: int| 0 <= j < s.len() ==> #[trigger] s[j] != x,
    ensures
        count_of(s, x) == 0,
    decreases s.len(),
{
    if s.len() > 0 {
        lemma_count_of_absent(s.drop_first(), x);
    }
}

/// An element occurs in a sequence exactly when its count is positive.
pub proof fn lemma_count_of_positive(s: Seq<Seq<u8>>, y: Seq<u8>)
    ensures
        count_of(s, y) >= 1 <==> s.contains(y),
    decreases s.len(),
{
    if s.len() > 0 {
        lemma_count_of_positive(s.drop_first(), y);
        if s[0] != y && s.drop_first().contains(y) {
            let k = choose|k: int| 0 <= k < s.drop_first().len() && s.drop_first()[k] == y;
            assert(s[k + 1] == y);
        }
        if s.contains(y) && s[0] != y {
            let k = choose|k: int| 0 <= k < s.len() && s[k] == y;
            assert(s.drop_first()[k - 1] == y);
        }
    }
}

/// Two sorted sequences in which every byte string occurs equally often
/// are the same sequence.
pub proof fn lemma_sorted_counts_unique(s1: Seq<Seq<u8>>, s2: Seq<Seq<u8>>)
    requires
        sorted_bytes(s1),
        sorted_bytes(s2),
        forall|y: Seq<u8>| #[trigger] count_of(s1, y) == count_of(s2, y),
    ensures
        s1 == s2,
    decreases s1.len(),
{
    if s1.len() == 0 {
        if s2.len() > 0 {
            lemma_count_of_positive(s1, s2[0]);
            lemma_count_of_positive(s2, s2[0]);
            assert(s2.contains(s2[0]));
            assert(false);
        }
        assert(s1 =~= s2);
    } else {
        if s2.len() == 0 {
            lemma_count_of_positive(s1, s1[0]);
            lemma_count_of_positive(s2, s1[0]);
            assert(s1.contains(s1[0]));
            assert(false);
        }
        // each head is the least element of the same collection, so the
        // heads agree
        lemma_count_of_positive(s1, s1[0]);
        lemma_count_of_positive(s2, s1[0]);
        assert(s2.contains(s1[0]));
        let k2 = choose|k: int| 0 <= k < s2.len() && s2[k] == s1[0];
        assert(bytes_le(s2[0], s2[k2])) by {
            if k2 == 0 {
                lemma_bytes_le_refl(s2[0]);
            }
        }
        lemma_count_of_positive(s2, s2[0]);
        lemma_count_of_positive(s1, s2[0]);
        assert(s1.contains(s2[0]));
        let k1 = choose|k: int| 0 <= k < s1.len() && s1[k] == s2[0];
        assert(bytes_le(s1[0], s1[k1])) by {
            if k1 == 0 {
                lemma_bytes_le_refl(s1[0]);
            }
        }
        lemma_bytes_le_antisym(s1[0], s2[0]);
        assert(s1[0] == s2[0]);
        let t1 = s1.drop_first();
        let t2 = s2.drop_first();
        assert(sorted_bytes(t1)) by {
            assert forall|i: int, j: int| 0 <= i < j < t1.len() implies #[trigger] bytes_le(
                t1[i],
                t1[j],
            ) by {
                assert(bytes_le(s1[i + 1], s1[j + 1]));
            }
        }
        assert(sorted_bytes(t2)) by {
            assert forall|i: int, j: int| 0 <= i < j < t2.len() implies #[trigger] bytes_le(
                t2[i],
                t2[j],
            ) by {
                assert(bytes_le(s2[i + 1], s2[j + 1]));
            }
        }
        assert forall|y: Seq<u8>| #[trigger] count_of(t1, y) == count_of(t2, y) by {
            assert(count_of(s1, y) == count_of(s2, y));
        }
        lemma_sorted_counts_unique(t1, t2);
        assert forall|i: int| 0 <= i < s1.len() implies s1[i] == s2[i] by {
            if i > 0 {
                assert(t1[i - 1] == t2[i - 1]);
            }
        }
        assert(s1 =~= s2);
    }
}

/// Views of a sequence of byte vectors.
pub open spec fn views_of(s: Seq<Vec<u8>>) -> Seq<Seq<u8>> {
    s.map_values(|v: Vec<u8>| v@)
}

/// Lexicographic comparison of two byte vectors.
pub fn bytes_le_cmp(a: &Vec<u8>, b: &Vec<u8>) -> (r: bool)
    ensures
        r == bytes_le(a@, b@),
{
    let mut i: usize = 0;
    proof {
        assert(a@.skip(0) =~= a@);
        assert(b@.skip(0) =~= b@);
    }
    while i < a.len() && i < b.len()
        invariant
            i <= a@.len(),
            i <= b@.len(),
            bytes_le(a@, b@) == bytes_le(a@.skip(i as int), b@.skip(i as int)),
        decreases a@.len() - i,
    {
        let x = a[i];
        let y = b[i];
        proof {
            assert(a@.skip(i as int)[0] == a@[i as int]);
            assert(b@.skip(i as int)[0] == b@[i as int]);
            assert(a@.skip(i as int).drop_first() =~= a@.skip(i + 1));
            assert(b@.skip(i as int).drop_first() =~= b@.skip(i + 1));
        }
        if x < y {
            return true;
        }
        if x > y {
            return false;
        }
        i = i + 1;
    }
    proof {
        if i >= a@.len() {
            assert(a@.skip(i as int).len() == 0);
        } else {
            assert(b@.skip(i as int).len() == 0);
            assert(a@.skip(i as int).len() > 0);
        }
    }
    i >= a.len()
}

/// First position of the sorted vector whose element `x` precedes or equals.
fn lower_position(v: &Vec<Vec<u8>>, x: &Vec<u8>) -> (j: usize)
    ensures
        j <= v@.len(),
        forall|k: int| 0 <= k < j ==> !bytes_le(x@, #[trigger] v@[k]@),
        j < v@.len() ==> bytes_le(x@, v@[j as int]@),
{
    let mut j: usize = 0;
    while j < v.len()
        invariant
            j <= v@.len(),
            forall|k: int| 0 <= k < j ==> !bytes_le(x@, #[trigger] v@[k]@),
        decreases v@.len() - j,
    {
        if bytes_le_cmp(x, &v[j]) {
            return j;
        }
        j = j + 1;
    }
    j
}

/// Inserting before the first element that `x` precedes or equals realises
/// the specification-level `insert_sorted`.
proof fn lemma_insert_sorted_at(x: Seq<u8>, s: Seq<Seq<u8>>, j: int)
    requires
        0 <= j <= s.len(),
        forall|k: int| 0 <= k < j ==> !bytes_le(x, #[trigger] s[k]),
        j < s.len() ==> bytes_le(x, s[j]),
    ensures
        insert_sorted(x, s) == s.insert(j, x),
    decreases s.len(),
{
    if s.len() == 0 {
        assert(insert_sorted(x, s) =~= s.insert(0, x));
    } else if j == 0 {
        assert(insert_sorted(x, s) =~= s.insert(0, x));
    } else {
        lemma_insert_sorted_at(x, s.drop_first(), j - 1);
        assert(insert_sorted(x, s) =~= s.insert(j, x));
    }
}

/// Insert a byte vector into a vector sorted in ascending lexicographic
/// order, keeping it sorted.
pub fn insert_into_sorted(v: &mut Vec<Vec<u8>>, x: Vec<u8>)
    ensures
        views_of(final(v)@) == insert_sorted(x@, views_of(old(v)@)),
{
    let j = lower_position(v, &x);
    proof {
        lemma_insert_sorted_at(x@, views_of(v@), j as int);
    }
    let ghost pre = v@;
    v.insert(j, x);
    proof {
        assert(views_of(v@) =~= views_of(pre).insert(j as int, x@));
    }
}

/// Copy of a byte vector.
pub fn copy_bytes(a: &Vec<u8>) -> (r: Vec<u8>)
    ensures
        r@ == a@,
{
    let mut r: Vec<u8> = Vec::new();
    let mut i: usize = 0;
    while i < a.len()
        invariant
            i <= a@.len(),
            r@ == a@.take(i as int),
        decreases a@.len() - i,
    {
        r.push(a[i]);
        proof {
            assert(a@.take(i + 1) =~= a@.take(i as int).push(a@[i as int]));
        }
        i = i + 1;
    }
    proof {
        assert(a@.take(a@.len() as int) =~= a@);
    }
    r
}

/// Sort byte vectors in ascending lexicographic byte order.
pub fn sort_byte_strings(pairs: &Vec<Vec<u8>>) -> (r: Vec<Vec<u8>>)
    ensures
        views_of(r@) == sort_bytes(views_of(pairs@)),
{
    let mut r: Vec<Vec<u8>> = Vec::new();
    let mut i: usize = 0;
    while i < pairs.len()
        invariant
            i <= pairs@.len(),
            views_of(r@) == sort_bytes(views_of(pairs@).take(i as int)),
        decreases pairs@.len() - i,
    {
        let x = copy_bytes(&pairs[i]);
        insert_into_sorted(&mut r, x);
        proof {
            let t = views_of(pairs@).take(i + 1);
            assert(t.drop_last() =~= views_of(pairs@).take(i as int));
            assert(t.last() == pairs@[i as int]@);
            assert(views_of(r@) == sort_bytes(t));
        }
        i = i + 1;
    }
    proof {
        assert(views_of(pairs@).take(pairs@.len() as int) =~= views_of(pairs@));
    }
    r
}

} // verus!
