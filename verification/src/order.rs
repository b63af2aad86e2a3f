//! The lexicographic order of character sequences (which is the byte order
//! of their UTF-8 encodings, the order `String` sorts by) and a sort by it.

use vstd::prelude::*;
use vstd::relations::{sorted_by, total_ordering};

verus! {

broadcast use vstd::seq_lib::group_to_multiset_ensures;

/// Lexicographic `<=` on character sequences, comparing code points.
pub open spec fn lex_le(a: Seq<char>, b: Seq<char>) -> bool
    decreases a.len(),
{
    if a.len() == 0 {
        true
    } else if b.len() == 0 {
        false
    } else if (a[0] as u32) < (b[0] as u32) {
        true
    } else if (a[0] as u32) > (b[0] as u32) {
        false
    } else {
        lex_le(a.drop_first(), b.drop_first())
    }
}

proof fn lemma_lex_refl(a: Seq<char>)
    ensures
        lex_le(a, a),
    decreases a.len(),
{
    if a.len() > 0 {
        lemma_lex_refl(a.drop_first());
    }
}

proof fn lemma_lex_antisym(a: Seq<char>, b: Seq<char>)
    requires
        lex_le(a, b),
        lex_le(b, a),
    ensures
        a == b,
    decreases a.len(),
{
    if a.len() > 0 && b.len() > 0 {
        vstd::utf8::char_u32_cast(a[0], a[0] as u32);
        assert(a[0] as u32 == b[0] as u32);
        assert(a[0] == b[0]) by {
            vstd::utf8::char_u32_cast(a[0], a[0] as u32);
            vstd::utf8::char_u32_cast(b[0], b[0] as u32);
        }
        lemma_lex_antisym(a.drop_first(), b.drop_first());
        assert(a =~= seq![a[0]] + a.drop_first());
        assert(b =~= seq![b[0]] + b.drop_first());
    }
}

proof fn lemma_lex_trans(a: Seq<char>, b: Seq<char>, c: Seq<char>)
    requires
        lex_le(a, b),
        lex_le(b, c),
    ensures
        lex_le(a, c),
    decreases a.len(),
{
    if a.len() > 0 && b.len() > 0 && c.len() > 0 {
        if (a[0] as u32) == (b[0] as u32) && (b[0] as u32) == (c[0] as u32) {
            lemma_lex_trans(a.drop_first(), b.drop_first(), c.drop_first());
        }
    }
}

proof fn lemma_lex_total(a: Seq<char>, b: Seq<char>)
    ensures
        lex_le(a, b) || lex_le(b, a),
    decreases a.len(),
{
    if a.len() > 0 && b.len() > 0 {
        lemma_lex_total(a.drop_first(), b.drop_first());
    }
}

/// [`lex_le`] as a relation.
pub open spec fn lex_leq() -> spec_fn(Seq<char>, Seq<char>) -> bool {
    |a: Seq<char>, b: Seq<char>| lex_le(a, b)
}

/// `lex_le` is a total order.
pub proof fn lemma_lex_total_ordering()
    ensures
        total_ordering(lex_leq()),
{
    let leq = lex_leq();
    assert forall|a: Seq<char>| #[trigger] leq(a, a) by {
        lemma_lex_refl(a);
    }
    assert forall|a: Seq<char>, b: Seq<char>| #[trigger] leq(a, b) && #[trigger] leq(b, a) implies a
        == b by {
        lemma_lex_antisym(a, b);
    }
    assert forall|a: Seq<char>, b: Seq<char>, c: Seq<char>|
        #[trigger] leq(a, b) && #[trigger] leq(b, c) implies leq(a, c) by {
        lemma_lex_trans(a, b, c);
    }
    assert forall|a: Seq<char>, b: Seq<char>| #[trigger] leq(a, b) || #[trigger] leq(b, a) by {
        lemma_lex_total(a, b);
    }
}

/// Executable form of [`lex_le`].
pub fn chars_le(a: &[char], b: &[char]) -> (r: bool)
    ensures
        r == lex_le(a@, b@),
{
    let mut i: usize = 0;
    assert(a@.subrange(0, a@.len() as int) =~= a@);
    assert(b@.subrange(0, b@.len() as int) =~= b@);
    while i < a.len() && i < b.len() && a[i] == b[i]
        invariant
            i <= a.len(),
            i <= b.len(),
            lex_le(a@, b@) == lex_le(a@.subrange(i as int, a@.len() as int), b@.subrange(
                i as int,
                b@.len() as int,
            )),
        decreases a.len() - i,
    {
        let ghost sa = a@.subrange(i as int, a@.len() as int);
        let ghost sb = b@.subrange(i as int, b@.len() as int);
        assert(sa.drop_first() =~= a@.subrange(i + 1, a@.len() as int));
        assert(sb.drop_first() =~= b@.subrange(i + 1, b@.len() as int));
        i = i + 1;
    }
    let ghost sa = a@.subrange(i as int, a@.len() as int);
    let ghost sb = b@.subrange(i as int, b@.len() as int);
    if i == a.len() {
        true
    } else if i == b.len() {
        false
    } else {
        assert(sa[0] == a@[i as int] && sb[0] == b@[i as int]);
        proof {
            vstd::utf8::char_u32_cast(a@[i as int], a@[i as int] as u32);
            vstd::utf8::char_u32_cast(b@[i as int], b@[i as int] as u32);
        }
        (a[i] as u32) < (b[i] as u32)
    }
}

/// The models of a sequence of character vectors.
pub open spec fn seqs_of(v: Seq<Vec<char>>) -> Seq<Seq<char>> {
    Seq::new(v.len(), |i: int| v[i]@)
}

/// The sequences sorted lexicographically.
pub open spec fn lex_sorted(s: Seq<Seq<char>>) -> Seq<Seq<char>> {
    s.sort_by(lex_leq())
}

/// Sorts character vectors lexicographically (by insertion, keeping equal
/// elements in their order).
pub fn sort_lex(v: Vec<Vec<char>>) -> (r: Vec<Vec<char>>)
    ensures
        seqs_of(r@) == lex_sorted(seqs_of(v@)),
{
    let mut out: Vec<Vec<char>> = Vec::new();
    let mut i: usize = 0;
    while i < v.len()
        invariant
            i <= v@.len(),
            sorted_by(seqs_of(out@), lex_leq()),
            seqs_of(out@).to_multiset() == seqs_of(v@).subrange(0, i as int).to_multiset(),
        decreases v@.len() - i,
    {
        let x = v[i].clone();
        // the place after every element not greater than x
        let mut p: usize = 0;
        while p < out.len() && chars_le(out[p].as_slice(), x.as_slice())
            invariant
                p <= out@.len(),
                forall|q: int| 0 <= q < p ==> lex_le(#[trigger] out@[q]@, x@),
            decreases out@.len() - p,
        {
            p = p + 1;
        }
        let ghost before = seqs_of(out@);
        proof {
            lemma_lex_total_ordering();
            if p < out@.len() {
                assert(!lex_le(out@[p as int]@, x@));
            }
        }
        out.insert(p, x);
        proof {
            lemma_lex_total_ordering();
            let after = seqs_of(out@);
            assert(after =~= before.insert(p as int, x@));
            assert forall|a: int, b: int| 0 <= a < b < after.len() implies #[trigger] lex_leq()(
                after[a],
                after[b],
            ) by {
                if a < p && b < p {
                    assert(lex_leq()(before[a], before[b]));
                } else if a < p && b == p {
                    assert(lex_le(before[a], x@));
                    assert(after[a] == before[a]);
                    assert(after[b] == x@);
                } else if a < p && b > p {
                    assert(lex_leq()(before[a], before[b - 1]));
                } else if a == p {
                    // the element that followed position p is greater than x
                    assert(!lex_le(before[p as int], x@));
                    lemma_lex_total(before[p as int], x@);
                    assert(lex_le(x@, before[p as int]));
                    if b - 1 > p {
                        assert(lex_leq()(before[p as int], before[b - 1]));
                        assert(lex_le(before[p as int], before[b - 1]));
                        lemma_lex_trans(x@, before[p as int], before[b - 1]);
                    }
                    assert(after[a] == x@);
                    assert(after[b] == before[b - 1]);
                    assert(lex_le(after[a], after[b]));
                } else {
                    assert(lex_leq()(before[a - 1], before[b - 1]));
                }
            }
            assert(seqs_of(v@).subrange(0, i + 1) =~= seqs_of(v@).subrange(0, i as int).push(
                x@,
            ));
        }
        i = i + 1;
    }
    proof {
        lemma_lex_total_ordering();
        assert(seqs_of(v@).subrange(0, v@.len() as int) =~= seqs_of(v@));
        seqs_of(v@).lemma_sort_by_ensures(lex_leq());
        vstd::seq_lib::lemma_sorted_unique(seqs_of(out@), lex_sorted(seqs_of(v@)), lex_leq());
    }
    out
}


/// A sort key: a rank, then a text; keys compare by rank, then by text.
pub open spec fn key_le(a: (u64, Seq<char>), b: (u64, Seq<char>)) -> bool {
    a.0 < b.0 || (a.0 == b.0 && lex_le(a.1, b.1))
}

proof fn lemma_key_total(a: (u64, Seq<char>), b: (u64, Seq<char>))
    ensures
        key_le(a, b) || key_le(b, a),
{
    lemma_lex_total(a.1, b.1);
}

proof fn lemma_key_trans(a: (u64, Seq<char>), b: (u64, Seq<char>), c: (u64, Seq<char>))
    requires
        key_le(a, b),
        key_le(b, c),
    ensures
        key_le(a, c),
{
    if a.0 == b.0 && b.0 == c.0 {
        lemma_lex_trans(a.1, b.1, c.1);
    }
}

/// The models of executable keys.
pub open spec fn key_models(keys: Seq<(u64, Vec<char>)>) -> Seq<(u64, Seq<char>)> {
    Seq::new(keys.len(), |i: int| (keys[i].0, keys[i].1@))
}

/// Whether `p` lists each of the positions `0..n` exactly once.
pub open spec fn is_permutation(p: Seq<usize>, n: nat) -> bool {
    &&& p.len() == n
    &&& forall|a: int| 0 <= a < p.len() ==> #[trigger] p[a] < n
    &&& forall|a: int, b: int| 0 <= a < b < p.len() ==> #[trigger] p[a] != #[trigger] p[b]
}

/// Whether taking the positions in the order `p` sorts the keys, keeping
/// positions with equal keys in their original order.
pub open spec fn stably_sorted(keys: Seq<(u64, Seq<char>)>, p: Seq<usize>) -> bool {
    forall|a: int, b: int|
        #![trigger p[a], p[b]]
        0 <= a < b < p.len() ==> key_le(keys[p[a] as int], keys[p[b] as int]) && (key_le(
            keys[p[b] as int],
            keys[p[a] as int],
        ) ==> p[a] < p[b])
}

fn key_le_exec(a: &(u64, Vec<char>), b: &(u64, Vec<char>)) -> (r: bool)
    ensures
        r == key_le((a.0, a.1@), (b.0, b.1@)),
{
    a.0 < b.0 || (a.0 == b.0 && chars_le(a.1.as_slice(), b.1.as_slice()))
}

/// The order in which to take the keys so that they come sorted, equal keys
/// keeping their original order (a stable sort).
pub fn stable_order(keys: &Vec<(u64, Vec<char>)>) -> (p: Vec<usize>)
    ensures
        is_permutation(p@, keys@.len()),
        stably_sorted(key_models(keys@), p@),
{
    let ghost k = key_models(keys@);
    let mut p: Vec<usize> = Vec::new();
    let mut i: usize = 0;
    while i < keys.len()
        invariant
            i <= keys@.len(),
            k == key_models(keys@),
            p@.len() == i,
            forall|a: int| 0 <= a < p@.len() ==> #[trigger] p@[a] < i,
            forall|a: int, b: int| 0 <= a < b < p@.len() ==> #[trigger] p@[a] != #[trigger] p@[b],
            stably_sorted(k, p@),
        decreases keys@.len() - i,
    {
        let mut pos: usize = 0;
        while pos < p.len() && key_le_exec(&keys[p[pos]], &keys[i])
            invariant
                pos <= p@.len(),
                i < keys@.len(),
                k == key_models(keys@),
                forall|a: int| 0 <= a < p@.len() ==> #[trigger] p@[a] < i,
                forall|q: int| 0 <= q < pos ==> key_le(k[#[trigger] p@[q] as int], k[i as int]),
            decreases p@.len() - pos,
        {
            pos = pos + 1;
        }
        let ghost before = p@;
        proof {
            if pos < before.len() {
                lemma_key_total(k[i as int], k[before[pos as int] as int]);
                assert(!key_le(k[before[pos as int] as int], k[i as int]));
                assert forall|q: int| pos <= q < before.len() implies !key_le(
                    k[#[trigger] before[q] as int],
                    k[i as int],
                ) && key_le(k[i as int], k[before[q] as int]) by {
                    if q > pos {
                        assert(key_le(k[before[pos as int] as int], k[before[q] as int]));
                        if key_le(k[before[q] as int], k[i as int]) {
                            lemma_key_trans(
                                k[before[pos as int] as int],
                                k[before[q] as int],
                                k[i as int],
                            );
                        }
                        lemma_key_total(k[i as int], k[before[q] as int]);
                    }
                }
            }
        }
        p.insert(pos, i);
        proof {
            let after = p@;
            assert(after =~= before.insert(pos as int, i));
            assert forall|a: int| 0 <= a < after.len() implies #[trigger] after[a] < i + 1 by {
                if a < pos {
                    assert(after[a] == before[a]);
                } else if a > pos {
                    assert(after[a] == before[a - 1]);
                }
            }
            assert forall|a: int, b: int| 0 <= a < b < after.len() implies #[trigger] after[a]
                != #[trigger] after[b] by {
                if a < pos && b < pos {
                    assert(before[a] != before[b]);
                } else if a < pos && b > pos {
                    assert(before[a] != before[b - 1]);
                } else if a > pos && b > pos {
                    assert(before[a - 1] != before[b - 1]);
                } else if a == pos {
                    assert(before[b - 1] < i);
                } else {
                    assert(before[a] < i);
                }
            }
            assert forall|a: int, b: int|
                #![trigger after[a], after[b]]
                0 <= a < b < after.len() implies key_le(k[after[a] as int], k[after[b] as int])
                && (key_le(k[after[b] as int], k[after[a] as int]) ==> after[a] < after[b]) by {
                if a < pos && b < pos {
                    assert(after[a] == before[a] && after[b] == before[b]);
                    assert(key_le(k[before[a] as int], k[before[b] as int]));
                } else if a < pos && b == pos {
                    assert(after[a] == before[a] && after[b] == i);
                    assert(key_le(k[before[a] as int], k[i as int]));
                    assert(before[a] < i);
                } else if a < pos && b > pos {
                    assert(after[a] == before[a] && after[b] == before[b - 1]);
                    assert(key_le(k[before[a] as int], k[before[b - 1] as int]));
                } else if a == pos {
                    assert(after[a] == i && after[b] == before[b - 1]);
                    assert(key_le(k[i as int], k[before[b - 1] as int]));
                    assert(!key_le(k[before[b - 1] as int], k[i as int]));
                } else {
                    assert(after[a] == before[a - 1] && after[b] == before[b - 1]);
                    assert(key_le(k[before[a - 1] as int], k[before[b - 1] as int]));
                }
            }
        }
        i = i + 1;
    }
    p
}


pub(crate) proof fn lemma_permutation_covers(p: Seq<usize>, n: nat, v: int)
    requires
        is_permutation(p, n),
        0 <= v < n,
    ensures
        exists|j: int| 0 <= j < p.len() && p[j] as int == v,
{
    broadcast use vstd::seq_lib::group_seq_properties;
    broadcast use vstd::set::group_set_axioms;

    let pi = p.map_values(|x: usize| x as int);
    assert forall|a: int, b: int| 0 <= a < pi.len() && 0 <= b < pi.len() && a != b implies pi[a]
        != pi[b] by {
        if a < b {
            assert(p[a] != p[b]);
        } else {
            assert(p[b] != p[a]);
        }
    }
    assert(pi.no_duplicates());
    pi.unique_seq_to_set();
    vstd::set_lib::lemma_int_range(0, n as int);
    let range = vstd::set_lib::set_int_range(0, n as int);
    assert forall|x: int| pi.to_set().contains(x) implies range.contains(x) by {
        let j = choose|j: int| 0 <= j < pi.len() && pi[j] == x;
        assert(p[j] < n);
    }
    assert(pi.to_set().subset_of(range));
    vstd::set_lib::lemma_subset_equality(pi.to_set(), range);
    assert(range.contains(v));
    assert(pi.to_set().contains(v));
    let j = choose|j: int| 0 <= j < pi.len() && pi[j] == v;
    assert(p[j] as int == v);
}

proof fn lemma_sorted_prefix_equal(keys: Seq<(u64, Seq<char>)>, p: Seq<usize>, q: Seq<usize>, i: int)
    requires
        is_permutation(p, keys.len()),
        is_permutation(q, keys.len()),
        stably_sorted(keys, p),
        stably_sorted(keys, q),
        0 <= i <= p.len(),
    ensures
        forall|j: int| 0 <= j < i ==> p[j] == q[j],
    decreases i,
{
    if i > 0 {
        lemma_sorted_prefix_equal(keys, p, q, i - 1);
        let m = i - 1;
        let x = p[m];
        let y = q[m];
        if x != y {
            lemma_permutation_covers(q, keys.len(), x as int);
            let j = choose|j: int| 0 <= j < q.len() && q[j] as int == x as int;
            lemma_permutation_covers(p, keys.len(), y as int);
            let k = choose|k: int| 0 <= k < p.len() && p[k] as int == y as int;
            if j < m {
                assert(q[j] == p[j]);
                assert(p[j] != p[m]);
            }
            if k < m {
                assert(p[k] == q[k]);
                assert(q[k] != q[m]);
            }
            assert(j > m && k > m);
            assert(key_le(keys[p[m] as int], keys[p[k] as int]));
            assert(key_le(keys[q[m] as int], keys[q[j] as int]));
            assert(p[m] < p[k]);
            assert(q[m] < q[j]);
        }
    }
}

/// The stable order is unique: the positions sorted by key, equal keys in
/// their original order, can be arranged in only one way.
pub proof fn law_stable_order_unique(keys: Seq<(u64, Seq<char>)>, p: Seq<usize>, q: Seq<usize>)
    requires
        is_permutation(p, keys.len()),
        is_permutation(q, keys.len()),
        stably_sorted(keys, p),
        stably_sorted(keys, q),
    ensures
        p == q,
{
    lemma_sorted_prefix_equal(keys, p, q, p.len() as int);
    assert(p =~= q);
}

} // verus!
