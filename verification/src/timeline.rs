//! The records of a timeline: the key they are sorted by, the sort itself
//! (oldest first, stable) and the removal of repeated records.

use vstd::prelude::*;
use crate::json::{Json, JsonV, member, views};
use crate::order::{is_permutation, stably_sorted, key_models, stable_order, law_stable_order_unique};
use crate::text::{
    str_chars, string_from_chars, find_chars, first_occurrence, split_on, split_chars, is_digit,
    texts,
};

verus! {

/// The ASCII digits of `s`, in order.
pub open spec fn digits_of(s: Seq<char>) -> Seq<char>
    decreases s.len(),
{
    if s.len() == 0 {
        s
    } else {
        let p = digits_of(s.drop_last());
        if is_digit(s.last()) {
            p.push(s.last())
        } else {
            p
        }
    }
}

/// `s` padded on the left with `0` up to `w` characters.
pub open spec fn pad_left(s: Seq<char>, w: nat) -> Seq<char> {
    if s.len() >= w {
        s
    } else {
        Seq::new((w - s.len()) as nat, |i: int| '0') + s
    }
}

/// `s` padded on the right with `0` up to `w` characters.
pub open spec fn pad_right(s: Seq<char>, w: nat) -> Seq<char> {
    if s.len() >= w {
        s
    } else {
        s + Seq::new((w - s.len()) as nat, |i: int| '0')
    }
}

/// The sortable key of a `dd/mm/aaaa HH:MM:SS` timestamp: `aaaammddHHMMSS`
/// (the time, when missing, is midnight). A date that is not three parts
/// separated by `/` has no key.
pub open spec fn key_of_text(s: Seq<char>) -> Option<Seq<char>> {
    let data = match first_occurrence(s, seq![' ']) {
        Some(k) => s.take(k),
        None => s,
    };
    let hora = match first_occurrence(s, seq![' ']) {
        Some(k) => s.skip(k + 1),
        None => "00:00:00"@,
    };
    let p = split_on(data, '/');
    if p.len() != 3 {
        None
    } else {
        Some(p[2] + pad_left(p[1], 2) + pad_left(p[0], 2) + pad_right(digits_of(hora), 6))
    }
}

/// The sortable key of a record, from its `DataHora` text.
pub open spec fn datahora_key_of(v: JsonV) -> Option<Seq<char>> {
    match member(v, "DataHora"@) {
        Some(JsonV::Str(s)) => key_of_text(s),
        _ => None,
    }
}

fn digits_exec(s: &[char]) -> (r: Vec<char>)
    ensures
        r@ == digits_of(s@),
{
    let mut r: Vec<char> = Vec::new();
    let mut i: usize = 0;
    while i < s.len()
        invariant
            i <= s.len(),
            r@ == digits_of(s@.subrange(0, i as int)),
        decreases s.len() - i,
    {
        assert(s@.subrange(0, i + 1).drop_last() =~= s@.subrange(0, i as int));
        if '0' <= s[i] && s[i] <= '9' {
            r.push(s[i]);
        }
        i = i + 1;
    }
    assert(s@.subrange(0, s@.len() as int) =~= s@);
    r
}

fn push_padded(out: &mut Vec<char>, s: &[char], w: usize, left: bool)
    ensures
        final(out)@ == old(out)@ + (if left {
            pad_left(s@, w as nat)
        } else {
            pad_right(s@, w as nat)
        }),
{
    let ghost start = old(out)@;
    let fill: usize = if s.len() >= w {
        0
    } else {
        w - s.len()
    };
    if left {
        let mut j: usize = 0;
        while j < fill
            invariant
                j <= fill,
                out@ == start + Seq::new(j as nat, |i: int| '0'),
            decreases fill - j,
        {
            out.push('0');
            j = j + 1;
            assert(out@ =~= start + Seq::new(j as nat, |i: int| '0'));
        }
    }
    let ghost mid = out@;
    let mut j: usize = 0;
    while j < s.len()
        invariant
            j <= s.len(),
            out@ == mid + s@.subrange(0, j as int),
        decreases s.len() - j,
    {
        out.push(s[j]);
        j = j + 1;
        assert(out@ =~= mid + s@.subrange(0, j as int));
    }
    if !left {
        let ghost mid2 = out@;
        let mut j: usize = 0;
        while j < fill
            invariant
                j <= fill,
                out@ == mid2 + Seq::new(j as nat, |i: int| '0'),
            decreases fill - j,
        {
            out.push('0');
            j = j + 1;
            assert(out@ =~= mid2 + Seq::new(j as nat, |i: int| '0'));
        }
    }
    assert(s@.subrange(0, s@.len() as int) =~= s@);
    if left {
        assert(out@ =~= start + pad_left(s@, w as nat));
    } else {
        assert(out@ =~= start + pad_right(s@, w as nat));
    }
}

fn chars_key(s: &str) -> (r: Option<Vec<char>>)
    ensures
        match r {
            Some(k) => key_of_text(s@) == Some(k@),
            None => key_of_text(s@) is None,
        },
{
    let cs = str_chars(s);
    let sp: Vec<char> = vec![' '];
    assert(sp@ =~= seq![' ']);
    let found = find_chars(cs.as_slice(), sp.as_slice());
    let mut data: Vec<char> = Vec::new();
    let mut hora: Vec<char> = Vec::new();
    match found {
        Some(k) => {
            proof {
                crate::text::lemma_occurrence_from_pub(cs@, sp@, 0);
            }
            let mut i: usize = 0;
            while i < k
                invariant
                    i <= k < cs.len(),
                    data@ == cs@.subrange(0, i as int),
                decreases k - i,
            {
                data.push(cs[i]);
                i = i + 1;
            }
            let mut i: usize = k + 1;
            while i < cs.len()
                invariant
                    k + 1 <= i <= cs@.len(),
                    hora@ == cs@.subrange(k + 1, i as int),
                decreases cs@.len() - i,
            {
                hora.push(cs[i]);
                i = i + 1;
            }
            assert(data@ =~= s@.take(k as int));
            assert(hora@ =~= s@.skip(k + 1));
        },
        None => {
            data = cs;
            hora = str_chars("00:00:00");
        },
    }
    assert(data@ == (match first_occurrence(s@, seq![' ']) {
        Some(k) => s@.take(k),
        None => s@,
    }));
    let p = split_chars(data.as_slice(), '/');
    if p.len() != 3 {
        return None;
    }
    let mut out: Vec<char> = Vec::new();
    let mut i: usize = 0;
    while i < p[2].len()
        invariant
            i <= p@[2]@.len(),
            p@.len() == 3,
            out@ == p@[2]@.subrange(0, i as int),
        decreases p@[2]@.len() - i,
    {
        out.push(p[2][i]);
        i = i + 1;
    }
    assert(p@[2]@.subrange(0, p@[2]@.len() as int) =~= p@[2]@);
    push_padded(&mut out, p[1].as_slice(), 2, true);
    push_padded(&mut out, p[0].as_slice(), 2, true);
    let d = digits_exec(hora.as_slice());
    push_padded(&mut out, d.as_slice(), 6, false);
    Some(out)
}

/// The sortable key of a record (see [`key_of_text`]); none when the record
/// has no `DataHora` text.
pub fn datahora_key(v: &Json) -> (r: Option<String>)
    ensures
        match r {
            Some(k) => datahora_key_of(v@) == Some(k@),
            None => datahora_key_of(v@) is None,
        },
{
    match v.get("DataHora") {
        Some(d) => match d.as_str() {
            Some(s) => match chars_key(s) {
                Some(k) => Some(string_from_chars(k.as_slice())),
                None => None,
            },
            None => None,
        },
        None => None,
    }
}


/// The sort key of a record: records with a `DataHora` key come first, by
/// key; records without one come after them.
pub open spec fn sort_key(v: JsonV) -> (u64, Seq<char>) {
    match datahora_key_of(v) {
        Some(k) => (0, k),
        None => (1, Seq::empty()),
    }
}

/// The sort keys of a sequence of records.
pub open spec fn sort_keys(s: Seq<JsonV>) -> Seq<(u64, Seq<char>)> {
    Seq::new(s.len(), |i: int| sort_key(s[i]))
}

/// The records of `input` taken in the order `p`.
pub open spec fn permuted(input: Seq<JsonV>, p: Seq<usize>) -> Seq<JsonV> {
    Seq::new(p.len(), |k: int| input[p[k] as int])
}

/// Whether `out` is `input` sorted by `DataHora`, oldest first: records with
/// equal keys keep their order, and records without a key come last, in
/// their order.
pub open spec fn sorted_by_datahora(input: Seq<JsonV>, out: Seq<JsonV>) -> bool {
    exists|p: Seq<usize>|
        #[trigger] is_permutation(p, input.len()) && stably_sorted(sort_keys(input), p) && out
            == permuted(input, p)
}

/// The sorted timeline is unique: there is one way to sort records by
/// `DataHora` stably, so [`sorted_by_datahora`] names exactly one result.
pub proof fn law_sorted_by_datahora_unique(input: Seq<JsonV>, o1: Seq<JsonV>, o2: Seq<JsonV>)
    requires
        sorted_by_datahora(input, o1),
        sorted_by_datahora(input, o2),
    ensures
        o1 == o2,
{
    let p = choose|p: Seq<usize>|
        #[trigger] is_permutation(p, input.len()) && stably_sorted(sort_keys(input), p) && o1
            == permuted(input, p);
    let q = choose|q: Seq<usize>|
        #[trigger] is_permutation(q, input.len()) && stably_sorted(sort_keys(input), q) && o2
            == permuted(input, q);
    assert(sort_keys(input).len() == input.len());
    law_stable_order_unique(sort_keys(input), p, q);
}

/// Sorts records by `DataHora`, oldest first (a stable sort; records
/// without a readable `DataHora` go last).
pub fn ordenar_por_datahora(arr: &mut Vec<Json>)
    ensures
        sorted_by_datahora(views(old(arr)@), views(final(arr)@)),
{
    let ghost input = views(arr@);
    let mut keys: Vec<(u64, Vec<char>)> = Vec::new();
    let mut i: usize = 0;
    while i < arr.len()
        invariant
            i <= arr@.len(),
            input == views(arr@),
            key_models(keys@) == sort_keys(input).take(i as int),
        decreases arr@.len() - i,
    {
        let k: (u64, Vec<char>) = match datahora_key(&arr[i]) {
            Some(t) => (0, str_chars(t.as_str())),
            None => (1, Vec::new()),
        };
        assert((k.0, k.1@) == sort_key(input[i as int]));
        let ghost before = keys@;
        keys.push(k);
        assert(key_models(keys@) =~= key_models(before).push((k.0, k.1@)));
        i = i + 1;
        assert(key_models(keys@) =~= sort_keys(input).take(i as int));
    }
    assert(key_models(keys@) =~= sort_keys(input));
    let p = stable_order(&keys);
    let mut out: Vec<Json> = Vec::new();
    let mut j: usize = 0;
    while j < p.len()
        invariant
            j <= p@.len(),
            input == views(arr@),
            is_permutation(p@, input.len()),
            views(out@) == permuted(input, p@.take(j as int)),
        decreases p@.len() - j,
    {
        assert(p@[j as int] < input.len());
        let c = arr[p[j]].copy();
        assert(c@ == input[p@[j as int] as int]);
        let ghost before = out@;
        out.push(c);
        assert(views(out@) =~= views(before).push(c@));
        assert(p@.take(j + 1) =~= p@.take(j as int).push(p@[j as int]));
        j = j + 1;
        assert(views(out@) =~= permuted(input, p@.take(j as int)));
    }
    assert(p@.take(p@.len() as int) =~= p@);
    assert(is_permutation(p@, input.len()));
    *arr = out;
}

/// The `IdAndamento` of a record, when it is a text.
pub open spec fn id_of(v: JsonV) -> Option<Seq<char>> {
    match member(v, "IdAndamento"@) {
        Some(JsonV::Str(s)) => Some(s),
        _ => None,
    }
}

/// Whether a record before position `i` has the id `id`.
pub open spec fn seen_before(s: Seq<JsonV>, i: int, id: Seq<char>) -> bool {
    exists|j: int| 0 <= j < i && #[trigger] id_of(s[j]) == Some(id)
}

/// Whether the record at `i` stays: it has no id, or no earlier record has
/// its id.
pub open spec fn kept(s: Seq<JsonV>, i: int) -> bool {
    match id_of(s[i]) {
        None => true,
        Some(id) => !seen_before(s, i, id),
    }
}

/// The records without repeated ids: the first record with each id stays,
/// and so does every record without an id, all in their order.
pub open spec fn dedup_of(s: Seq<JsonV>) -> Seq<JsonV>
    decreases s.len(),
{
    if s.len() == 0 {
        s
    } else {
        let p = dedup_of(s.drop_last());
        if kept(s, s.len() - 1) {
            p.push(s.last())
        } else {
            p
        }
    }
}

/// Removes records whose `IdAndamento` was already seen, keeping the first
/// occurrence of each id and every record without an id.
pub fn dedup_por_id(arr: &mut Vec<Json>)
    ensures
        views(final(arr)@) == dedup_of(views(old(arr)@)),
{
    let ghost input = views(arr@);
    let mut vistos: Vec<String> = Vec::new();
    let mut out: Vec<Json> = Vec::new();
    let mut i: usize = 0;
    while i < arr.len()
        invariant
            i <= arr@.len(),
            input == views(arr@),
            views(out@) == dedup_of(input.take(i as int)),
            forall|id: Seq<char>|
                #![trigger texts(vistos@).contains(id)]
                texts(vistos@).contains(id) <==> seen_before(input, i as int, id),
        decreases arr@.len() - i,
    {
        let ghost pre = input.take(i as int);
        let ghost pre1 = input.take(i + 1);
        assert(pre1.drop_last() =~= pre);
        assert(pre1.last() == input[i as int]);
        let keep: bool = match arr[i].get("IdAndamento") {
            Some(x) => match x.as_str() {
                Some(id) => {
                    let seen = crate::text::text_listed(&vistos, id);
                    if !seen {
                        let ghost vb = vistos@;
                        vistos.push(String::from_str(id));
                        proof {
                            assert(texts(vistos@) =~= texts(vb).push(id@));
                            assert forall|t: Seq<char>|
                                #![trigger texts(vistos@).contains(t)]
                                texts(vistos@).contains(t) <==> seen_before(input, i + 1, t) by {
                                if texts(vistos@).contains(t) && t != id@ {
                                    let k = choose|k: int|
                                        0 <= k < texts(vistos@).len() && texts(vistos@)[k] == t;
                                    assert(texts(vb)[k] == t);
                                    assert(texts(vb).contains(t));
                                }
                                if t == id@ {
                                    assert(texts(vistos@)[texts(vb).len() as int] == t);
                                    assert(id_of(input[i as int]) == Some(t));
                                }
                                if seen_before(input, i + 1, t) && t != id@ {
                                    let j = choose|j: int| 0 <= j < i + 1 && #[trigger] id_of(input[j]) == Some(t);
                                    assert(j < i);
                                    assert(seen_before(input, i as int, t));
                                    assert(texts(vb).contains(t));
                                    let k = choose|k: int| 0 <= k < texts(vb).len() && texts(vb)[k] == t;
                                    assert(texts(vistos@)[k] == t);
                                }
                            }
                        }
                    } else {
                        proof {
                            assert forall|t: Seq<char>|
                                #![trigger texts(vistos@).contains(t)]
                                texts(vistos@).contains(t) <==> seen_before(input, i + 1, t) by {
                                if seen_before(input, i + 1, t) {
                                    let j = choose|j: int| 0 <= j < i + 1 && #[trigger] id_of(input[j]) == Some(t);
                                    if j == i {
                                        assert(t == id@);
                                    } else {
                                        assert(seen_before(input, i as int, t));
                                    }
                                }
                                if seen_before(input, i as int, t) {
                                    let j = choose|j: int| 0 <= j < i && #[trigger] id_of(input[j]) == Some(t);
                                    assert(0 <= j < i + 1 && id_of(input[j]) == Some(t));
                                }
                            }
                        }
                    }
                    proof {
                        assert(id_of(input[i as int]) == Some(id@));
                        assert(seen_before(pre1, i as int, id@) == seen_before(input, i as int, id@)) by {
                            if seen_before(input, i as int, id@) {
                                let j = choose|j: int| 0 <= j < i && #[trigger] id_of(input[j]) == Some(id@);
                                assert(pre1[j] == input[j]);
                            }
                            if seen_before(pre1, i as int, id@) {
                                let j = choose|j: int| 0 <= j < i && #[trigger] id_of(pre1[j]) == Some(id@);
                                assert(pre1[j] == input[j]);
                            }
                        }
                    }
                    !seen
                },
                None => {
                    proof {
                        assert forall|t: Seq<char>|
                            #![trigger texts(vistos@).contains(t)]
                            texts(vistos@).contains(t) <==> seen_before(input, i + 1, t) by {
                            if seen_before(input, i + 1, t) {
                                let j = choose|j: int| 0 <= j < i + 1 && #[trigger] id_of(input[j]) == Some(t);
                                assert(j != i);
                                assert(seen_before(input, i as int, t));
                            }
                            if seen_before(input, i as int, t) {
                                let j = choose|j: int| 0 <= j < i && #[trigger] id_of(input[j]) == Some(t);
                                assert(0 <= j < i + 1 && id_of(input[j]) == Some(t));
                            }
                        }
                    }
                    true
                },
            },
            None => {
                proof {
                    assert forall|t: Seq<char>|
                        #![trigger texts(vistos@).contains(t)]
                        texts(vistos@).contains(t) <==> seen_before(input, i + 1, t) by {
                        if seen_before(input, i + 1, t) {
                            let j = choose|j: int| 0 <= j < i + 1 && #[trigger] id_of(input[j]) == Some(t);
                            assert(j != i);
                            assert(seen_before(input, i as int, t));
                        }
                        if seen_before(input, i as int, t) {
                            let j = choose|j: int| 0 <= j < i && #[trigger] id_of(input[j]) == Some(t);
                            assert(0 <= j < i + 1 && id_of(input[j]) == Some(t));
                        }
                    }
                }
                true
            },
        };
        assert(keep == kept(pre1, i as int));
        if keep {
            let c = arr[i].copy();
            let ghost before = out@;
            out.push(c);
            assert(views(out@) =~= views(before).push(c@));
        }
        i = i + 1;
    }
    assert(input.take(i as int) =~= input);
    *arr = out;
}


proof fn lemma_dedup_from(s: Seq<JsonV>)
    ensures
        dedup_of(s).len() <= s.len(),
        forall|k: int|
            0 <= k < dedup_of(s).len() ==> exists|j: int|
                0 <= j < s.len() && #[trigger] dedup_of(s)[k] == s[j],
    decreases s.len(),
{
    if s.len() > 0 {
        let pre = s.drop_last();
        lemma_dedup_from(pre);
        let d = dedup_of(s);
        assert forall|k: int| 0 <= k < d.len() implies exists|j: int|
            0 <= j < s.len() && #[trigger] d[k] == s[j] by {
            if k < dedup_of(pre).len() {
                let j = choose|j: int| 0 <= j < pre.len() && dedup_of(pre)[k] == pre[j];
                assert(d[k] == s[j]);
            } else {
                assert(d[k] == s[s.len() - 1]);
            }
        }
    }
}

/// After removing repeated records, no two records share an `IdAndamento`,
/// and every id of the input is still there.
pub proof fn law_dedup_ids_unique(s: Seq<JsonV>)
    ensures
        forall|a: int, b: int|
            0 <= a < b < dedup_of(s).len() && id_of(dedup_of(s)[a]) is Some ==> id_of(
                #[trigger] dedup_of(s)[a],
            ) != id_of(#[trigger] dedup_of(s)[b]),
        forall|i: int|
            0 <= i < s.len() && id_of(s[i]) is Some ==> exists|k: int|
                0 <= k < dedup_of(s).len() && id_of(#[trigger] dedup_of(s)[k]) == id_of(s[i]),
    decreases s.len(),
{
    if s.len() > 0 {
        let pre = s.drop_last();
        law_dedup_ids_unique(pre);
        lemma_dedup_from(pre);
        let d = dedup_of(s);
        let dp = dedup_of(pre);
        let n = s.len() - 1;
        assert forall|a: int, b: int|
            0 <= a < b < d.len() && id_of(d[a]) is Some implies id_of(#[trigger] d[a]) != id_of(
                #[trigger] d[b],
            ) by {
            if b < dp.len() {
                assert(d[a] == dp[a] && d[b] == dp[b]);
            } else {
                assert(kept(s, n));
                assert(d[b] == s[n]);
                assert(d[a] == dp[a]);
                let j = choose|j: int| 0 <= j < pre.len() && dp[a] == pre[j];
                assert(s[j] == pre[j]);
                if id_of(d[a]) == id_of(d[b]) {
                    assert(id_of(s[j]) == id_of(s[n]));
                    assert(seen_before(s, n, id_of(s[n])->0));
                }
            }
        }
        assert forall|i: int| 0 <= i < s.len() && id_of(s[i]) is Some implies exists|k: int|
            0 <= k < d.len() && id_of(#[trigger] d[k]) == id_of(s[i]) by {
            if i < n {
                assert(pre[i] == s[i]);
                let k = choose|k: int| 0 <= k < dp.len() && id_of(#[trigger] dp[k]) == id_of(pre[i]);
                assert(d[k] == dp[k]);
            } else if kept(s, n) {
                assert(d[dp.len() as int] == s[n]);
            } else {
                let x = id_of(s[n])->0;
                let j = choose|j: int| 0 <= j < n && #[trigger] id_of(s[j]) == Some(x);
                assert(pre[j] == s[j]);
                let k = choose|k: int| 0 <= k < dp.len() && id_of(#[trigger] dp[k]) == id_of(pre[j]);
                assert(d[k] == dp[k]);
            }
        }
    }
}


/// Whether every character of `s` is an ASCII digit and there are `n` of them.
pub open spec fn digitos(s: Seq<char>, n: nat) -> bool {
    s.len() == n && forall|i: int| 0 <= i < s.len() ==> is_digit(#[trigger] s[i])
}

/// The text `dd/mm/aaaa HH:MM:SS` of a day, month, year and a time given as
/// `HHMMSS`.
pub open spec fn datahora_texto(dia: Seq<char>, mes: Seq<char>, ano: Seq<char>, hora: Seq<char>) -> Seq<char> {
    dia + seq!['/'] + mes + seq!['/'] + ano + seq![' '] + hora.take(2) + seq![':'] + hora.subrange(2, 4)
        + seq![':'] + hora.subrange(4, 6)
}

proof fn lemma_split_tail(a: Seq<char>, b: Seq<char>, c: char)
    requires
        forall|i: int| 0 <= i < b.len() ==> #[trigger] b[i] != c,
    ensures
        split_on(a + seq![c] + b, c) == split_on(a, c).push(b),
    decreases b.len(),
{
    if b.len() == 0 {
        assert((a + seq![c] + b).drop_last() =~= a);
        assert((a + seq![c] + b).last() == c);
        assert(b =~= Seq::<char>::empty());
    } else {
        let b0 = b.drop_last();
        assert forall|i: int| 0 <= i < b0.len() implies #[trigger] b0[i] != c by {
            assert(b0[i] == b[i]);
        }
        lemma_split_tail(a, b0, c);
        let x = a + seq![c] + b;
        assert(x.drop_last() =~= a + seq![c] + b0);
        assert(x.last() == b.last());
        assert(b[b.len() - 1] != c);
        assert(b0.push(b.last()) =~= b);
        let prev = split_on(a + seq![c] + b0, c);
        assert(prev == split_on(a, c).push(b0));
        assert(prev.last() == b0);
        assert(prev.update(prev.len() - 1, b0.push(b.last())) =~= split_on(a, c).push(b));
    }
}

proof fn lemma_split_none(b: Seq<char>, c: char)
    requires
        forall|i: int| 0 <= i < b.len() ==> #[trigger] b[i] != c,
    ensures
        split_on(b, c) == seq![b],
    decreases b.len(),
{
    if b.len() > 0 {
        let b0 = b.drop_last();
        assert forall|i: int| 0 <= i < b0.len() implies #[trigger] b0[i] != c by {
            assert(b0[i] == b[i]);
        }
        lemma_split_none(b0, c);
        assert(b[b.len() - 1] != c);
        assert(b0.push(b.last()) =~= b);
        assert(seq![b0].update(0, b0.push(b.last())) =~= seq![b]);
    } else {
        assert(b =~= Seq::<char>::empty());
    }
}

proof fn lemma_digits_of_concat(a: Seq<char>, b: Seq<char>)
    ensures
        digits_of(a + b) == digits_of(a) + digits_of(b),
    decreases b.len(),
{
    if b.len() == 0 {
        assert(a + b =~= a);
        assert(digits_of(a) + digits_of(b) =~= digits_of(a));
    } else {
        lemma_digits_of_concat(a, b.drop_last());
        assert((a + b).drop_last() =~= a + b.drop_last());
        assert((a + b).last() == b.last());
        if is_digit(b.last()) {
            assert(digits_of(a + b) =~= digits_of(a) + digits_of(b));
        } else {
            assert(digits_of(a + b) =~= digits_of(a) + digits_of(b));
        }
    }
}

proof fn lemma_digits_of_digits(s: Seq<char>)
    requires
        forall|i: int| 0 <= i < s.len() ==> is_digit(#[trigger] s[i]),
    ensures
        digits_of(s) == s,
    decreases s.len(),
{
    if s.len() > 0 {
        let s0 = s.drop_last();
        assert forall|i: int| 0 <= i < s0.len() implies is_digit(#[trigger] s0[i]) by {
            assert(s0[i] == s[i]);
        }
        lemma_digits_of_digits(s0);
        assert(s0.push(s.last()) =~= s);
    }
}

proof fn lemma_data_sem_espaco(dia: Seq<char>, mes: Seq<char>, ano: Seq<char>)
    requires
        digitos(dia, 2),
        digitos(mes, 2),
        digitos(ano, 4),
    ensures
        forall|m: int|
            0 <= m < 10 ==> #[trigger] (dia + seq!['/'] + mes + seq!['/'] + ano)[m] != ' ',
        (dia + seq!['/'] + mes + seq!['/'] + ano).len() == 10,
{
    let data = dia + seq!['/'] + mes + seq!['/'] + ano;
    assert forall|m: int| 0 <= m < 10 implies #[trigger] data[m] != ' ' by {
        if m < 2 {
            assert(data[m] == dia[m]);
            assert(is_digit(dia[m]));
        } else if m == 2 || m == 5 {
        } else if m < 5 {
            assert(data[m] == mes[m - 3]);
            assert(is_digit(mes[m - 3]));
        } else {
            assert(data[m] == ano[m - 6]);
            assert(is_digit(ano[m - 6]));
        }
    }
}

proof fn lemma_primeiro_espaco(data: Seq<char>, h: Seq<char>)
    requires
        data.len() == 10,
        forall|m: int| 0 <= m < 10 ==> #[trigger] data[m] != ' ',
    ensures
        first_occurrence(data + seq![' '] + h, seq![' ']) == Some(10int),
        (data + seq![' '] + h).take(10) == data,
        (data + seq![' '] + h).skip(11) == h,
{
    let t = data + seq![' '] + h;
    crate::text::lemma_occurrence_from_pub(t, seq![' '], 0);
    assert(t.subrange(10, 11) =~= seq![' ']);
    assert(crate::text::occurs_at(t, seq![' '], 10));
    assert forall|m: int| 0 <= m < 10 implies !crate::text::occurs_at(t, seq![' '], m) by {
        assert(t[m] == data[m]);
        assert(t.subrange(m, m + 1)[0] == t[m]);
    }
    assert(t.take(10) =~= data);
    assert(t.skip(11) =~= h);
}

proof fn lemma_datahora_partes(dia: Seq<char>, mes: Seq<char>, ano: Seq<char>, hora: Seq<char>)
    requires
        digitos(dia, 2),
        digitos(mes, 2),
        digitos(ano, 4),
        digitos(hora, 6),
    ensures
        first_occurrence(datahora_texto(dia, mes, ano, hora), seq![' ']) == Some(10int),
        datahora_texto(dia, mes, ano, hora).take(10) == dia + seq!['/'] + mes + seq!['/'] + ano,
        datahora_texto(dia, mes, ano, hora).skip(11) == hora.take(2) + seq![':'] + hora.subrange(2, 4)
            + seq![':'] + hora.subrange(4, 6),
{
    let data = dia + seq!['/'] + mes + seq!['/'] + ano;
    let h = hora.take(2) + seq![':'] + hora.subrange(2, 4) + seq![':'] + hora.subrange(4, 6);
    assert(datahora_texto(dia, mes, ano, hora) =~= data + seq![' '] + h);
    lemma_data_sem_espaco(dia, mes, ano);
    lemma_primeiro_espaco(data, h);
}

proof fn lemma_data_partes(dia: Seq<char>, mes: Seq<char>, ano: Seq<char>)
    requires
        digitos(dia, 2),
        digitos(mes, 2),
        digitos(ano, 4),
    ensures
        split_on(dia + seq!['/'] + mes + seq!['/'] + ano, '/') == seq![dia, mes, ano],
{
    assert forall|i: int| 0 <= i < ano.len() implies #[trigger] ano[i] != '/' by {
        assert(is_digit(ano[i]));
    }
    assert forall|i: int| 0 <= i < mes.len() implies #[trigger] mes[i] != '/' by {
        assert(is_digit(mes[i]));
    }
    assert forall|i: int| 0 <= i < dia.len() implies #[trigger] dia[i] != '/' by {
        assert(is_digit(dia[i]));
    }
    lemma_split_tail(dia + seq!['/'] + mes, ano, '/');
    lemma_split_tail(dia, mes, '/');
    lemma_split_none(dia, '/');
    assert(split_on(dia + seq!['/'] + mes + seq!['/'] + ano, '/') =~= seq![dia, mes, ano]);
}

proof fn lemma_hora_digitos(hora: Seq<char>)
    requires
        digitos(hora, 6),
    ensures
        digits_of(hora.take(2) + seq![':'] + hora.subrange(2, 4) + seq![':'] + hora.subrange(4, 6))
            == hora,
{
    let a = hora.take(2);
    let b = hora.subrange(2, 4);
    let c = hora.subrange(4, 6);
    lemma_digits_of_concat(a + seq![':'] + b + seq![':'], c);
    lemma_digits_of_concat(a + seq![':'] + b, seq![':']);
    lemma_digits_of_concat(a + seq![':'], b);
    lemma_digits_of_concat(a, seq![':']);
    let e = seq![':'];
    assert(e.drop_last() =~= Seq::<char>::empty());
    assert(digits_of(Seq::<char>::empty()) =~= Seq::<char>::empty());
    assert(e.last() == ':');
    assert(!is_digit(':'));
    assert(digits_of(e) =~= Seq::<char>::empty());
    assert forall|i: int| 0 <= i < a.len() implies is_digit(#[trigger] a[i]) by {
        assert(a[i] == hora[i]);
    }
    assert forall|i: int| 0 <= i < b.len() implies is_digit(#[trigger] b[i]) by {
        assert(b[i] == hora[i + 2]);
    }
    assert forall|i: int| 0 <= i < c.len() implies is_digit(#[trigger] c[i]) by {
        assert(c[i] == hora[i + 4]);
    }
    lemma_digits_of_digits(a);
    lemma_digits_of_digits(b);
    lemma_digits_of_digits(c);
    assert(a + b + c =~= hora);
    assert(a + Seq::<char>::empty() + b + Seq::<char>::empty() + c =~= hora);
}

/// The sort key of a `dd/mm/aaaa HH:MM:SS` timestamp is `aaaammddHHMMSS`:
/// the year, month and day, then the time, so that keys compare as the
/// moments they stand for.
pub proof fn law_datahora_key(dia: Seq<char>, mes: Seq<char>, ano: Seq<char>, hora: Seq<char>)
    requires
        digitos(dia, 2),
        digitos(mes, 2),
        digitos(ano, 4),
        digitos(hora, 6),
    ensures
        key_of_text(datahora_texto(dia, mes, ano, hora)) == Some(ano + mes + dia + hora),
{
    lemma_datahora_partes(dia, mes, ano, hora);
    lemma_data_partes(dia, mes, ano);
    lemma_hora_digitos(hora);
    assert(pad_left(mes, 2) == mes);
    assert(pad_left(dia, 2) == dia);
    assert(pad_right(hora, 6) == hora);
}

proof fn lemma_lex_common_prefix(p: Seq<char>, x: Seq<char>, y: Seq<char>)
    requires
        crate::order::lex_le(p + x, p + y),
    ensures
        crate::order::lex_le(x, y),
    decreases p.len(),
{
    if p.len() == 0 {
        assert(p + x =~= x);
        assert(p + y =~= y);
    } else {
        assert((p + x)[0] == (p + y)[0]);
        assert((p + x).drop_first() =~= p.drop_first() + x);
        assert((p + y).drop_first() =~= p.drop_first() + y);
        lemma_lex_common_prefix(p.drop_first(), x, y);
    }
}

/// In a timeline sorted by `DataHora`, of two records of the same day the
/// one with the earlier time comes first: a record at position `a` before
/// one at position `b` never has a later `HHMMSS`.
pub proof fn law_mesmo_dia_pela_hora(
    input: Seq<JsonV>,
    out: Seq<JsonV>,
    a: int,
    b: int,
    dia: Seq<char>,
    mes: Seq<char>,
    ano: Seq<char>,
    hora_a: Seq<char>,
    hora_b: Seq<char>,
)
    requires
        sorted_by_datahora(input, out),
        0 <= a < b < out.len(),
        digitos(dia, 2),
        digitos(mes, 2),
        digitos(ano, 4),
        digitos(hora_a, 6),
        digitos(hora_b, 6),
        member(out[a], "DataHora"@) == Some(JsonV::Str(datahora_texto(dia, mes, ano, hora_a))),
        member(out[b], "DataHora"@) == Some(JsonV::Str(datahora_texto(dia, mes, ano, hora_b))),
    ensures
        crate::order::lex_le(hora_a, hora_b),
{
    let p = choose|p: Seq<usize>|
        #[trigger] is_permutation(p, input.len()) && stably_sorted(sort_keys(input), p) && out
            == permuted(input, p);
    law_datahora_key(dia, mes, ano, hora_a);
    law_datahora_key(dia, mes, ano, hora_b);
    let keys = sort_keys(input);
    assert(out[a] == input[p[a] as int] && out[b] == input[p[b] as int]);
    assert(keys[p[a] as int] == sort_key(out[a]));
    assert(keys[p[b] as int] == sort_key(out[b]));
    assert(crate::order::key_le(keys[p[a] as int], keys[p[b] as int]));
    let pre = ano + mes + dia;
    assert(ano + mes + dia + hora_a =~= pre + hora_a);
    assert(ano + mes + dia + hora_b =~= pre + hora_b);
    lemma_lex_common_prefix(pre, hora_a, hora_b);
}


proof fn lemma_kept_prefix(s: Seq<JsonV>, i: int, m: int)
    requires
        0 <= i < m <= s.len(),
    ensures
        kept(s.take(m), i) == kept(s, i),
{
    let t = s.take(m);
    assert(t[i] == s[i]);
    if let Some(id) = id_of(s[i]) {
        if seen_before(s, i, id) {
            let j = choose|j: int| 0 <= j < i && #[trigger] id_of(s[j]) == Some(id);
            assert(t[j] == s[j]);
        }
        if seen_before(t, i, id) {
            let j = choose|j: int| 0 <= j < i && #[trigger] id_of(t[j]) == Some(id);
            assert(t[j] == s[j]);
        }
    }
}

proof fn lemma_dedup_positions(s: Seq<JsonV>) -> (pos: Seq<int>)
    ensures
        pos.len() == dedup_of(s).len(),
        forall|k: int| 0 <= k < pos.len() ==> 0 <= #[trigger] pos[k] < s.len() && dedup_of(s)[k] == s[pos[k]],
        forall|a: int, b: int| 0 <= a < b < pos.len() ==> #[trigger] pos[a] < #[trigger] pos[b],
        forall|i: int| 0 <= i < s.len() ==> (kept(s, i) <==> pos.contains(i)),
    decreases s.len(),
{
    if s.len() == 0 {
        Seq::empty()
    } else {
        let pre = s.drop_last();
        let n = s.len() - 1;
        let p0 = lemma_dedup_positions(pre);
        assert(pre =~= s.take(n));
        assert forall|i: int| 0 <= i < n implies kept(pre, i) == kept(s, i) by {
            lemma_kept_prefix(s, i, n);
        }
        let pos = if kept(s, n) {
            p0.push(n)
        } else {
            p0
        };
        assert forall|k: int| 0 <= k < pos.len() implies 0 <= #[trigger] pos[k] < s.len() && dedup_of(s)[k]
            == s[pos[k]] by {
            if k < p0.len() {
                assert(pos[k] == p0[k]);
                assert(dedup_of(s)[k] == dedup_of(pre)[k]);
                assert(pre[p0[k]] == s[p0[k]]);
            }
        }
        assert forall|a: int, b: int| 0 <= a < b < pos.len() implies #[trigger] pos[a] < #[trigger] pos[b] by {
            if b < p0.len() {
                assert(pos[a] == p0[a] && pos[b] == p0[b]);
            } else {
                assert(pos[a] == p0[a]);
            }
        }
        assert forall|i: int| 0 <= i < s.len() implies (kept(s, i) <==> pos.contains(i)) by {
            if i < n {
                if kept(s, i) {
                    let k = choose|k: int| 0 <= k < p0.len() && p0[k] == i;
                    assert(pos[k] == i);
                }
                if pos.contains(i) {
                    let k = choose|k: int| 0 <= k < pos.len() && pos[k] == i;
                    if k < p0.len() {
                        assert(p0[k] == i);
                    }
                }
            } else {
                if kept(s, n) {
                    assert(pos[pos.len() - 1] == n);
                }
                if pos.contains(i) {
                    let k = choose|k: int| 0 <= k < pos.len() && pos[k] == i;
                    if k < p0.len() {
                        assert(p0[k] == i);
                        assert(p0[k] < pre.len());
                    }
                }
            }
        }
        pos
    }
}

/// Removing repeated records keeps, in their order, exactly the records that
/// have no `IdAndamento` or whose `IdAndamento` no earlier record has: the
/// first record with each id stays, the later ones go.
pub proof fn law_dedup_keeps_first(s: Seq<JsonV>)
    ensures
        exists|pos: Seq<int>|
            #![trigger pos.len()]
            {
                &&& pos.len() == dedup_of(s).len()
                &&& forall|k: int|
                    0 <= k < pos.len() ==> 0 <= #[trigger] pos[k] < s.len() && dedup_of(s)[k] == s[pos[k]]
                &&& forall|a: int, b: int| 0 <= a < b < pos.len() ==> #[trigger] pos[a] < #[trigger] pos[b]
                &&& forall|i: int|
                    0 <= i < s.len() ==> ((id_of(#[trigger] s[i]) is None || forall|j: int|
                        0 <= j < i ==> id_of(#[trigger] s[j]) != id_of(s[i])) <==> pos.contains(i))
            },
{
    let pos = lemma_dedup_positions(s);
    assert forall|i: int| 0 <= i < s.len() implies ((id_of(#[trigger] s[i]) is None || forall|j: int|
        0 <= j < i ==> id_of(#[trigger] s[j]) != id_of(s[i])) <==> pos.contains(i)) by {
        if let Some(id) = id_of(s[i]) {
            if seen_before(s, i, id) {
                let j = choose|j: int| 0 <= j < i && #[trigger] id_of(s[j]) == Some(id);
                assert(id_of(s[j]) == id_of(s[i]));
            }
        }
    }
    assert(pos.len() == pos.len());
}

/// A sorted timeline goes by `DataHora`: every record with a timestamp comes
/// before every record without one, and of two records with timestamps the
/// earlier key comes first.
pub proof fn law_sorted_timeline_order(input: Seq<JsonV>, out: Seq<JsonV>, a: int, b: int)
    requires
        sorted_by_datahora(input, out),
        0 <= a < b < out.len(),
    ensures
        datahora_key_of(out[b]) is Some ==> datahora_key_of(out[a]) is Some,
        datahora_key_of(out[a]) is Some && datahora_key_of(out[b]) is Some ==> crate::order::lex_le(
            datahora_key_of(out[a])->0,
            datahora_key_of(out[b])->0,
        ),
{
    let p = choose|p: Seq<usize>|
        #[trigger] is_permutation(p, input.len()) && stably_sorted(sort_keys(input), p) && out
            == permuted(input, p);
    let keys = sort_keys(input);
    assert(out[a] == input[p[a] as int] && out[b] == input[p[b] as int]);
    assert(keys[p[a] as int] == sort_key(out[a]));
    assert(keys[p[b] as int] == sort_key(out[b]));
    assert(crate::order::key_le(keys[p[a] as int], keys[p[b] as int]));
}

/// A timestamp without a time sorts as midnight of its day: the key of
/// `dd/mm/aaaa` is `aaaammdd000000`.
pub proof fn law_datahora_key_sem_hora(dia: Seq<char>, mes: Seq<char>, ano: Seq<char>)
    requires
        digitos(dia, 2),
        digitos(mes, 2),
        digitos(ano, 4),
    ensures
        key_of_text(dia + seq!['/'] + mes + seq!['/'] + ano) == Some(ano + mes + dia + seq!['0', '0', '0', '0', '0', '0']),
{
    let data = dia + seq!['/'] + mes + seq!['/'] + ano;
    lemma_data_sem_espaco(dia, mes, ano);
    crate::text::lemma_occurrence_from_pub(data, seq![' '], 0);
    assert forall|m: int| 0 <= m implies !crate::text::occurs_at(data, seq![' '], m) by {
        if 0 <= m && m + 1 <= data.len() {
            assert(data.subrange(m, m + 1)[0] == data[m]);
        }
    }
    assert(first_occurrence(data, seq![' ']) is None);
    lemma_data_partes(dia, mes, ano);
    reveal_strlit("00:00:00");
    let h = "00:00:00"@;
    let z = seq!['0', '0'];
    assert(h =~= z + seq![':'] + z + seq![':'] + z);
    let hora = seq!['0', '0', '0', '0', '0', '0'];
    assert(hora.take(2) =~= z && hora.subrange(2, 4) =~= z && hora.subrange(4, 6) =~= z);
    assert(digitos(hora, 6));
    lemma_hora_digitos(hora);
    assert(pad_left(mes, 2) == mes);
    assert(pad_left(dia, 2) == dia);
    assert(pad_right(hora, 6) == hora);
}

} // verus!
