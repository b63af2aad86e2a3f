//! The documents and publications of a process, found in its timeline: the
//! SEI has no operation that lists them, so they are read off the text of
//! the timeline's records.

use vstd::prelude::*;
use vstd::utf8::{encode_utf8, encode_scalar};
use crate::text::{str_chars, string_from_chars, find_chars, first_occurrence, is_digit};
use crate::sei::{opt_text, pairs_view};
use crate::order::{is_permutation, stably_sorted, key_models, stable_order, law_stable_order_unique};
use crate::json::{Json, JsonV, member, views, member_views, lemma_obj_view, lemma_arr_view, lemma_key_index_first};
use crate::error::AppError;
use crate::text::texts;

verus! {

/// Names what `str::to_lowercase` returns (the Unicode lowercase mapping).
pub uninterp spec fn lowercase(s: Seq<char>) -> Seq<char>;

/// `str::to_lowercase`: claimed to return `lowercase` of its argument.
#[verifier::external_body]
fn to_lowercase(s: &str) -> (r: String)
    ensures
        r@ == lowercase(s@),
{
    s.to_lowercase()
}

/// The number of bytes of the UTF-8 encoding of `s`.
pub open spec fn utf8_len(s: Seq<char>) -> nat {
    encode_utf8(s).len()
}

proof fn lemma_encode_push(s: Seq<char>, c: char)
    ensures
        encode_utf8(s.push(c)) == encode_utf8(s) + encode_scalar(c as u32),
    decreases s.len(),
{
    if s.len() == 0 {
        assert(s.push(c).drop_first() =~= Seq::<char>::empty());
        assert(encode_utf8(Seq::<char>::empty()) =~= Seq::<u8>::empty());
        assert(encode_utf8(s.push(c)) =~= encode_scalar(c as u32));
        assert(encode_utf8(s) + encode_scalar(c as u32) =~= encode_scalar(c as u32));
    } else {
        lemma_encode_push(s.drop_first(), c);
        assert(s.push(c).drop_first() =~= s.drop_first().push(c));
        assert(s.push(c)[0] == s[0]);
        assert(encode_utf8(s.push(c)) =~= encode_scalar(s[0] as u32) + encode_utf8(
            s.drop_first().push(c),
        ));
        assert(encode_utf8(s.push(c)) =~= encode_utf8(s) + encode_scalar(c as u32));
    }
}

/// The UTF-8 width of a character, as `char::len_utf8` gives it.
fn char_width(c: char) -> (w: u128)
    ensures
        w == encode_scalar(c as u32).len(),
        1 <= w <= 4,
{
    let u = c as u32;
    proof {
        vstd::utf8::char_is_scalar(c);
    }
    if u <= 0x7f {
        1
    } else if u <= 0x7ff {
        2
    } else if u <= 0xffff {
        3
    } else {
        4
    }
}

/// Sums the UTF-8 widths of the first `m` characters of `s`.
fn utf8_prefix_len(s: &[char], m: usize) -> (r: u128)
    requires
        m <= s.len(),
    ensures
        r == utf8_len(s@.take(m as int)),
        r <= 4 * m,
{
    let mut acc: u128 = 0;
    let mut i: usize = 0;
    assert(s@.take(0) =~= Seq::<char>::empty());
    assert(encode_utf8(Seq::<char>::empty()) =~= Seq::<u8>::empty());
    while i < m
        invariant
            i <= m <= s.len(),
            acc == utf8_len(s@.take(i as int)),
            acc <= 4 * i,
        decreases m - i,
    {
        proof {
            lemma_encode_push(s@.take(i as int), s@[i as int]);
            assert(s@.take(i + 1) =~= s@.take(i as int).push(s@[i as int]));
        }
        acc = acc + char_width(s[i]);
        i = i + 1;
    }
    acc
}

/// The first position `m` at or after `k` at which the first `m` characters
/// of `s` take exactly `b` bytes, if any: the character index of byte `b`,
/// when `b` falls between two characters.
pub open spec fn char_index_from(s: Seq<char>, b: int, k: int) -> Option<int>
    decreases s.len() + 1 - k,
{
    if k < 0 || k > s.len() {
        None
    } else if utf8_len(s.take(k)) == b {
        Some(k)
    } else {
        char_index_from(s, b, k + 1)
    }
}

/// The text after its leading characters that are not ASCII digits.
pub open spec fn skip_non_digits(s: Seq<char>) -> Seq<char>
    decreases s.len(),
{
    if s.len() > 0 && !is_digit(s[0]) {
        skip_non_digits(s.drop_first())
    } else {
        s
    }
}

/// The ASCII digits at the start of a text.
pub open spec fn leading_digits(s: Seq<char>) -> Seq<char>
    decreases s.len(),
{
    if s.len() > 0 && is_digit(s[0]) {
        seq![s[0]] + leading_digits(s.drop_first())
    } else {
        Seq::empty()
    }
}

/// The byte offset, in the lowercase text, just after its first
/// `documento`.
pub open spec fn doc_offset(lower: Seq<char>) -> Option<int> {
    match first_occurrence(lower, "documento"@) {
        Some(k) => Some(utf8_len(lower.take(k)) as int + 9),
        None => None,
    }
}

/// Whether cutting the description at that offset would fall inside a
/// character or past its end (the lowercase text may be longer than the
/// description).
pub open spec fn cut_fails(d: Seq<char>, lower: Seq<char>) -> bool {
    doc_offset(lower) matches Some(b) && char_index_from(d, b, 0) is None
}

/// The document number of a description, given its lowercase text: from the
/// byte offset just after the first `documento` of the lowercase text, the
/// first run of ASCII digits of the description, when it has at least six.
pub open spec fn numero_em(d: Seq<char>, lower: Seq<char>) -> Option<Seq<char>> {
    match doc_offset(lower) {
        None => None,
        Some(b) => match char_index_from(d, b, 0) {
            None => None,
            Some(m) => {
                let run = leading_digits(skip_non_digits(d.skip(m)));
                if run.len() >= 6 {
                    Some(run)
                } else {
                    None
                }
            },
        },
    }
}

fn doc_offset_exec(lower: &str) -> (r: Option<u128>)
    ensures
        match r {
            Some(b) => doc_offset(lower@) == Some(b as int),
            None => doc_offset(lower@) is None,
        },
{
    let low = str_chars(lower);
    let word = str_chars("documento");
    match find_chars(low.as_slice(), word.as_slice()) {
        Some(k) => {
            proof {
                crate::text::lemma_occurrence_from_pub(low@, word@, 0);
            }
            Some(utf8_prefix_len(low.as_slice(), k) + 9)
        },
        None => None,
    }
}

fn char_index_of(d: &[char], b: u128) -> (r: Option<usize>)
    ensures
        match r {
            Some(m) => char_index_from(d@, b as int, 0) == Some(m as int) && m <= d.len(),
            None => char_index_from(d@, b as int, 0) is None,
        },
{
    let mut m: usize = 0;
    let mut acc: u128 = 0;
    assert(d@.take(0) =~= Seq::<char>::empty());
    assert(encode_utf8(Seq::<char>::empty()) =~= Seq::<u8>::empty());
    loop
        invariant
            m <= d.len(),
            acc == utf8_len(d@.take(m as int)),
            acc <= 4 * m,
            char_index_from(d@, b as int, 0) == char_index_from(d@, b as int, m as int),
        decreases d.len() - m,
    {
        if acc == b {
            return Some(m);
        }
        if m == d.len() {
            assert(char_index_from(d@, b as int, m + 1) is None);
            return None;
        }
        proof {
            lemma_encode_push(d@.take(m as int), d@[m as int]);
            assert(d@.take(m + 1) =~= d@.take(m as int).push(d@[m as int]));
        }
        acc = acc + char_width(d[m]);
        m = m + 1;
    }
}

/// The document number of a description, given its lowercase text (see
/// [`numero_em`]).
pub fn numero_documento_em(descricao: &str, lower: &str) -> (r: Option<String>)
    requires
        !cut_fails(descricao@, lower@),
    ensures
        opt_text(r) == numero_em(descricao@, lower@),
{
    let b = match doc_offset_exec(lower) {
        Some(b) => b,
        None => {
            return None;
        },
    };
    let d = str_chars(descricao);
    let m = match char_index_of(d.as_slice(), b) {
        Some(m) => m,
        None => {
            return None;
        },
    };
    // skip to the first digit
    let mut a: usize = m;
    assert(d@.skip(m as int) =~= d@.skip(a as int));
    while a < d.len() && !('0' <= d[a] && d[a] <= '9')
        invariant
            m <= a <= d.len(),
            skip_non_digits(d@.skip(m as int)) == skip_non_digits(d@.skip(a as int)),
        decreases d.len() - a,
    {
        assert(d@.skip(a as int).drop_first() =~= d@.skip(a + 1));
        a = a + 1;
    }
    let ghost s = d@.skip(a as int);
    assert(skip_non_digits(d@.skip(m as int)) == s);
    let mut e: usize = a;
    assert(s =~= d@.skip(e as int));
    while e < d.len() && '0' <= d[e] && d[e] <= '9'
        invariant
            a <= e <= d.len(),
            s == d@.skip(a as int),
            leading_digits(s) == d@.subrange(a as int, e as int) + leading_digits(d@.skip(e as int)),
        decreases d.len() - e,
    {
        assert(d@.skip(e as int).drop_first() =~= d@.skip(e + 1));
        assert(d@.subrange(a as int, e + 1) =~= d@.subrange(a as int, e as int) + seq![d@[e as int]]);
        e = e + 1;
    }
    assert(leading_digits(d@.skip(e as int)) =~= Seq::<char>::empty());
    assert(leading_digits(s) =~= d@.subrange(a as int, e as int));
    if e - a >= 6 {
        let run = string_from_chars(&d.as_slice()[a..e]);
        Some(run)
    } else {
        None
    }
}

/// The document number mentioned in a timeline description (see
/// [`numero_em`]). A description whose lowercase text does not line up with
/// it at the cut gives no number.
pub fn numero_documento(descricao: &str) -> (r: Option<String>)
    ensures
        !cut_fails(descricao@, lowercase(descricao@)) ==> opt_text(r) == numero_em(
            descricao@,
            lowercase(descricao@),
        ),
        cut_fails(descricao@, lowercase(descricao@)) ==> r is None,
{
    let lower = to_lowercase(descricao);
    if cuts(descricao, lower.as_str()) {
        numero_documento_em(descricao, lower.as_str())
    } else {
        None
    }
}

/// Whether the description can be cut where its lowercase text says.
fn cuts(descricao: &str, lower: &str) -> (r: bool)
    ensures
        r == !cut_fails(descricao@, lower@),
{
    match doc_offset_exec(lower) {
        Some(b) => {
            let d = str_chars(descricao);
            char_index_of(d.as_slice(), b).is_some()
        },
        None => true,
    }
}


/// The document number of a description (none where the cut fails).
pub open spec fn numero_doc_of(d: Seq<char>) -> Option<Seq<char>> {
    if cut_fails(d, lowercase(d)) {
        None
    } else {
        numero_em(d, lowercase(d))
    }
}

/// The text of member `k` of a record when it is a text, otherwise empty.
pub open spec fn text_member(v: JsonV, k: Seq<char>) -> Seq<char> {
    match member(v, k) {
        Some(JsonV::Str(s)) => s,
        _ => Seq::empty(),
    }
}

/// Member `k` of a record, or `null`.
pub open spec fn member_or_null(v: JsonV, k: Seq<char>) -> JsonV {
    match member(v, k) {
        Some(x) => x,
        None => JsonV::Null,
    }
}

/// The document number a timeline record mentions in its `Descricao`.
pub open spec fn numero_do_registro(v: JsonV) -> Option<Seq<char>> {
    numero_doc_of(text_member(v, "Descricao"@))
}

/// The records of a timeline (none when it is not an array).
pub open spec fn registros_da_timeline(tl: JsonV) -> Seq<JsonV> {
    match tl {
        JsonV::Arr(a) => a,
        _ => Seq::empty(),
    }
}

/// Whether an earlier record (before `i`) mentions document `n`.
pub open spec fn mencionado_antes(recs: Seq<JsonV>, i: int, n: Seq<char>) -> bool {
    exists|j: int| 0 <= j < i && #[trigger] numero_do_registro(recs[j]) == Some(n)
}

/// Whether record `i` is the first to mention its document (its generation).
pub open spec fn primeira_mencao(recs: Seq<JsonV>, i: int) -> bool {
    match numero_do_registro(recs[i]) {
        Some(n) => !mencionado_antes(recs, i, n),
        None => false,
    }
}

/// The item of a document: its number and the record that first mentions it.
pub open spec fn doc_item(n: Seq<char>, v: JsonV) -> JsonV {
    JsonV::Obj(
        seq![
            ("documento"@, JsonV::Str(n)),
            ("DataHora"@, member_or_null(v, "DataHora"@)),
            ("Unidade"@, member_or_null(v, "Unidade"@)),
            ("Usuario"@, member_or_null(v, "Usuario"@)),
            ("Andamento"@, JsonV::Str(text_member(v, "Descricao"@))),
        ],
    )
}

/// The documents of a timeline, one per number, at its first mention, in
/// the order of the timeline.
pub open spec fn docs_from(recs: Seq<JsonV>) -> Seq<JsonV>
    decreases recs.len(),
{
    if recs.len() == 0 {
        Seq::empty()
    } else {
        let p = docs_from(recs.drop_last());
        if primeira_mencao(recs, recs.len() - 1) {
            p.push(doc_item(numero_do_registro(recs.last())->0, recs.last()))
        } else {
            p
        }
    }
}

/// The document numbers of a timeline, each once, in the order of their
/// first mention.
pub open spec fn nums_from(recs: Seq<JsonV>) -> Seq<Seq<char>>
    decreases recs.len(),
{
    if recs.len() == 0 {
        Seq::empty()
    } else {
        let p = nums_from(recs.drop_last());
        if primeira_mencao(recs, recs.len() - 1) {
            p.push(numero_do_registro(recs.last())->0)
        } else {
            p
        }
    }
}

fn text_of_member<'a>(v: &'a Json, k: &str) -> (r: &'a str)
    ensures
        r@ == text_member(v@, k@),
{
    match v.get(k) {
        Some(x) => match x.as_str() {
            Some(s) => s,
            None => {
                proof {
                    reveal_strlit("");
                }
                ""
            },
        },
        None => {
            proof {
                reveal_strlit("");
            }
            ""
        },
    }
}

fn member_or_null_exec(v: &Json, k: &str) -> (r: Json)
    ensures
        r@ == member_or_null(v@, k@),
{
    match v.get(k) {
        Some(x) => x.copy(),
        None => Json::Null,
    }
}

/// Reads the document numbers off a timeline: for each record, in order,
/// the number it mentions, with the item built for it, when it is the
/// first mention of that number.
fn scan_timeline(tl: &Json) -> (r: (Vec<String>, Vec<Json>))
    ensures
        texts(r.0@) == nums_from(registros_da_timeline(tl@)),
        views(r.1@) == docs_from(registros_da_timeline(tl@)),
{
    let mut nums: Vec<String> = Vec::new();
    let mut itens: Vec<Json> = Vec::new();
    match tl {
        Json::Arr(arr) => {
            proof {
                lemma_arr_view(*arr);
            }
            let ghost recs = views(arr@);
            assert(registros_da_timeline(tl@) == recs);
            let mut i: usize = 0;
            while i < arr.len()
                invariant
                    i <= arr@.len(),
                    recs == views(arr@),
                    texts(nums@) == nums_from(recs.take(i as int)),
                    views(itens@) == docs_from(recs.take(i as int)),
                    forall|n: Seq<char>|
                        #![trigger texts(nums@).contains(n)]
                        texts(nums@).contains(n) <==> mencionado_antes(recs, i as int, n),
                decreases arr@.len() - i,
            {
                let ghost pre = recs.take(i as int);
                let ghost pre1 = recs.take(i + 1);
                assert(pre1.drop_last() =~= pre);
                assert(pre1.last() == recs[i as int]);
                let rec = &arr[i];
                assert(rec@ == recs[i as int]);
                let descricao = text_of_member(rec, "Descricao");
                let num = numero_documento(descricao);
                assert(opt_text(num) == numero_do_registro(recs[i as int]));
                proof {
                    assert forall|n: Seq<char>|
                        mencionado_antes(pre1, i as int, n) == mencionado_antes(recs, i as int, n) by {
                        if mencionado_antes(recs, i as int, n) {
                            let j = choose|j: int|
                                0 <= j < i && #[trigger] numero_do_registro(recs[j]) == Some(n);
                            assert(pre1[j] == recs[j]);
                        }
                        if mencionado_antes(pre1, i as int, n) {
                            let j = choose|j: int|
                                0 <= j < i && #[trigger] numero_do_registro(pre1[j]) == Some(n);
                            assert(pre1[j] == recs[j]);
                        }
                    }
                }
                match num {
                    Some(n) => {
                        let seen = crate::text::text_listed(&nums, n.as_str());
                        if !seen {
                            let fields: Vec<(String, Json)> = vec![
                                (String::from_str("documento"), Json::Str(n.clone())),
                                (String::from_str("DataHora"), member_or_null_exec(rec, "DataHora")),
                                (String::from_str("Unidade"), member_or_null_exec(rec, "Unidade")),
                                (String::from_str("Usuario"), member_or_null_exec(rec, "Usuario")),
                                (String::from_str("Andamento"), Json::Str(String::from_str(descricao))),
                            ];
                            proof {
                                lemma_obj_view(fields);
                                assert(member_views(fields@) =~= doc_item(n@, recs[i as int])->Obj_0);
                            }
                            let item = Json::Obj(fields);
                            let ghost ib = itens@;
                            itens.push(item);
                            assert(views(itens@) =~= views(ib).push(item@));
                            let ghost vb = nums@;
                            nums.push(n);
                            proof {
                                assert(texts(nums@) =~= texts(vb).push(n@));
                                assert forall|t: Seq<char>|
                                    #![trigger texts(nums@).contains(t)]
                                    texts(nums@).contains(t) <==> mencionado_antes(recs, i + 1, t) by {
                                    if texts(nums@).contains(t) && t != n@ {
                                        let k = choose|k: int|
                                            0 <= k < texts(nums@).len() && texts(nums@)[k] == t;
                                        assert(texts(vb)[k] == t);
                                        assert(texts(vb).contains(t));
                                    }
                                    if t == n@ {
                                        assert(texts(nums@)[texts(vb).len() as int] == t);
                                        assert(numero_do_registro(recs[i as int]) == Some(t));
                                    }
                                    if mencionado_antes(recs, i + 1, t) && t != n@ {
                                        let j = choose|j: int|
                                            0 <= j < i + 1 && #[trigger] numero_do_registro(recs[j]) == Some(t);
                                        assert(j < i);
                                        assert(mencionado_antes(recs, i as int, t));
                                        assert(texts(vb).contains(t));
                                        let k = choose|k: int|
                                            0 <= k < texts(vb).len() && texts(vb)[k] == t;
                                        assert(texts(nums@)[k] == t);
                                    }
                                }
                            }
                        } else {
                            proof {
                                assert forall|t: Seq<char>|
                                    #![trigger texts(nums@).contains(t)]
                                    texts(nums@).contains(t) <==> mencionado_antes(recs, i + 1, t) by {
                                    if mencionado_antes(recs, i + 1, t) {
                                        let j = choose|j: int|
                                            0 <= j < i + 1 && #[trigger] numero_do_registro(recs[j]) == Some(t);
                                        if j == i {
                                            assert(t == n@);
                                        } else {
                                            assert(mencionado_antes(recs, i as int, t));
                                        }
                                    }
                                    if mencionado_antes(recs, i as int, t) {
                                        let j = choose|j: int|
                                            0 <= j < i && #[trigger] numero_do_registro(recs[j]) == Some(t);
                                        assert(0 <= j < i + 1 && numero_do_registro(recs[j]) == Some(t));
                                    }
                                }
                            }
                        }
                    },
                    None => {
                        proof {
                            assert forall|t: Seq<char>|
                                #![trigger texts(nums@).contains(t)]
                                texts(nums@).contains(t) <==> mencionado_antes(recs, i + 1, t) by {
                                if mencionado_antes(recs, i + 1, t) {
                                    let j = choose|j: int|
                                        0 <= j < i + 1 && #[trigger] numero_do_registro(recs[j]) == Some(t);
                                    assert(j != i);
                                    assert(mencionado_antes(recs, i as int, t));
                                }
                                if mencionado_antes(recs, i as int, t) {
                                    let j = choose|j: int|
                                        0 <= j < i && #[trigger] numero_do_registro(recs[j]) == Some(t);
                                    assert(0 <= j < i + 1 && numero_do_registro(recs[j]) == Some(t));
                                }
                            }
                        }
                    },
                }
                i = i + 1;
            }
            assert(recs.take(i as int) =~= recs);
        },
        _ => {
            assert(texts(nums@) =~= Seq::<Seq<char>>::empty());
            assert(views(itens@) =~= Seq::<JsonV>::empty());
        },
    }
    (nums, itens)
}

/// The documents of a process, read off its timeline: one item per document
/// number, at the record that first mentions it (its generation).
pub fn documentos_da_timeline(tl: &Json) -> (r: Vec<Json>)
    ensures
        views(r@) == docs_from(registros_da_timeline(tl@)),
{
    let (_, itens) = scan_timeline(tl);
    itens
}

/// The document numbers of a process, each once, in timeline order.
pub fn numeros_da_timeline(tl: &Json) -> (r: Vec<String>)
    ensures
        texts(r@) == nums_from(registros_da_timeline(tl@)),
{
    let (nums, _) = scan_timeline(tl);
    nums
}


/// The publication query of one document: by its number, without the
/// timeline and the signatures.
pub fn publicacao_params(num: String) -> (r: Vec<(&'static str, String)>)
    ensures
        pairs_view(r@) == seq![
            ("ProtocoloDocumento"@, num@),
            ("SinRetornarAndamento"@, "N"@),
            ("SinRetornarAssinaturas"@, "N"@),
        ],
{
    let r: Vec<(&'static str, String)> = vec![
        ("ProtocoloDocumento", num),
        ("SinRetornarAndamento", String::from_str("N")),
        ("SinRetornarAssinaturas", String::from_str("N")),
    ];
    assert(pairs_view(r@) =~= seq![
        ("ProtocoloDocumento"@, r@[0].1@),
        ("SinRetornarAndamento"@, "N"@),
        ("SinRetornarAssinaturas"@, "N"@),
    ]);
    r
}

/// What the publication query of a document says about it: a publication
/// when the SEI returns one; nothing when it returns `null` (no publication)
/// or a SOAP Fault (the heuristic number is not a document, or has none);
/// any other failure is a failure of the whole request, not hidden as "no
/// publications".
pub open spec fn publicacao_of(num: Seq<char>, r: Result<JsonV, AppError>) -> Result<
    Option<JsonV>,
    AppError,
> {
    match r {
        Ok(d) => if d is Null {
            Ok(None)
        } else {
            Ok(Some(JsonV::Obj(seq![("documento"@, JsonV::Str(num)), ("publicacao"@, d)])))
        },
        Err(AppError::SoapFault { .. }) => Ok(None),
        Err(e) => Err(e),
    }
}

/// The model of a result carrying a value.
pub open spec fn result_view(r: Result<Json, AppError>) -> Result<JsonV, AppError> {
    match r {
        Ok(v) => Ok(v@),
        Err(e) => Err(e),
    }
}

/// The model of an optional value.
pub open spec fn opt_view(o: Option<Json>) -> Option<JsonV> {
    match o {
        Some(v) => Some(v@),
        None => None,
    }
}

/// Classifies the answer to the publication query of document `num`.
pub fn publicacao_de(num: String, r: Result<Json, AppError>) -> (out: Result<Option<Json>, AppError>)
    ensures
        match publicacao_of(num@, result_view(r)) {
            Ok(o) => out matches Ok(x) && opt_view(x) == o,
            Err(e) => out == Err::<Option<Json>, AppError>(e),
        },
{
    match r {
        Ok(d) => {
            if d.is_null() {
                Ok(None)
            } else {
                let ghost dv = d@;
                let fields: Vec<(String, Json)> = vec![
                    (String::from_str("documento"), Json::Str(num)),
                    (String::from_str("publicacao"), d),
                ];
                proof {
                    lemma_obj_view(fields);
                    assert(member_views(fields@) =~= seq![
                        ("documento"@, JsonV::Str(fields@[0].1->Str_0@)),
                        ("publicacao"@, dv),
                    ]);
                }
                Ok(Some(Json::Obj(fields)))
            }
        },
        Err(AppError::SoapFault { .. }) => Ok(None),
        Err(e) => Err(e),
    }
}

/// The position of the first failure among the results, if any.
pub open spec fn first_err<T>(rs: Seq<Result<T, AppError>>) -> Option<int>
    decreases rs.len(),
{
    if rs.len() == 0 {
        None
    } else {
        match first_err(rs.drop_last()) {
            Some(i) => Some(i),
            None => if rs.last() is Err {
                Some(rs.len() - 1)
            } else {
                None
            },
        }
    }
}

/// The (position, publication) pairs of the results that succeeded.
pub open spec fn pub_pairs(rs: Seq<Result<(usize, Option<Json>), AppError>>) -> Seq<
    (usize, Option<JsonV>),
> {
    Seq::new(
        rs.len(),
        |i: int|
            match rs[i] {
                Ok((k, o)) => (k, opt_view(o)),
                Err(_) => (0, None),
            },
    )
}

/// The sort keys of the pairs: their positions.
pub open spec fn position_keys(pairs: Seq<(usize, Option<JsonV>)>) -> Seq<(u64, Seq<char>)> {
    Seq::new(pairs.len(), |i: int| (pairs[i].0 as u64, Seq::empty()))
}

/// The values present, in order.
pub open spec fn somes(s: Seq<Option<JsonV>>) -> Seq<JsonV>
    decreases s.len(),
{
    if s.len() == 0 {
        Seq::empty()
    } else {
        match s.last() {
            Some(v) => somes(s.drop_last()).push(v),
            None => somes(s.drop_last()),
        }
    }
}

/// The publications in the order of their documents, given pairs in any
/// order: sorted by position (stably), without the documents that have none.
pub open spec fn publicacoes_em_ordem(pairs: Seq<(usize, Option<JsonV>)>, out: Seq<JsonV>) -> bool {
    exists|p: Seq<usize>|
        #[trigger] is_permutation(p, pairs.len()) && stably_sorted(position_keys(pairs), p) && out
            == somes(Seq::new(p.len(), |k: int| pairs[p[k] as int].1))
}

/// The publications in order are unique: [`publicacoes_em_ordem`] names
/// exactly one result.
pub proof fn law_publicacoes_em_ordem_unique(pairs: Seq<(usize, Option<JsonV>)>, o1: Seq<JsonV>, o2: Seq<JsonV>)
    requires
        publicacoes_em_ordem(pairs, o1),
        publicacoes_em_ordem(pairs, o2),
    ensures
        o1 == o2,
{
    let p = choose|p: Seq<usize>|
        #[trigger] is_permutation(p, pairs.len()) && stably_sorted(position_keys(pairs), p) && o1
            == somes(Seq::new(p.len(), |k: int| pairs[p[k] as int].1));
    let q = choose|q: Seq<usize>|
        #[trigger] is_permutation(q, pairs.len()) && stably_sorted(position_keys(pairs), q) && o2
            == somes(Seq::new(q.len(), |k: int| pairs[q[k] as int].1));
    assert(position_keys(pairs).len() == pairs.len());
    law_stable_order_unique(position_keys(pairs), p, q);
}

fn first_err_exec<T>(rs: &Vec<Result<T, AppError>>) -> (r: Option<usize>)
    ensures
        match r {
            Some(i) => first_err(rs@) == Some(i as int) && i < rs@.len() && rs@[i as int] is Err,
            None => first_err(rs@) is None,
        },
{
    let mut i: usize = 0;
    while i < rs.len()
        invariant
            i <= rs@.len(),
            first_err(rs@.take(i as int)) is None,
        decreases rs@.len() - i,
    {
        assert(rs@.take(i + 1).drop_last() =~= rs@.take(i as int));
        if rs[i].is_err() {
            proof {
                lemma_first_err_prefix(rs@, i as int);
            }
            return Some(i);
        }
        i = i + 1;
    }
    assert(rs@.take(i as int) =~= rs@);
    None
}

proof fn lemma_first_err_prefix<T>(rs: Seq<Result<T, AppError>>, i: int)
    requires
        0 <= i < rs.len(),
        first_err(rs.take(i)) is None,
        rs[i] is Err,
    ensures
        first_err(rs) == Some(i),
    decreases rs.len(),
{
    if i < rs.len() - 1 {
        assert(rs.drop_last().take(i) =~= rs.take(i));
        lemma_first_err_prefix(rs.drop_last(), i);
    } else {
        assert(rs.drop_last() =~= rs.take(i));
    }
}

/// Joins the classified publication answers: the first failure (in the
/// order given) fails the request; otherwise the publications are put back
/// in the order of their documents, without the documents that have none.
pub fn juntar_publicacoes(rs: Vec<Result<(usize, Option<Json>), AppError>>) -> (r: Result<
    Vec<Json>,
    AppError,
>)
    ensures
        match first_err(rs@) {
            Some(i) => r == Err::<Vec<Json>, AppError>(rs@[i]->Err_0),
            None => r matches Ok(v) && publicacoes_em_ordem(pub_pairs(rs@), views(v@)),
        },
{
    match first_err_exec(&rs) {
        Some(i) => {
            match &rs[i] {
                Err(e) => {
                    return Err(e.clone());
                },
                Ok(_) => {
                    return Err(AppError::SeiUnavailable);
                },
            }
        },
        None => {},
    }
    let ghost pairs = pub_pairs(rs@);
    proof {
        assert forall|i: int| 0 <= i < rs@.len() implies rs@[i] is Ok by {
            if rs@[i] is Err {
                lemma_no_err(rs@, i);
            }
        }
    }
    let mut keys: Vec<(u64, Vec<char>)> = Vec::new();
    let mut i: usize = 0;
    while i < rs.len()
        invariant
            i <= rs@.len(),
            pairs == pub_pairs(rs@),
            forall|j: int| 0 <= j < rs@.len() ==> rs@[j] is Ok,
            key_models(keys@) == position_keys(pairs).take(i as int),
        decreases rs@.len() - i,
    {
        let k: u64 = match &rs[i] {
            Ok((pos, _)) => *pos as u64,
            Err(_) => 0,
        };
        let ghost before = keys@;
        keys.push((k, Vec::new()));
        assert(key_models(keys@) =~= key_models(before).push((k, Seq::<char>::empty())));
        i = i + 1;
        assert(key_models(keys@) =~= position_keys(pairs).take(i as int));
    }
    assert(key_models(keys@) =~= position_keys(pairs));
    let p = stable_order(&keys);
    let ghost chosen = Seq::new(p@.len(), |k: int| pairs[p@[k] as int].1);
    let mut out: Vec<Json> = Vec::new();
    let mut j: usize = 0;
    while j < p.len()
        invariant
            j <= p@.len(),
            pairs == pub_pairs(rs@),
            is_permutation(p@, pairs.len()),
            chosen == Seq::new(p@.len(), |k: int| pairs[p@[k] as int].1),
            views(out@) == somes(chosen.take(j as int)),
        decreases p@.len() - j,
    {
        assert(chosen.take(j + 1).drop_last() =~= chosen.take(j as int));
        let ghost before = out@;
        match &rs[p[j]] {
            Ok((_, Some(v))) => {
                let c = v.copy();
                out.push(c);
                assert(views(out@) =~= views(before).push(c@));
            },
            _ => {},
        }
        j = j + 1;
    }
    assert(chosen.take(p@.len() as int) =~= chosen);
    assert(is_permutation(p@, pairs.len()));
    Ok(out)
}

proof fn lemma_no_err<T>(rs: Seq<Result<T, AppError>>, i: int)
    requires
        0 <= i < rs.len(),
        rs[i] is Err,
    ensures
        first_err(rs) is Some,
    decreases rs.len(),
{
    if i < rs.len() - 1 {
        assert(rs.drop_last()[i] == rs[i]);
        lemma_no_err(rs.drop_last(), i);
    }
}


proof fn lemma_nums_from(recs: Seq<JsonV>)
    ensures
        docs_from(recs).len() == nums_from(recs).len(),
        forall|k: int|
            0 <= k < nums_from(recs).len() ==> (#[trigger] docs_from(recs)[k] matches JsonV::Obj(m)
                && m.len() > 0 && m[0] == ("documento"@, JsonV::Str(nums_from(recs)[k]))),
        forall|k: int|
            #![trigger nums_from(recs)[k]]
            0 <= k < nums_from(recs).len() ==> exists|j: int|
                #![trigger recs[j]]
                0 <= j < recs.len() && numero_do_registro(recs[j]) == Some(nums_from(recs)[k]),
        forall|a: int, b: int|
            0 <= a < b < nums_from(recs).len() ==> #[trigger] nums_from(recs)[a]
                != #[trigger] nums_from(recs)[b],
        forall|i: int|
            0 <= i < recs.len() && #[trigger] numero_do_registro(recs[i]) is Some
                ==> nums_from(recs).contains(numero_do_registro(recs[i])->0),
    decreases recs.len(),
{
    if recs.len() > 0 {
        let pre = recs.drop_last();
        lemma_nums_from(pre);
        let n = recs.len() - 1;
        let ns = nums_from(recs);
        let nsp = nums_from(pre);
        assert forall|k: int| #![trigger ns[k]] 0 <= k < ns.len() implies exists|j: int|
            #![trigger recs[j]]
            0 <= j < recs.len() && numero_do_registro(recs[j]) == Some(ns[k]) by {
            if k < nsp.len() {
                let j = choose|j: int|
                    #![trigger pre[j]]
                    0 <= j < pre.len() && numero_do_registro(pre[j]) == Some(nsp[k]);
                assert(pre[j] == recs[j]);
            } else {
                assert(ns[k] == numero_do_registro(recs[n])->0);
                assert(recs[n] == recs[n]);
            }
        }
        let ds = docs_from(recs);
        assert forall|k: int| 0 <= k < ns.len() implies (#[trigger] ds[k] matches JsonV::Obj(m)
            && m.len() > 0 && m[0] == ("documento"@, JsonV::Str(ns[k]))) by {
            if k < nsp.len() {
                assert(ds[k] == docs_from(pre)[k]);
            }
        }
        assert forall|a: int, b: int| 0 <= a < b < ns.len() implies #[trigger] ns[a] != #[trigger] ns[b] by {
            if b >= nsp.len() {
                assert(primeira_mencao(recs, n));
                let x = numero_do_registro(recs[n])->0;
                assert(nsp[a] == nsp[a]);
                let j = choose|j: int|
                    #![trigger pre[j]]
                    0 <= j < pre.len() && numero_do_registro(pre[j]) == Some(nsp[a]);
                assert(pre[j] == recs[j]);
                if ns[a] == ns[b] {
                    assert(numero_do_registro(recs[j]) == Some(x));
                    assert(mencionado_antes(recs, n, x));
                }
            }
        }
        assert forall|i: int|
            0 <= i < recs.len() && #[trigger] numero_do_registro(recs[i]) is Some implies ns.contains(
            numero_do_registro(recs[i])->0,
        ) by {
            if i < n {
                assert(pre[i] == recs[i]);
                let k = choose|k: int| 0 <= k < nsp.len() && nsp[k] == numero_do_registro(pre[i])->0;
                assert(ns[k] == nsp[k]);
            } else if primeira_mencao(recs, n) {
                assert(ns[nsp.len() as int] == numero_do_registro(recs[n])->0);
            } else {
                let x = numero_do_registro(recs[n])->0;
                let j = choose|j: int| 0 <= j < n && #[trigger] numero_do_registro(recs[j]) == Some(x);
                assert(pre[j] == recs[j]);
                let k = choose|k: int| 0 <= k < nsp.len() && nsp[k] == numero_do_registro(pre[j])->0;
                assert(ns[k] == nsp[k]);
            }
        }
    }
}


/// The document list never repeats a document: item `k` names the `k`-th
/// document number as its `documento`, no number occurs twice, and every
/// number that a record of the timeline mentions is there.
pub proof fn law_documentos_unicos(recs: Seq<JsonV>)
    ensures
        docs_from(recs).len() == nums_from(recs).len(),
        forall|k: int|
            0 <= k < docs_from(recs).len() ==> member(#[trigger] docs_from(recs)[k], "documento"@)
                == Some(JsonV::Str(nums_from(recs)[k])),
        forall|a: int, b: int|
            0 <= a < b < nums_from(recs).len() ==> #[trigger] nums_from(recs)[a]
                != #[trigger] nums_from(recs)[b],
        forall|i: int|
            0 <= i < recs.len() && #[trigger] numero_do_registro(recs[i]) is Some
                ==> nums_from(recs).contains(numero_do_registro(recs[i])->0),
{
    lemma_nums_from(recs);
    let ds = docs_from(recs);
    assert forall|k: int| 0 <= k < ds.len() implies member(#[trigger] ds[k], "documento"@) == Some(
        JsonV::Str(nums_from(recs)[k]),
    ) by {
        let m = ds[k]->Obj_0;
        lemma_key_index_first(m, "documento"@, 0);
    }
}


proof fn lemma_skip_non_digits(s: Seq<char>) -> (i: int)
    ensures
        0 <= i <= s.len(),
        skip_non_digits(s) == s.skip(i),
        forall|j: int| 0 <= j < i ==> !is_digit(#[trigger] s[j]),
        i < s.len() ==> is_digit(s[i]),
    decreases s.len(),
{
    if s.len() > 0 && !is_digit(s[0]) {
        let t = s.drop_first();
        let i0 = lemma_skip_non_digits(t);
        assert(t.skip(i0) =~= s.skip(i0 + 1));
        assert forall|j: int| 0 <= j < i0 + 1 implies !is_digit(#[trigger] s[j]) by {
            if j > 0 {
                assert(s[j] == t[j - 1]);
            }
        }
        i0 + 1
    } else {
        assert(s.skip(0) =~= s);
        0
    }
}

proof fn lemma_leading_digits(s: Seq<char>) -> (j: int)
    ensures
        0 <= j <= s.len(),
        leading_digits(s) == s.take(j),
        forall|i: int| 0 <= i < j ==> is_digit(#[trigger] s[i]),
        j < s.len() ==> !is_digit(s[j]),
    decreases s.len(),
{
    if s.len() > 0 && is_digit(s[0]) {
        let t = s.drop_first();
        let j0 = lemma_leading_digits(t);
        assert(seq![s[0]] + t.take(j0) =~= s.take(j0 + 1));
        assert forall|i: int| 0 <= i < j0 + 1 implies is_digit(#[trigger] s[i]) by {
            if i > 0 {
                assert(s[i] == t[i - 1]);
            }
        }
        j0 + 1
    } else {
        assert(s.take(0) =~= Seq::<char>::empty());
        0
    }
}

proof fn lemma_char_index_from(s: Seq<char>, b: int, k: int)
    ensures
        char_index_from(s, b, k) matches Some(m) ==> k <= m <= s.len() && utf8_len(s.take(m)) == b,
    decreases s.len() + 1 - k,
{
    if !(k < 0 || k > s.len()) && utf8_len(s.take(k)) != b {
        lemma_char_index_from(s, b, k + 1);
    }
}

/// What a document number is: a run of at least six ASCII digits of the
/// description, the first run of digits after the point of the description
/// whose bytes match those of its lowercase text up to and including the
/// first `documento`; the run ends at the first character that is not a
/// digit. A lowercase text without `documento` gives no number.
pub proof fn law_numero_documento(d: Seq<char>, lower: Seq<char>)
    ensures
        first_occurrence(lower, "documento"@) is None ==> numero_em(d, lower) is None,
        numero_em(d, lower) matches Some(r) ==> {
            &&& r.len() >= 6
            &&& forall|i: int| 0 <= i < r.len() ==> is_digit(#[trigger] r[i])
            &&& first_occurrence(lower, "documento"@) matches Some(k) && exists|m: int, p: int|
                #![trigger d.take(m), d.subrange(p, p + r.len())]
                {
                    &&& 0 <= m <= p
                    &&& p + r.len() <= d.len()
                    &&& utf8_len(d.take(m)) == utf8_len(lower.take(k)) + 9
                    &&& d.subrange(p, p + r.len()) == r
                    &&& forall|i: int| m <= i < p ==> !is_digit(#[trigger] d[i])
                    &&& p + r.len() < d.len() ==> !is_digit(d[p + r.len()])
                }
        },
{
    if let Some(r) = numero_em(d, lower) {
        let k = first_occurrence(lower, "documento"@)->0;
        let b = doc_offset(lower)->0;
        let m = char_index_from(d, b, 0)->0;
        lemma_char_index_from(d, b, 0);
        let t = d.skip(m);
        let i = lemma_skip_non_digits(t);
        let u = t.skip(i);
        let j = lemma_leading_digits(u);
        let p = m + i;
        assert(u =~= d.skip(p));
        assert(r =~= d.subrange(p, p + j));
        assert forall|q: int| m <= q < p implies !is_digit(#[trigger] d[q]) by {
            assert(d[q] == t[q - m]);
        }
        assert forall|q: int| 0 <= q < r.len() implies is_digit(#[trigger] r[q]) by {
            assert(r[q] == u[q]);
        }
        if p + j < d.len() {
            assert(d[p + j] == u[j]);
        }
        assert(d.take(m) == d.take(m));
        assert(d.subrange(p, p + r.len()) == r);
    }
}


proof fn lemma_docs_first_record(recs: Seq<JsonV>)
    ensures
        docs_from(recs).len() == nums_from(recs).len(),
        forall|k: int|
            #![trigger docs_from(recs)[k]]
            0 <= k < docs_from(recs).len() ==> exists|j: int|
                #![trigger recs[j]]
                0 <= j < recs.len() && primeira_mencao(recs, j) && numero_do_registro(recs[j]) == Some(
                    nums_from(recs)[k],
                ) && docs_from(recs)[k] == doc_item(nums_from(recs)[k], recs[j]) && (forall|i: int|
                    0 <= i < j ==> numero_do_registro(#[trigger] recs[i]) != Some(nums_from(recs)[k]))
                    && descreve_registro(docs_from(recs)[k], nums_from(recs)[k], recs[j]),
    decreases recs.len(),
{
    lemma_nums_from(recs);
    if recs.len() > 0 {
        let pre = recs.drop_last();
        lemma_docs_first_record(pre);
        let n = recs.len() - 1;
        let ds = docs_from(recs);
        let ns = nums_from(recs);
        assert forall|k: int| #![trigger ds[k]] 0 <= k < ds.len() implies exists|j: int|
            #![trigger recs[j]]
            0 <= j < recs.len() && primeira_mencao(recs, j) && numero_do_registro(recs[j]) == Some(ns[k])
                && ds[k] == doc_item(ns[k], recs[j]) && (forall|i: int|
                    0 <= i < j ==> numero_do_registro(#[trigger] recs[i]) != Some(ns[k]))
                && descreve_registro(ds[k], ns[k], recs[j]) by {
            if k < docs_from(pre).len() {
                assert(ds[k] == docs_from(pre)[k]);
                assert(ns[k] == nums_from(pre)[k]);
                let j = choose|j: int|
                    #![trigger pre[j]]
                    0 <= j < pre.len() && primeira_mencao(pre, j) && numero_do_registro(pre[j]) == Some(
                        nums_from(pre)[k],
                    ) && docs_from(pre)[k] == doc_item(nums_from(pre)[k], pre[j]) && (forall|i: int|
                        0 <= i < j ==> numero_do_registro(#[trigger] pre[i]) != Some(nums_from(pre)[k]))
                        && descreve_registro(docs_from(pre)[k], nums_from(pre)[k], pre[j]);
                assert(pre[j] == recs[j]);
                assert forall|i: int| 0 <= i < j implies #[trigger] recs[i] == pre[i] by {}
                assert(mencionado_antes(recs, j, ns[k]) == mencionado_antes(pre, j, ns[k]));
                assert(primeira_mencao(recs, j));
                lemma_primeira_mencao(recs, j, ns[k]);
                lemma_doc_item_descreve(ns[k], recs[j]);
            } else {
                assert(recs[n] == recs[n]);
                assert(primeira_mencao(recs, n));
                lemma_primeira_mencao(recs, n, ns[k]);
                lemma_doc_item_descreve(ns[k], recs[n]);
            }
        }
    }
}

/// Member `campo` of a record, or `null` when it has none.
pub open spec fn campo_ou_nulo(r: JsonV, campo: Seq<char>) -> JsonV {
    match member(r, campo) {
        Some(x) => x,
        None => JsonV::Null,
    }
}

/// Whether `d` describes document `n` by the record `r`: `documento` is the
/// number, `DataHora`, `Unidade` and `Usuario` are the record's members of
/// the same name (`null` when it has none), and `Andamento` is its
/// `Descricao`.
pub open spec fn descreve_registro(d: JsonV, n: Seq<char>, r: JsonV) -> bool {
    &&& member(d, "documento"@) == Some(JsonV::Str(n))
    &&& member(d, "DataHora"@) == Some(campo_ou_nulo(r, "DataHora"@))
    &&& member(d, "Unidade"@) == Some(campo_ou_nulo(r, "Unidade"@))
    &&& member(d, "Usuario"@) == Some(campo_ou_nulo(r, "Usuario"@))
    &&& member(d, "Andamento"@) == Some(
        JsonV::Str(
            match member(r, "Descricao"@) {
                Some(JsonV::Str(t)) => t,
                _ => Seq::empty(),
            },
        ),
    )
}

proof fn lemma_doc_item_descreve(n: Seq<char>, r: JsonV)
    ensures
        descreve_registro(doc_item(n, r), n, r),
{
    reveal_strlit("documento");
    reveal_strlit("DataHora");
    reveal_strlit("Unidade");
    reveal_strlit("Usuario");
    reveal_strlit("Andamento");
    assert("documento"@.len() == 9 && "DataHora"@.len() == 8 && "Unidade"@.len() == 7);
    assert("Usuario"@.len() == 7 && "Andamento"@.len() == 9);
    assert("Unidade"@[1] == 'n' && "Usuario"@[1] == 's');
    assert("documento"@[0] == 'd' && "Andamento"@[0] == 'A');
    let m = doc_item(n, r)->Obj_0;
    lemma_key_index_first(m, "documento"@, 0);
    lemma_key_index_first(m, "DataHora"@, 1);
    lemma_key_index_first(m, "Unidade"@, 2);
    lemma_key_index_first(m, "Usuario"@, 3);
    lemma_key_index_first(m, "Andamento"@, 4);
}

proof fn lemma_primeira_mencao(recs: Seq<JsonV>, j: int, n: Seq<char>)
    requires
        0 <= j < recs.len(),
        primeira_mencao(recs, j),
        numero_do_registro(recs[j]) == Some(n),
    ensures
        forall|i: int| 0 <= i < j ==> numero_do_registro(#[trigger] recs[i]) != Some(n),
{
    assert forall|i: int| 0 <= i < j implies numero_do_registro(#[trigger] recs[i]) != Some(n) by {
        if numero_do_registro(recs[i]) == Some(n) {
            assert(mencionado_antes(recs, j, n));
        }
    }
}

/// Each item of the document list describes the record that first mentions
/// its document, taking its members from that record.
pub proof fn law_documento_do_primeiro_registro(recs: Seq<JsonV>)
    ensures
        forall|k: int|
            #![trigger docs_from(recs)[k]]
            0 <= k < docs_from(recs).len() ==> exists|j: int|
                #![trigger recs[j]]
                0 <= j < recs.len() && primeira_mencao(recs, j) && numero_do_registro(recs[j]) == Some(
                    nums_from(recs)[k],
                ) && docs_from(recs)[k] == doc_item(nums_from(recs)[k], recs[j]) && (forall|i: int|
                    0 <= i < j ==> numero_do_registro(#[trigger] recs[i]) != Some(nums_from(recs)[k]))
                    && descreve_registro(docs_from(recs)[k], nums_from(recs)[k], recs[j]),
{
    lemma_docs_first_record(recs);
}

} // verus!
