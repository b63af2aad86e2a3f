//! The timeline (andamentos) of a process: how a query becomes a plan of
//! `listarAndamentos` calls, and how the answers of those calls are merged.
//!
//! `listarAndamentos` needs at least one filter. Without any, the whole range
//! of task types (1 to 200) is asked for; that list is cut into batches so
//! that no single call outlasts the SEI's own gateway window.

use vstd::prelude::*;
use crate::envelope::Param;
use crate::error::AppError;
use crate::sei::{flag_of, opt_text, flag_sn};
use crate::text::{comma_items, comma_items_of, texts, trimmed, trim_str, str_eq, decimal, decimal_string};
use crate::json::{Json, JsonV, views, member_views, lemma_obj_view, lemma_arr_view};
use crate::error::mensagem_of;
use crate::timeline::{
    dedup_of, sorted_by_datahora, dedup_por_id, ordenar_por_datahora, id_of, law_dedup_ids_unique,
    permuted, sort_keys,
};
use crate::order::{is_permutation, stably_sorted, lemma_permutation_covers};
use crate::documentos::result_view;

verus! {

/// The query of `/andamentos` (every filter is a comma-separated list).
#[derive(Debug)]
pub struct AndamentosQuery {
    pub protocolo: Option<String>,
    pub tarefas: Option<String>,
    pub andamentos: Option<String>,
    pub tarefas_modulos: Option<String>,
    pub sin_retornar_atributos: Option<String>,
    /// Sort by `DataHora`, oldest first (default: yes).
    pub ordenar: Option<String>,
}

/// The query of the endpoints derived from the timeline.
#[derive(Debug)]
pub struct DocsProcessoQuery {
    pub protocolo: Option<String>,
}

/// The items of an optional comma-separated list.
pub open spec fn list_of(s: Option<Seq<char>>) -> Seq<Seq<char>> {
    match s {
        Some(v) => comma_items_of(v),
        None => Seq::empty(),
    }
}

/// The items of an optional comma-separated list: trimmed, without the
/// empty ones.
pub fn comma_list(s: &Option<String>) -> (r: Vec<String>)
    ensures
        texts(r@) == list_of(opt_text(*s)),
{
    match s {
        Some(v) => comma_items(v.as_str()),
        None => {
            let r: Vec<String> = Vec::new();
            assert(texts(r@) =~= Seq::<Seq<char>>::empty());
            r
        },
    }
}

/// What the `ordenar` parameter means: absent or blank is yes; `true`, `1`,
/// `S`, `s` are yes; `false`, `0`, `N`, `n` are no; anything else is refused
/// with this message.
pub open spec fn ordenar_of(s: Option<Seq<char>>) -> Result<bool, Seq<char>> {
    match s {
        None => Ok(true),
        Some(v) => {
            let t = trimmed(v);
            if t.len() == 0 || t == "true"@ || t == "1"@ || t == "S"@ || t == "s"@ {
                Ok(true)
            } else if t == "false"@ || t == "0"@ || t == "N"@ || t == "n"@ {
                Ok(false)
            } else {
                Err("valor inválido para 'ordenar': '"@ + t + "' (use true ou false)"@)
            }
        },
    }
}

/// Reads the `ordenar` parameter.
pub fn parse_ordenar(s: &Option<String>) -> (r: Result<bool, AppError>)
    ensures
        match ordenar_of(opt_text(*s)) {
            Ok(b) => r == Ok::<bool, AppError>(b),
            Err(m) => r matches Err(AppError::BadRequest(x)) && x@ == m,
        },
{
    match s {
        None => Ok(true),
        Some(v) => {
            let t = trim_str(v.as_str());
            let tc = t.as_str();
            if tc.is_empty() || str_eq(tc, "true") || str_eq(tc, "1") || str_eq(tc, "S") || str_eq(
                tc,
                "s",
            ) {
                Ok(true)
            } else if str_eq(tc, "false") || str_eq(tc, "0") || str_eq(tc, "N") || str_eq(tc, "n") {
                Ok(false)
            } else {
                let mut m = String::from_str("valor inválido para 'ordenar': '");
                m.append(tc);
                m.append("' (use true ou false)");
                Err(AppError::BadRequest(m))
            }
        },
    }
}

/// The task types asked for when no filter is given: 1 to 200.
pub open spec fn todas_tarefas() -> Seq<Seq<char>> {
    Seq::new(200, |i: int| decimal((i + 1) as nat))
}

fn default_tarefas() -> (r: Vec<String>)
    ensures
        texts(r@) == todas_tarefas(),
{
    let mut r: Vec<String> = Vec::new();
    let mut n: u64 = 1;
    while n <= 200
        invariant
            1 <= n <= 201,
            r@.len() == n - 1,
            forall|k: int| 0 <= k < n - 1 ==> (#[trigger] r@[k])@ == decimal((k + 1) as nat),
        decreases 201 - n,
    {
        r.push(decimal_string(n));
        n = n + 1;
    }
    assert(texts(r@) =~= todas_tarefas());
    r
}

/// `s` cut into consecutive pieces of `n` items (the last one may be
/// shorter), as `slice::chunks` does.
pub open spec fn chunks_of<T>(s: Seq<T>, n: nat) -> Seq<Seq<T>>
    decreases s.len(),
{
    if s.len() == 0 || n == 0 {
        Seq::empty()
    } else if s.len() <= n {
        seq![s]
    } else {
        seq![s.take(n as int)] + chunks_of(s.skip(n as int), n)
    }
}

/// Cutting a list into batches loses and repeats nothing: the batches put
/// back together are the list, there are `ceil(len / n)` of them, and each
/// holds between one and `n` items.
pub proof fn law_chunks_partition<T>(s: Seq<T>, n: nat)
    requires
        n > 0,
    ensures
        chunks_of(s, n).flatten() == s,
        chunks_of(s, n).len() == (s.len() + n - 1) / (n as int),
        forall|k: int|
            0 <= k < chunks_of(s, n).len() ==> 0 < (#[trigger] chunks_of(s, n)[k]).len() <= n,
    decreases s.len(),
{
    let l = s.len() as int;
    let m = n as int;
    if s.len() == 0 {
        assert((l + m - 1) / m == 0) by (nonlinear_arith)
            requires
                l == 0,
                m > 0,
        ;
    } else if s.len() <= n {
        assert((l + m - 1) / m == 1) by (nonlinear_arith)
            requires
                1 <= l <= m,
        ;
        assert(seq![s].drop_first() =~= Seq::<Seq<T>>::empty());
        assert(Seq::<Seq<T>>::empty().flatten() == Seq::<T>::empty());
        assert(s + Seq::<T>::empty() =~= s);
        assert(seq![s].flatten() == seq![s].first() + seq![s].drop_first().flatten());
    } else {
        let rest = s.skip(n as int);
        law_chunks_partition(rest, n);
        let c = chunks_of(s, n);
        assert(c.first() == s.take(n as int));
        assert(c.drop_first() =~= chunks_of(rest, n));
        assert(s.take(n as int) + rest =~= s);
        assert(c.flatten() == c.first() + c.drop_first().flatten());
        let a = (l - m) + m - 1;
        assert((a + m) / m == a / m + 1) by (nonlinear_arith)
            requires
                m > 0,
                a >= 0,
        ;
        assert forall|k: int| 0 <= k < c.len() implies 0 < (#[trigger] c[k]).len() <= n by {
            if k > 0 {
                assert(c[k] == chunks_of(rest, n)[k - 1]);
            }
        }
    }
}

/// The items of a filter value (a scalar counts as one item).
pub open spec fn param_items(p: Param) -> Seq<Seq<char>> {
    match p {
        Param::Array(v) => texts(v@),
        Param::Scalar(s) => seq![s@],
    }
}

/// A filter: the name of each entry and its items.
pub open spec fn filtro_model(f: Seq<(&str, Param)>) -> Seq<(Seq<char>, Seq<Seq<char>>)> {
    Seq::new(f.len(), |i: int| (f[i].0@, param_items(f[i].1)))
}

/// Whether every entry of a filter is an array.
pub open spec fn all_arrays(f: Seq<(&str, Param)>) -> bool {
    forall|i: int| 0 <= i < f.len() ==> (#[trigger] f[i]).1 is Array
}

/// The filters of a plan.
pub open spec fn lotes_model(l: Seq<Vec<(&'static str, Param)>>) -> Seq<
    Seq<(Seq<char>, Seq<Seq<char>>)>,
> {
    Seq::new(l.len(), |i: int| filtro_model(l[i]@))
}

/// Whether the query asks only for task types (no `andamentos` and no
/// `tarefas_modulos`).
pub open spec fn so_tarefas(q: AndamentosQuery) -> bool {
    list_of(opt_text(q.andamentos)).len() == 0 && list_of(opt_text(q.tarefas_modulos)).len() == 0
}

/// The task types of a plan: the ones asked for, or all of them when the
/// query has no filter at all.
pub open spec fn plan_tarefas(q: AndamentosQuery) -> Seq<Seq<char>> {
    let t = list_of(opt_text(q.tarefas));
    if t.len() == 0 && so_tarefas(q) {
        todas_tarefas()
    } else {
        t
    }
}

/// One filter entry, present only when it has items.
pub open spec fn entry_if_any(name: Seq<char>, items: Seq<Seq<char>>) -> Seq<
    (Seq<char>, Seq<Seq<char>>),
> {
    if items.len() == 0 {
        Seq::empty()
    } else {
        seq![(name, items)]
    }
}

/// The single filter of a query with advanced filters (or a short task list).
pub open spec fn filtro_unico(q: AndamentosQuery) -> Seq<(Seq<char>, Seq<Seq<char>>)> {
    entry_if_any("Andamentos"@, list_of(opt_text(q.andamentos))) + entry_if_any(
        "Tarefas"@,
        plan_tarefas(q),
    ) + entry_if_any("TarefasModulos"@, list_of(opt_text(q.tarefas_modulos)))
}

/// One batch of task types as a filter.
pub open spec fn lote_de_tarefas(c: Seq<Seq<char>>) -> Seq<(Seq<char>, Seq<Seq<char>>)> {
    seq![("Tarefas"@, c)]
}

/// The filters of a plan: a task-only query with more task types than fit in
/// one batch is cut into batches of `lote`; any other query is one call.
pub open spec fn plan_lotes(q: AndamentosQuery, lote: nat) -> Seq<
    Seq<(Seq<char>, Seq<Seq<char>>)>,
> {
    let t = plan_tarefas(q);
    if so_tarefas(q) && t.len() > lote {
        chunks_of(t, lote).map_values(|c: Seq<Seq<char>>| lote_de_tarefas(c))
    } else {
        seq![filtro_unico(q)]
    }
}

/// A task-only plan with more task types than fit in one batch makes
/// `ceil(len / lote)` calls, each with one `Tarefas` filter, and the task
/// types of all its calls, in order, are those of the query.
pub proof fn law_plan_batches(q: AndamentosQuery, lote: nat)
    requires
        lote > 0,
        so_tarefas(q),
        plan_tarefas(q).len() > lote,
    ensures
        plan_lotes(q, lote).len() == (plan_tarefas(q).len() + lote - 1) / (lote as int),
        forall|k: int|
            0 <= k < plan_lotes(q, lote).len() ==> (#[trigger] plan_lotes(q, lote)[k]).len() == 1
                && plan_lotes(q, lote)[k][0].0 == "Tarefas"@,
        Seq::new(plan_lotes(q, lote).len(), |k: int| plan_lotes(q, lote)[k][0].1).flatten()
            == plan_tarefas(q),
{
    let t = plan_tarefas(q);
    law_chunks_partition(t, lote);
    let c = chunks_of(t, lote);
    assert(Seq::new(plan_lotes(q, lote).len(), |k: int| plan_lotes(q, lote)[k][0].1) =~= c);
}

/// The process of a query, when given and not empty.
pub open spec fn plan_protocolo(q: AndamentosQuery) -> Option<Seq<char>> {
    match opt_text(q.protocolo) {
        Some(p) => if p.len() > 0 {
            Some(p)
        } else {
            None
        },
        None => None,
    }
}

/// Why a query is refused, checked in this order: no process, an invalid
/// `sin_retornar_atributos`, an invalid `ordenar`.
pub open spec fn plan_error(q: AndamentosQuery) -> Option<Seq<char>> {
    if plan_protocolo(q) is None {
        Some("parâmetro obrigatório ausente: protocolo"@)
    } else {
        match flag_of(opt_text(q.sin_retornar_atributos), false) {
            Err(m) => Some(m),
            Ok(_) => match ordenar_of(opt_text(q.ordenar)) {
                Err(m) => Some(m),
                Ok(_) => None,
            },
        }
    }
}

/// The plan of a timeline query: one `listarAndamentos` call per batch.
#[derive(Debug)]
pub struct Plano {
    pub protocolo: String,
    /// `SinRetornarAtributos`, already normalized.
    pub sra: String,
    pub ordenar: bool,
    /// The batch size used (reported in the summary).
    pub tarefas_por_lote: usize,
    /// The filters of each call.
    pub lotes: Vec<Vec<(&'static str, Param)>>,
}

fn slice_copy(v: &Vec<String>, from: usize, to: usize) -> (r: Vec<String>)
    requires
        from <= to <= v.len(),
    ensures
        texts(r@) == texts(v@).subrange(from as int, to as int),
{
    let mut r: Vec<String> = Vec::new();
    let mut i: usize = from;
    while i < to
        invariant
            from <= i <= to <= v.len(),
            texts(r@) == texts(v@).subrange(from as int, i as int),
        decreases to - i,
    {
        let c = v[i].clone();
        assert(c@ == v@[i as int]@);
        let ghost before = r@;
        r.push(c);
        i = i + 1;
        assert(texts(r@) =~= texts(before).push(c@));
        assert(texts(r@) =~= texts(v@).subrange(from as int, i as int));
    }
    r
}

/// Cuts the task list into batches of `lote`, one filter each.
fn fatiar(tarefas: &Vec<String>, lote: usize) -> (r: Vec<Vec<(&'static str, Param)>>)
    requires
        lote > 0,
    ensures
        lotes_model(r@) == chunks_of(texts(tarefas@), lote as nat).map_values(
            |c: Seq<Seq<char>>| lote_de_tarefas(c),
        ),
        forall|k: int| 0 <= k < r@.len() ==> all_arrays(#[trigger] r@[k]@),
{
    let ghost ts = texts(tarefas@);
    let ghost wrap = |c: Seq<Seq<char>>| lote_de_tarefas(c);
    let mut r: Vec<Vec<(&'static str, Param)>> = Vec::new();
    let mut i: usize = 0;
    proof {
        reveal_strlit("Tarefas");
        assert(ts.skip(0) =~= ts);
    }
    while i < tarefas.len()
        invariant
            i <= tarefas.len(),
            ts == texts(tarefas@),
            lote > 0,
            lotes_model(r@) + chunks_of(ts.skip(i as int), lote as nat).map_values(wrap)
                == chunks_of(ts, lote as nat).map_values(wrap),
            forall|k: int| 0 <= k < r@.len() ==> all_arrays(#[trigger] r@[k]@),
            wrap == (|c: Seq<Seq<char>>| lote_de_tarefas(c)),
        decreases tarefas.len() - i,
    {
        let end: usize = if tarefas.len() - i <= lote {
            tarefas.len()
        } else {
            i + lote
        };
        let chunk = slice_copy(tarefas, i, end);
        let ghost rest = ts.skip(i as int);
        let ghost before = r@;
        let f: Vec<(&'static str, Param)> = vec![("Tarefas", Param::Array(chunk))];
        proof {
            assert(filtro_model(f@) =~= lote_de_tarefas(ts.subrange(i as int, end as int)));
            if rest.len() <= lote {
                assert(rest =~= ts.subrange(i as int, end as int));
                assert(chunks_of(rest, lote as nat) == seq![rest]);
                assert(ts.skip(end as int) =~= Seq::<Seq<char>>::empty());
            } else {
                assert(rest.take(lote as int) =~= ts.subrange(i as int, end as int));
                assert(rest.skip(lote as int) =~= ts.skip(end as int));
            }
        }
        r.push(f);
        proof {
            assert(lotes_model(r@) =~= lotes_model(before).push(
                lote_de_tarefas(ts.subrange(i as int, end as int)),
            ));
            assert(chunks_of(rest, lote as nat).map_values(wrap) =~= seq![
                lote_de_tarefas(ts.subrange(i as int, end as int)),
            ] + chunks_of(ts.skip(end as int), lote as nat).map_values(wrap));
            assert(lotes_model(r@) + chunks_of(ts.skip(end as int), lote as nat).map_values(wrap)
                =~= lotes_model(before) + chunks_of(rest, lote as nat).map_values(wrap));
        }
        i = end;
    }
    proof {
        assert(ts.skip(i as int) =~= Seq::<Seq<char>>::empty());
        assert(lotes_model(r@) =~= lotes_model(r@) + chunks_of(ts.skip(i as int), lote as nat).map_values(wrap));
    }
    r
}

/// Resolves a query into a [`Plano`], refusing it (before any call to the
/// SEI) when it is invalid. `lote` is the batch size of the configuration.
pub fn montar_plano(q: &AndamentosQuery, lote: usize) -> (r: Result<Plano, AppError>)
    requires
        !(plan_error(*q) is None && so_tarefas(*q) && lote == 0),
    ensures
        match plan_error(*q) {
            Some(m) => r matches Err(AppError::BadRequest(x)) && x@ == m,
            None => r matches Ok(p) && {
                &&& p.protocolo@ == plan_protocolo(*q)->0
                &&& p.sra@ == flag_of(opt_text(q.sin_retornar_atributos), false)->Ok_0
                &&& p.ordenar == ordenar_of(opt_text(q.ordenar))->Ok_0
                &&& p.tarefas_por_lote == lote
                &&& lotes_model(p.lotes@) == plan_lotes(*q, lote as nat)
                &&& forall|k: int| 0 <= k < p.lotes@.len() ==> all_arrays(#[trigger] p.lotes@[k]@)
            },
        },
{
    let protocolo = match &q.protocolo {
        Some(v) => if !v.as_str().is_empty() {
            v.clone()
        } else {
            return Err(
                AppError::BadRequest(String::from_str("parâmetro obrigatório ausente: protocolo")),
            );
        },
        None => {
            return Err(
                AppError::BadRequest(String::from_str("parâmetro obrigatório ausente: protocolo")),
            );
        },
    };
    let mut tarefas = comma_list(&q.tarefas);
    let andamentos = comma_list(&q.andamentos);
    let tarefas_modulos = comma_list(&q.tarefas_modulos);
    let so = andamentos.len() == 0 && tarefas_modulos.len() == 0;
    assert(so == so_tarefas(*q));
    if tarefas.len() == 0 && so {
        tarefas = default_tarefas();
    }
    assert(texts(tarefas@) == plan_tarefas(*q));
    let sra = match flag_sn(&q.sin_retornar_atributos, false) {
        Ok(v) => v,
        Err(e) => {
            return Err(e);
        },
    };
    let ordenar = match parse_ordenar(&q.ordenar) {
        Ok(b) => b,
        Err(e) => {
            return Err(e);
        },
    };
    let lotes: Vec<Vec<(&'static str, Param)>> = if so && tarefas.len() > lote {
        fatiar(&tarefas, lote)
    } else {
        proof {
            reveal_strlit("Andamentos");
            reveal_strlit("Tarefas");
            reveal_strlit("TarefasModulos");
        }
        let ghost a = texts(andamentos@);
        let ghost t = texts(tarefas@);
        let ghost m = texts(tarefas_modulos@);
        let mut filtro: Vec<(&'static str, Param)> = Vec::new();
        if andamentos.len() > 0 {
            filtro.push(("Andamentos", Param::Array(andamentos)));
        }
        assert(filtro_model(filtro@) =~= entry_if_any("Andamentos"@, a));
        let ghost f1 = filtro@;
        if tarefas.len() > 0 {
            filtro.push(("Tarefas", Param::Array(tarefas)));
        }
        assert(filtro_model(filtro@) =~= filtro_model(f1) + entry_if_any("Tarefas"@, t));
        let ghost f2 = filtro@;
        if tarefas_modulos.len() > 0 {
            filtro.push(("TarefasModulos", Param::Array(tarefas_modulos)));
        }
        assert(filtro_model(filtro@) =~= filtro_model(f2) + entry_if_any("TarefasModulos"@, m));
        assert(filtro_model(filtro@) =~= filtro_unico(*q));
        let r: Vec<Vec<(&'static str, Param)>> = vec![filtro];
        assert(lotes_model(r@) =~= seq![filtro_unico(*q)]);
        r
    };
    Ok(Plano { protocolo, sra, ordenar, tarefas_por_lote: lote, lotes })
}


/// The parameters of one batch call: the process, the attributes flag, then
/// the batch's filters.
pub fn lote_extra(protocolo: String, sra: String, filtro: Vec<(&'static str, Param)>) -> (r: Vec<
    (&'static str, Param),
>)
    ensures
        r@ == seq![
            ("ProtocoloProcedimento", Param::Scalar(protocolo)),
            ("SinRetornarAtributos", Param::Scalar(sra)),
        ] + filtro@,
{
    let ghost p = protocolo;
    let ghost a = sra;
    let ghost f = filtro@;
    let mut r: Vec<(&'static str, Param)> = vec![
        ("ProtocoloProcedimento", Param::Scalar(protocolo)),
        ("SinRetornarAtributos", Param::Scalar(sra)),
    ];
    let mut filtro = filtro;
    r.append(&mut filtro);
    assert(r@ =~= seq![
        ("ProtocoloProcedimento", Param::Scalar(p)),
        ("SinRetornarAtributos", Param::Scalar(a)),
    ] + f);
    r
}

/// The records a batch answered with: an array is its records, `null` is
/// none, and any other value is one record.
pub open spec fn lista_of(v: JsonV) -> Seq<JsonV> {
    match v {
        JsonV::Arr(a) => a,
        JsonV::Null => Seq::empty(),
        _ => seq![v],
    }
}

/// The records of a batch's answer.
pub fn lote_para_lista(v: Json) -> (r: Vec<Json>)
    ensures
        views(r@) == lista_of(v@),
{
    match v {
        Json::Arr(a) => {
            proof {
                lemma_arr_view(a);
            }
            a
        },
        Json::Null => {
            let r: Vec<Json> = Vec::new();
            assert(views(r@) =~= Seq::<JsonV>::empty());
            r
        },
        outro => {
            let ghost ov = outro@;
            let r: Vec<Json> = vec![outro];
            assert(views(r@) =~= seq![ov]);
            r
        },
    }
}

/// The summary of a timeline query.
pub open spec fn resumo_of(lotes: int, lotes_com_dados: int, registros: int, parciais: bool, tarefas_por_lote: int) -> JsonV {
    JsonV::Obj(
        seq![
            ("lotes"@, JsonV::Num(lotes)),
            ("lotes_com_dados"@, JsonV::Num(lotes_com_dados)),
            ("registros"@, JsonV::Num(registros)),
            ("parciais"@, JsonV::Bool(parciais)),
            ("tarefas_por_lote"@, JsonV::Num(tarefas_por_lote)),
        ],
    )
}

/// Builds the summary of a timeline query: how many batches, how many had
/// records, how many records, whether some batch failed, and the batch size.
pub fn montar_resumo(
    lotes: usize,
    lotes_com_dados: usize,
    registros: usize,
    parciais: bool,
    tarefas_por_lote: usize,
) -> (r: Json)
    ensures
        r@ == resumo_of(
            lotes as int,
            lotes_com_dados as int,
            registros as int,
            parciais,
            tarefas_por_lote as int,
        ),
{
    let fields: Vec<(String, Json)> = vec![
        (String::from_str("lotes"), Json::Num(lotes as u64)),
        (String::from_str("lotes_com_dados"), Json::Num(lotes_com_dados as u64)),
        (String::from_str("registros"), Json::Num(registros as u64)),
        (String::from_str("parciais"), Json::Bool(parciais)),
        (String::from_str("tarefas_por_lote"), Json::Num(tarefas_por_lote as u64)),
    ];
    proof {
        lemma_obj_view(fields);
        assert(member_views(fields@) =~= resumo_of(
            lotes as int,
            lotes_com_dados as int,
            registros as int,
            parciais,
            tarefas_por_lote as int,
        )->Obj_0);
    }
    Json::Obj(fields)
}

/// The models of the batch results.
pub open spec fn results_view(rs: Seq<Result<Json, AppError>>) -> Seq<Result<JsonV, AppError>> {
    Seq::new(rs.len(), |i: int| result_view(rs[i]))
}

/// All the records of the batches that answered, batch after batch.
pub open spec fn registros_of(rv: Seq<Result<JsonV, AppError>>) -> Seq<JsonV>
    decreases rv.len(),
{
    if rv.len() == 0 {
        Seq::empty()
    } else {
        registros_of(rv.drop_last()) + match rv.last() {
            Ok(v) => lista_of(v),
            Err(_) => Seq::empty(),
        }
    }
}

/// How many batches answered with at least one record.
pub open spec fn com_dados(rv: Seq<Result<JsonV, AppError>>) -> nat
    decreases rv.len(),
{
    if rv.len() == 0 {
        0
    } else {
        com_dados(rv.drop_last()) + match rv.last() {
            Ok(v) => if lista_of(v).len() > 0 {
                1nat
            } else {
                0nat
            },
            Err(_) => 0nat,
        }
    }
}

/// How many batches failed.
pub open spec fn falhas(rv: Seq<Result<JsonV, AppError>>) -> nat
    decreases rv.len(),
{
    if rv.len() == 0 {
        0
    } else {
        falhas(rv.drop_last()) + if rv.last() is Err {
            1nat
        } else {
            0nat
        }
    }
}

/// The position of the first batch answered with a SOAP Fault, if any.
pub open spec fn first_fault(rv: Seq<Result<JsonV, AppError>>) -> Option<int>
    decreases rv.len(),
{
    if rv.len() == 0 {
        None
    } else {
        match first_fault(rv.drop_last()) {
            Some(i) => Some(i),
            None => if rv.last() matches Err(AppError::SoapFault { .. }) {
                Some(rv.len() - 1)
            } else {
                None
            },
        }
    }
}

/// The error of the last batch that failed, if any.
pub open spec fn ultimo_erro(rv: Seq<Result<JsonV, AppError>>) -> Option<AppError>
    decreases rv.len(),
{
    if rv.len() == 0 {
        None
    } else {
        match rv.last() {
            Err(e) => Some(e),
            Ok(_) => ultimo_erro(rv.drop_last()),
        }
    }
}

/// Whether `out` is the final timeline of the records `regs`: without
/// repeated ids, and sorted by `DataHora` when asked.
pub open spec fn timeline_final(regs: Seq<JsonV>, ordenar: bool, out: Seq<JsonV>) -> bool {
    if ordenar {
        sorted_by_datahora(dedup_of(regs), out)
    } else {
        out == dedup_of(regs)
    }
}

proof fn lemma_counts_bounded(rv: Seq<Result<JsonV, AppError>>)
    ensures
        com_dados(rv) <= rv.len(),
        falhas(rv) <= rv.len(),
        com_dados(rv) + falhas(rv) <= rv.len(),
    decreases rv.len(),
{
    if rv.len() > 0 {
        lemma_counts_bounded(rv.drop_last());
    }
}

/// Merges the answers of the batches of a timeline query (in the order they
/// finished). A SOAP Fault (a process that does not exist, access denied)
/// fails the whole request. A failure of the SEI in some batches only makes
/// the result partial; when every batch failed, the last failure is the
/// answer, not an empty timeline. The records are merged, deduplicated by
/// `IdAndamento` and, when asked, sorted by `DataHora`.
pub fn agregar_lotes(resultados: &Vec<Result<Json, AppError>>, ordenar: bool, tarefas_por_lote: usize) -> (r:
    Result<(Json, Json), AppError>)
    ensures
        ({
            let rv = results_view(resultados@);
            match first_fault(rv) {
                Some(i) => r == Err::<(Json, Json), AppError>(rv[i]->Err_0),
                None => if falhas(rv) == rv.len() {
                    r == Err::<(Json, Json), AppError>(
                        match ultimo_erro(rv) {
                            Some(e) => e,
                            None => AppError::SeiUnavailable,
                        },
                    )
                } else {
                    r matches Ok((d, s)) && d@ matches JsonV::Arr(o) && timeline_final(
                        registros_of(rv),
                        ordenar,
                        o,
                    ) && s@ == resumo_of(
                        rv.len() as int,
                        com_dados(rv) as int,
                        o.len() as int,
                        falhas(rv) > 0,
                        tarefas_por_lote as int,
                    )
                },
            }
        }),
{
    let ghost rv = results_view(resultados@);
    let mut registros: Vec<Json> = Vec::new();
    let mut com: usize = 0;
    let mut parciais = false;
    let mut nfalhas: usize = 0;
    let mut ultimo: Option<AppError> = None;
    let mut i: usize = 0;
    while i < resultados.len()
        invariant
            i <= resultados@.len(),
            rv == results_view(resultados@),
            first_fault(rv.take(i as int)) is None,
            views(registros@) == registros_of(rv.take(i as int)),
            com == com_dados(rv.take(i as int)),
            nfalhas == falhas(rv.take(i as int)),
            parciais == (nfalhas > 0),
            ultimo == ultimo_erro(rv.take(i as int)),
            com <= i,
            nfalhas <= i,
        decreases resultados@.len() - i,
    {
        let ghost pre = rv.take(i as int);
        let ghost pre1 = rv.take(i + 1);
        assert(pre1.drop_last() =~= pre);
        assert(pre1.last() == rv[i as int]);
        proof {
            lemma_counts_bounded(pre);
        }
        match &resultados[i] {
            Ok(v) => {
                let c = v.copy();
                let arr = lote_para_lista(c);
                if arr.len() > 0 {
                    com = com + 1;
                }
                let ghost before = views(registros@);
                let mut arr = arr;
                let ghost av = views(arr@);
                registros.append(&mut arr);
                assert(views(registros@) =~= before + av);
            },
            Err(e) => {
                match e {
                    AppError::SoapFault { .. } => {
                        proof {
                            assert(first_fault(pre1) == Some(i as int));
                            lemma_first_fault_prefix(rv, i as int);
                        }
                        return Err(e.clone());
                    },
                    _ => {},
                }
                parciais = true;
                nfalhas = nfalhas + 1;
                ultimo = Some(e.clone());
            },
        }
        i = i + 1;
    }
    assert(rv.take(i as int) =~= rv);
    if nfalhas == resultados.len() {
        return Err(
            match ultimo {
                Some(e) => e,
                None => AppError::SeiUnavailable,
            },
        );
    }
    let ghost regs = views(registros@);
    dedup_por_id(&mut registros);
    if ordenar {
        ordenar_por_datahora(&mut registros);
    }
    let resumo = montar_resumo(resultados.len(), com, registros.len(), parciais, tarefas_por_lote);
    proof {
        lemma_arr_view(registros);
    }
    Ok((Json::Arr(registros), resumo))
}

proof fn lemma_first_fault_prefix(rv: Seq<Result<JsonV, AppError>>, i: int)
    requires
        0 <= i < rv.len(),
        first_fault(rv.take(i + 1)) == Some(i),
    ensures
        first_fault(rv) == Some(i),
    decreases rv.len(),
{
    if i + 1 < rv.len() {
        assert(rv.drop_last().take(i + 1) =~= rv.take(i + 1));
        lemma_first_fault_prefix(rv.drop_last(), i);
    } else {
        assert(rv.take(i + 1) =~= rv);
    }
}


/// One server-sent event: its name and its JSON payload.
#[derive(Debug)]
pub struct Evento {
    pub nome: String,
    pub dados: Json,
}

/// The state of a streamed timeline query while its batches finish.
#[derive(Debug)]
pub struct EstadoStream {
    pub total_lotes: usize,
    pub feitos: usize,
    pub registros: Vec<Json>,
    pub lotes_com_dados: usize,
    pub parciais: bool,
    pub falhas: usize,
    /// The text of the last failure.
    pub ultimo_erro: Option<String>,
}

/// The model of a stream's state.
pub struct EstadoV {
    pub total_lotes: nat,
    pub feitos: nat,
    pub registros: Seq<JsonV>,
    pub lotes_com_dados: nat,
    pub parciais: bool,
    pub falhas: nat,
    pub ultimo_erro: Option<Seq<char>>,
}

impl View for EstadoStream {
    type V = EstadoV;

    open spec fn view(&self) -> EstadoV {
        EstadoV {
            total_lotes: self.total_lotes as nat,
            feitos: self.feitos as nat,
            registros: views(self.registros@),
            lotes_com_dados: self.lotes_com_dados as nat,
            parciais: self.parciais,
            falhas: self.falhas as nat,
            ultimo_erro: opt_text(self.ultimo_erro),
        }
    }
}

impl EstadoStream {
    /// Its counters are consistent: no more batches with records or failed
    /// than batches done.
    pub open spec fn wf(&self) -> bool {
        self.lotes_com_dados + self.falhas <= self.feitos
    }
}

/// The state before any batch finished.
pub open spec fn inicial_of(total_lotes: nat) -> EstadoV {
    EstadoV {
        total_lotes,
        feitos: 0,
        registros: Seq::empty(),
        lotes_com_dados: 0,
        parciais: false,
        falhas: 0,
        ultimo_erro: None,
    }
}

/// The state after one more batch finished with `r`.
pub open spec fn passo_of(s: EstadoV, r: Result<JsonV, AppError>) -> EstadoV {
    match r {
        Ok(v) => EstadoV {
            feitos: s.feitos + 1,
            registros: s.registros + lista_of(v),
            lotes_com_dados: s.lotes_com_dados + if lista_of(v).len() > 0 {
                1nat
            } else {
                0nat
            },
            ..s
        },
        Err(e) => if e is SoapFault {
            EstadoV { feitos: s.feitos + 1, ..s }
        } else {
            EstadoV {
                feitos: s.feitos + 1,
                parciais: true,
                falhas: s.falhas + 1,
                ultimo_erro: Some(mensagem_of(e)),
                ..s
            }
        },
    }
}

/// The state after the batches finished with `rv`, in that order.
pub open spec fn fold_passos(s: EstadoV, rv: Seq<Result<JsonV, AppError>>) -> EstadoV
    decreases rv.len(),
{
    if rv.len() == 0 {
        s
    } else {
        passo_of(fold_passos(s, rv.drop_last()), rv.last())
    }
}

/// The `erro` event of a stream.
pub open spec fn erro_of(msg: Seq<char>) -> JsonV {
    JsonV::Obj(seq![("ok"@, JsonV::Bool(false)), ("erro"@, JsonV::Str(msg))])
}

/// The `progresso` event once `feitos` of `total` batches finished, with
/// `registros` records so far; `parciais` tells whether any of them failed.
pub open spec fn progresso_campos(feitos: int, total: int, registros: int, parciais: bool) -> JsonV {
    JsonV::Obj(
        seq![
            ("lotes_concluidos"@, JsonV::Num(feitos)),
            ("total_lotes"@, JsonV::Num(total)),
            ("registros_ate_agora"@, JsonV::Num(registros)),
            ("parciais"@, JsonV::Bool(parciais)),
        ],
    )
}

/// The `progresso` event sent after each batch.
pub open spec fn progresso_of(s: EstadoV) -> JsonV {
    progresso_campos(s.feitos as int, s.total_lotes as int, s.registros.len() as int, s.parciais)
}

/// The event (name and payload) sent once a batch finished with `r`,
/// `depois` being the state after it.
pub open spec fn evento_passo_of(depois: EstadoV, r: Result<JsonV, AppError>) -> (Seq<char>, JsonV) {
    match r {
        Err(AppError::SoapFault { string, .. }) => ("erro"@, erro_of(string@)),
        _ => ("progresso"@, progresso_of(depois)),
    }
}

/// The events sent from the state `s` while batches finish with `rv`, in
/// that order: one per batch, up to and including the first SOAP Fault,
/// which ends the stream.
pub open spec fn eventos_passos(s: EstadoV, rv: Seq<Result<JsonV, AppError>>) -> Seq<(Seq<char>, JsonV)>
    decreases rv.len(),
{
    if rv.len() == 0 {
        Seq::empty()
    } else if first_fault(rv.drop_last()) is Some {
        eventos_passos(s, rv.drop_last())
    } else {
        eventos_passos(s, rv.drop_last()).push(evento_passo_of(fold_passos(s, rv), rv.last()))
    }
}

/// Whether `ev` is a last event that the state `s` admits, once every batch
/// finished: `erro` with the last failure when every batch failed, otherwise
/// `concluido` with the final timeline of its records and their summary.
pub open spec fn fim_admitido(s: EstadoV, ordenar: bool, tarefas_por_lote: int, ev: (Seq<char>, JsonV)) -> bool {
    if s.falhas == s.total_lotes {
        ev == (
            "erro"@,
            erro_of(
                match s.ultimo_erro {
                    Some(m) => m,
                    None => "SEI indisponível"@,
                },
            ),
        )
    } else {
        &&& ev.0 == "concluido"@
        &&& exists|o: Seq<JsonV>|
            #[trigger] timeline_final(s.registros, ordenar, o) && ev.1 == concluido_of(
                o,
                resumo_of(
                    s.total_lotes as int,
                    s.lotes_com_dados as int,
                    o.len() as int,
                    s.parciais,
                    tarefas_por_lote,
                ),
            )
    }
}

/// The state of a stream of `total_lotes` batches before any finished.
pub fn estado_inicial(total_lotes: usize) -> (r: EstadoStream)
    ensures
        r@ == inicial_of(total_lotes as nat),
        r.wf(),
{
    let r = EstadoStream {
        total_lotes,
        feitos: 0,
        registros: Vec::new(),
        lotes_com_dados: 0,
        parciais: false,
        falhas: 0,
        ultimo_erro: None,
    };
    assert(views(r.registros@) =~= Seq::<JsonV>::empty());
    r
}

fn progresso_exec(s: &EstadoStream) -> (r: Json)
    ensures
        r@ == progresso_of(s@),
{
    let fields: Vec<(String, Json)> = vec![
        (String::from_str("lotes_concluidos"), Json::Num(s.feitos as u64)),
        (String::from_str("total_lotes"), Json::Num(s.total_lotes as u64)),
        (String::from_str("registros_ate_agora"), Json::Num(s.registros.len() as u64)),
        (String::from_str("parciais"), Json::Bool(s.parciais)),
    ];
    proof {
        lemma_obj_view(fields);
        assert(member_views(fields@) =~= progresso_of(s@)->Obj_0);
    }
    Json::Obj(fields)
}

fn erro_exec(msg: String) -> (r: Json)
    ensures
        r@ == erro_of(msg@),
{
    let ghost m = msg@;
    let fields: Vec<(String, Json)> = vec![
        (String::from_str("ok"), Json::Bool(false)),
        (String::from_str("erro"), Json::Str(msg)),
    ];
    proof {
        lemma_obj_view(fields);
        assert(member_views(fields@) =~= erro_of(m)->Obj_0);
    }
    Json::Obj(fields)
}

/// Takes the result of one more finished batch: a SOAP Fault ends the
/// stream with an `erro` event; anything else updates the state and is
/// reported with a `progresso` event.
pub fn passo_stream(est: &mut EstadoStream, r: Result<Json, AppError>) -> (ev: Evento)
    requires
        old(est).wf(),
        old(est).feitos < usize::MAX,
    ensures
        final(est).wf(),
        final(est)@ == passo_of(old(est)@, result_view(r)),
        (ev.nome@, ev.dados@) == evento_passo_of(final(est)@, result_view(r)),
{
    est.feitos = est.feitos + 1;
    match r {
        Ok(v) => {
            let arr = lote_para_lista(v);
            if arr.len() > 0 {
                est.lotes_com_dados = est.lotes_com_dados + 1;
            }
            let ghost before = views(est.registros@);
            let mut arr = arr;
            let ghost av = views(arr@);
            est.registros.append(&mut arr);
            assert(views(est.registros@) =~= before + av);
        },
        Err(AppError::SoapFault { string, .. }) => {
            return Evento { nome: String::from_str("erro"), dados: erro_exec(string) };
        },
        Err(e) => {
            est.parciais = true;
            est.falhas = est.falhas + 1;
            est.ultimo_erro = Some(e.mensagem());
        },
    }
    Evento { nome: String::from_str("progresso"), dados: progresso_exec(est) }
}

/// The `concluido` event: the whole timeline and its summary.
pub open spec fn concluido_of(o: Seq<JsonV>, resumo: JsonV) -> JsonV {
    JsonV::Obj(
        seq![("ok"@, JsonV::Bool(true)), ("dados"@, JsonV::Arr(o)), ("resumo"@, resumo)],
    )
}

/// The last event of a stream whose batches all finished: `erro` with the
/// last failure when every batch failed, otherwise `concluido` with the
/// timeline (deduplicated and, when asked, sorted) and its summary.
pub fn fim_stream(est: EstadoStream, ordenar: bool, tarefas_por_lote: usize) -> (ev: Evento)
    ensures
        fim_admitido(est@, ordenar, tarefas_por_lote as int, (ev.nome@, ev.dados@)),
{
    let ghost sv = est@;
    if est.falhas == est.total_lotes {
        let msg = match est.ultimo_erro {
            Some(m) => m,
            None => String::from_str("SEI indisponível"),
        };
        return Evento { nome: String::from_str("erro"), dados: erro_exec(msg) };
    }
    let ghost regs0 = views(est.registros@);
    let mut registros = est.registros;
    dedup_por_id(&mut registros);
    if ordenar {
        ordenar_por_datahora(&mut registros);
    }
    let ghost o = views(registros@);
    let resumo = montar_resumo(
        est.total_lotes,
        est.lotes_com_dados,
        registros.len(),
        est.parciais,
        tarefas_por_lote,
    );
    let ghost rv = resumo@;
    proof {
        lemma_arr_view(registros);
    }
    let fields: Vec<(String, Json)> = vec![
        (String::from_str("ok"), Json::Bool(true)),
        (String::from_str("dados"), Json::Arr(registros)),
        (String::from_str("resumo"), resumo),
    ];
    proof {
        lemma_obj_view(fields);
        assert(member_views(fields@) =~= concluido_of(o, rv)->Obj_0);
        assert(timeline_final(regs0, ordenar, o));
    }
    let ev = Evento { nome: String::from_str("concluido"), dados: Json::Obj(fields) };
    proof {
        assert(sv.registros == regs0);
        assert(rv == resumo_of(
            sv.total_lotes as int,
            sv.lotes_com_dados as int,
            o.len() as int,
            sv.parciais,
            tarefas_por_lote as int,
        ));
        assert(ev.dados@ == concluido_of(o, rv));
        assert(timeline_final(sv.registros, ordenar, o));
    }
    ev
}

/// The streamed query keeps what the plain one does: after the batches
/// finish with `rv` (none with a SOAP Fault, which ends both), the stream's
/// state holds the same records, in the same order, the same counts, and
/// the text of the same last failure, so its `concluido` event carries the
/// timeline and summary that the plain query answers with.
pub proof fn law_stream_matches_plain(total_lotes: nat, rv: Seq<Result<JsonV, AppError>>)
    requires
        first_fault(rv) is None,
    ensures
        ({
            let s = fold_passos(inicial_of(total_lotes), rv);
            &&& s.feitos == rv.len()
            &&& s.registros == registros_of(rv)
            &&& s.lotes_com_dados == com_dados(rv)
            &&& s.falhas == falhas(rv)
            &&& s.parciais == (falhas(rv) > 0)
            &&& s.ultimo_erro == match ultimo_erro(rv) {
                Some(e) => Some(mensagem_of(e)),
                None => None,
            }
            &&& s.total_lotes == total_lotes
        }),
    decreases rv.len(),
{
    if rv.len() > 0 {
        let pre = rv.drop_last();
        assert(first_fault(pre) is None) by {
            if first_fault(pre) is Some {
                assert(first_fault(rv) == first_fault(pre));
            }
        }
        law_stream_matches_plain(total_lotes, pre);
        let s = fold_passos(inicial_of(total_lotes), pre);
        match rv.last() {
            Ok(v) => {},
            Err(e) => {
                assert(!(e is SoapFault));
            },
        }
    }
}


proof fn lemma_first_fault_take(rv: Seq<Result<JsonV, AppError>>, m: int)
    requires
        0 <= m <= rv.len(),
    ensures
        first_fault(rv.take(m)) == match first_fault(rv) {
            Some(k) => if k < m {
                Some(k)
            } else {
                None::<int>
            },
            None => None::<int>,
        },
    decreases rv.len(),
{
    if m == rv.len() {
        assert(rv.take(m) =~= rv);
        lemma_first_fault_range(rv);
    } else {
        let pre = rv.drop_last();
        assert(rv.take(m) =~= pre.take(m));
        lemma_first_fault_take(pre, m);
        lemma_first_fault_range(pre);
    }
}

proof fn lemma_first_fault_range(rv: Seq<Result<JsonV, AppError>>)
    ensures
        first_fault(rv) matches Some(k) ==> 0 <= k < rv.len() && rv[k] matches Err(
            AppError::SoapFault { .. },
        ),
        first_fault(rv) is None ==> forall|i: int|
            0 <= i < rv.len() ==> !(#[trigger] rv[i] matches Err(AppError::SoapFault { .. })),
    decreases rv.len(),
{
    if rv.len() > 0 {
        let pre = rv.drop_last();
        lemma_first_fault_range(pre);
        if first_fault(rv) is None {
            assert forall|i: int| 0 <= i < rv.len() implies !(#[trigger] rv[i] matches Err(
                AppError::SoapFault { .. },
            )) by {
                if i < pre.len() {
                    assert(rv[i] == pre[i]);
                }
            }
        }
    }
}

proof fn lemma_eventos_passos(s: EstadoV, rv: Seq<Result<JsonV, AppError>>)
    ensures
        eventos_passos(s, rv).len() == match first_fault(rv) {
            Some(k) => k + 1,
            None => rv.len() as int,
        },
        forall|j: int|
            0 <= j < eventos_passos(s, rv).len() ==> #[trigger] eventos_passos(s, rv)[j]
                == evento_passo_of(fold_passos(s, rv.take(j + 1)), rv[j]),
    decreases rv.len(),
{
    if rv.len() > 0 {
        let pre = rv.drop_last();
        lemma_eventos_passos(s, pre);
        lemma_first_fault_range(pre);
        let evs = eventos_passos(s, rv);
        assert forall|j: int| 0 <= j < evs.len() implies #[trigger] evs[j] == evento_passo_of(
            fold_passos(s, rv.take(j + 1)),
            rv[j],
        ) by {
            if j < pre.len() {
                assert(rv.take(j + 1) =~= pre.take(j + 1));
                assert(rv[j] == pre[j]);
            } else {
                assert(rv.take(j + 1) =~= rv);
            }
        }
    }
}

/// How a stream goes while its batches finish with `rv`, in that order:
/// after the `j`-th batch (counting from one) comes a `progresso` event with
/// `j` batches done of `n`, the records of those `j` batches so far, and
/// whether any of them failed; a batch answered with a SOAP Fault is reported
/// with an `erro` event carrying the fault's text, and nothing follows it.
/// Without a fault there is one `progresso` event per batch.
pub proof fn law_stream_events(n: nat, rv: Seq<Result<JsonV, AppError>>)
    ensures
        ({
            let evs = eventos_passos(inicial_of(n), rv);
            let progresso_ate = |j: int|
                evs[j] == (
                    "progresso"@,
                    progresso_campos(
                        j + 1,
                        n as int,
                        registros_of(rv.take(j + 1)).len() as int,
                        falhas(rv.take(j + 1)) > 0,
                    ),
                );
            match first_fault(rv) {
                None => evs.len() == rv.len() && forall|j: int|
                    0 <= j < rv.len() ==> #[trigger] progresso_ate(j),
                Some(k) => {
                    &&& evs.len() == k + 1
                    &&& forall|j: int| 0 <= j < k ==> #[trigger] progresso_ate(j)
                    &&& rv[k] matches Err(AppError::SoapFault { string, .. }) && evs[k] == (
                        "erro"@,
                        erro_of(string@),
                    )
                },
            }
        }),
{
    let s0 = inicial_of(n);
    let evs = eventos_passos(s0, rv);
    lemma_eventos_passos(s0, rv);
    lemma_first_fault_range(rv);
    let bound: int = match first_fault(rv) {
        Some(k) => k,
        None => rv.len() as int,
    };
    assert forall|j: int| 0 <= j < bound implies evs[j] == (
        "progresso"@,
        progresso_campos(
            j + 1,
            n as int,
            registros_of(rv.take(j + 1)).len() as int,
            falhas(rv.take(j + 1)) > 0,
        ),
    ) by {
        let t = rv.take(j + 1);
        lemma_first_fault_take(rv, j + 1);
        lemma_first_fault_range(t);
        law_stream_matches_plain(n, t);
        assert(t[j] == rv[j]);
        assert(evs[j] == evento_passo_of(fold_passos(s0, t), rv[j]));
    }
    if let Some(k) = first_fault(rv) {
        assert(evs[k] == evento_passo_of(fold_passos(s0, rv.take(k + 1)), rv[k]));
    }
}

/// The final timeline is unique: the records and the choice to sort fix it.
pub proof fn law_timeline_final_unique(regs: Seq<JsonV>, ordenar: bool, o1: Seq<JsonV>, o2: Seq<JsonV>)
    requires
        timeline_final(regs, ordenar, o1),
        timeline_final(regs, ordenar, o2),
    ensures
        o1 == o2,
{
    if ordenar {
        crate::timeline::law_sorted_by_datahora_unique(dedup_of(regs), o1, o2);
    }
}

/// How a stream without a SOAP Fault ends, once its `n` batches finished
/// with `rv`: its last event answers what the plain query answers for the
/// same results. When every batch failed it is `erro` with the text of the
/// error the plain query fails with (the last failure); otherwise it is
/// `concluido` with the plain query's timeline and summary.
pub proof fn law_stream_end(
    n: nat,
    rv: Seq<Result<JsonV, AppError>>,
    ordenar: bool,
    tarefas_por_lote: int,
    fim: (Seq<char>, JsonV),
)
    requires
        rv.len() == n,
        first_fault(rv) is None,
        fim_admitido(fold_passos(inicial_of(n), rv), ordenar, tarefas_por_lote, fim),
    ensures
        falhas(rv) == n ==> fim == (
            "erro"@,
            erro_of(
                mensagem_of(
                    match ultimo_erro(rv) {
                        Some(e) => e,
                        None => AppError::SeiUnavailable,
                    },
                ),
            ),
        ),
        falhas(rv) != n ==> fim.0 == "concluido"@ && forall|o: Seq<JsonV>|
            #[trigger] timeline_final(registros_of(rv), ordenar, o) ==> fim.1 == concluido_of(
                o,
                resumo_of(
                    rv.len() as int,
                    com_dados(rv) as int,
                    o.len() as int,
                    falhas(rv) > 0,
                    tarefas_por_lote,
                ),
            ),
{
    let s = fold_passos(inicial_of(n), rv);
    law_stream_matches_plain(n, rv);
    if falhas(rv) != n {
        let o2 = choose|o: Seq<JsonV>|
            #[trigger] timeline_final(s.registros, ordenar, o) && fim.1 == concluido_of(
                o,
                resumo_of(
                    s.total_lotes as int,
                    s.lotes_com_dados as int,
                    o.len() as int,
                    s.parciais,
                    tarefas_por_lote,
                ),
            );
        assert forall|o: Seq<JsonV>| #[trigger] timeline_final(registros_of(rv), ordenar, o) implies fim.1
            == concluido_of(
            o,
            resumo_of(
                rv.len() as int,
                com_dados(rv) as int,
                o.len() as int,
                falhas(rv) > 0,
                tarefas_por_lote,
            ),
        ) by {
            law_timeline_final_unique(registros_of(rv), ordenar, o, o2);
        }
    }
}


/// The final timeline never repeats an `IdAndamento`, sorted or not, and
/// every `IdAndamento` of the merged records is still in it.
pub proof fn law_timeline_ids_unique(regs: Seq<JsonV>, ordenar: bool, o: Seq<JsonV>)
    requires
        timeline_final(regs, ordenar, o),
    ensures
        forall|a: int, b: int|
            0 <= a < b < o.len() && id_of(o[a]) is Some ==> id_of(#[trigger] o[a]) != id_of(
                #[trigger] o[b],
            ),
        forall|i: int|
            0 <= i < regs.len() && id_of(regs[i]) is Some ==> exists|k: int|
                0 <= k < o.len() && id_of(#[trigger] o[k]) == id_of(regs[i]),
{
    let d = dedup_of(regs);
    law_dedup_ids_unique(regs);
    if ordenar {
        let p = choose|p: Seq<usize>|
            #[trigger] is_permutation(p, d.len()) && stably_sorted(sort_keys(d), p) && o
                == permuted(d, p);
        assert forall|a: int, b: int|
            0 <= a < b < o.len() && id_of(o[a]) is Some implies id_of(#[trigger] o[a]) != id_of(
                #[trigger] o[b],
            ) by {
            let x = p[a] as int;
            let y = p[b] as int;
            assert(o[a] == d[x] && o[b] == d[y]);
            assert(x != y);
            if x > y && id_of(d[y]) is Some {
                assert(id_of(d[y]) != id_of(d[x]));
            }
        }
        assert forall|i: int| 0 <= i < regs.len() && id_of(regs[i]) is Some implies exists|k: int|
            0 <= k < o.len() && id_of(#[trigger] o[k]) == id_of(regs[i]) by {
            let k = choose|k: int| 0 <= k < d.len() && id_of(#[trigger] d[k]) == id_of(regs[i]);
            lemma_permutation_covers(p, d.len(), k);
            let j = choose|j: int| 0 <= j < p.len() && p[j] as int == k;
            assert(o[j] == d[k]);
        }
    }
}


/// What the batches of a timeline query ask for. A query that lists
/// `andamentos` or `tarefas_modulos` is one call, whose filter has an entry
/// for each of `Andamentos`, `Tarefas` and `TarefasModulos` that the query
/// lists, with exactly the comma-separated items of the query, and nothing
/// else. Any other query asks for task types only, each call one `Tarefas`
/// entry of at most `lote` of them, and all the calls together, in order, ask
/// for the task types of the query, or for 1 to 200 when it lists none.
pub proof fn law_plano_filtros(q: AndamentosQuery, lote: nat)
    requires
        lote > 0,
    ensures
        ({
            let itens = |o: Option<String>| match o {
                Some(x) => comma_items_of(x@),
                None => Seq::<Seq<char>>::empty(),
            };
            let a = itens(q.andamentos);
            let t = itens(q.tarefas);
            let m = itens(q.tarefas_modulos);
            let plano = plan_lotes(q, lote);
            &&& (a.len() > 0 || m.len() > 0) ==> {
                &&& plano.len() == 1
                &&& a.len() > 0 ==> plano[0].contains(("Andamentos"@, a))
                &&& t.len() > 0 ==> plano[0].contains(("Tarefas"@, t))
                &&& m.len() > 0 ==> plano[0].contains(("TarefasModulos"@, m))
                &&& forall|i: int|
                    0 <= i < plano[0].len() ==> (#[trigger] plano[0][i] == ("Andamentos"@, a) && a.len()
                        > 0) || (plano[0][i] == ("Tarefas"@, t) && t.len() > 0) || (plano[0][i] == (
                        "TarefasModulos"@,
                        m,
                    ) && m.len() > 0)
            }
            &&& (a.len() == 0 && m.len() == 0) ==> {
                &&& forall|k: int|
                    0 <= k < plano.len() ==> #[trigger] plano[k] == seq![("Tarefas"@, plano[k][0].1)]
                        && 0 < plano[k][0].1.len() <= lote
                &&& Seq::new(plano.len(), |k: int| plano[k][0].1).flatten() == if t.len() > 0 {
                    t
                } else {
                    Seq::new(200, |i: int| decimal((i + 1) as nat))
                }
            }
        }),
{
    let itens = |o: Option<String>| match o {
        Some(x) => comma_items_of(x@),
        None => Seq::<Seq<char>>::empty(),
    };
    let a = itens(q.andamentos);
    let t = itens(q.tarefas);
    let m = itens(q.tarefas_modulos);
    assert(a == list_of(opt_text(q.andamentos)));
    assert(t == list_of(opt_text(q.tarefas)));
    assert(m == list_of(opt_text(q.tarefas_modulos)));
    let plano = plan_lotes(q, lote);
    if a.len() > 0 || m.len() > 0 {
        assert(!so_tarefas(q));
        assert(plan_tarefas(q) == t);
        let f = filtro_unico(q);
        assert(plano == seq![f]);
        let ea = entry_if_any("Andamentos"@, a);
        let et = entry_if_any("Tarefas"@, t);
        let em = entry_if_any("TarefasModulos"@, m);
        assert(f == ea + et + em);
        if a.len() > 0 {
            assert(f[0] == ("Andamentos"@, a));
        }
        if t.len() > 0 {
            assert(f[ea.len() as int] == ("Tarefas"@, t));
        }
        if m.len() > 0 {
            assert(f[(ea.len() + et.len()) as int] == ("TarefasModulos"@, m));
        }
        assert forall|i: int| 0 <= i < f.len() implies (#[trigger] f[i] == ("Andamentos"@, a) && a.len()
            > 0) || (f[i] == ("Tarefas"@, t) && t.len() > 0) || (f[i] == ("TarefasModulos"@, m)
            && m.len() > 0) by {
            if i < ea.len() {
                assert(f[i] == ea[i]);
            } else if i < ea.len() + et.len() {
                assert(f[i] == et[i - ea.len()]);
            } else {
                assert(f[i] == em[i - ea.len() - et.len()]);
            }
        }
    } else {
        assert(so_tarefas(q));
        let tt = plan_tarefas(q);
        assert(tt == if t.len() > 0 {
            t
        } else {
            Seq::new(200, |i: int| decimal((i + 1) as nat))
        });
        if tt.len() > lote {
            law_plan_batches(q, lote);
            law_chunks_partition(tt, lote);
            let c = chunks_of(tt, lote);
            assert forall|k: int| 0 <= k < plano.len() implies #[trigger] plano[k] == seq![
                ("Tarefas"@, plano[k][0].1),
            ] && 0 < plano[k][0].1.len() <= lote by {
                assert(plano[k] == lote_de_tarefas(c[k]));
            }
        } else {
            let f = filtro_unico(q);
            assert(plano == seq![f]);
            assert(tt.len() > 0);
            assert(f =~= seq![("Tarefas"@, tt)]);
            assert(Seq::new(plano.len(), |k: int| plano[k][0].1) =~= seq![tt]);
            assert(seq![tt].drop_first() =~= Seq::<Seq<Seq<char>>>::empty());
            assert(Seq::<Seq<Seq<char>>>::empty().flatten() == Seq::<Seq<char>>::empty());
            assert(tt + Seq::<Seq<char>>::empty() =~= tt);
            assert(seq![tt].flatten() == seq![tt].first() + seq![tt].drop_first().flatten());
        }
    }
}


/// Sorting by `DataHora` is the default: a query without `ordenar`, or with
/// only blanks in it, is sorted; and the value is read without the blanks
/// around it (` false ` reads as `false`).
pub proof fn law_ordenar_padrao(v: Seq<char>)
    ensures
        ordenar_of(None) == Ok::<bool, Seq<char>>(true),
        trimmed(v).len() == 0 ==> ordenar_of(Some(v)) == Ok::<bool, Seq<char>>(true),
        ordenar_of(Some(v)) == ordenar_of(Some(trimmed(v))),
{
    crate::text::lemma_trimmed_idempotent(v);
}

} // verus!
