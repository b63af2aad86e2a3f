//! The read-only queries of processes, documents, publications and blocks:
//! their parameters, checked before any call to the SEI, and the JSON they
//! answer with.

use vstd::prelude::*;
use crate::error::{AppError, is_infra_failure, mensagem_of};
use crate::json::{Json, JsonV, member, views, member_views, lemma_obj_view, lemma_arr_view};
use crate::sei::{flag_of, flag_sn, opt_text, pairs_view};
use crate::text::{texts, trimmed, trim_str, comma_items, comma_items_of};
use crate::documentos::result_view;
use crate::andamentos::results_view;

verus! {

/// The S/N flags of `consultarProcedimento`.
#[derive(Debug, Default)]
pub struct ProcFlags {
    pub sin_retornar_assuntos: Option<String>,
    pub sin_retornar_interessados: Option<String>,
    pub sin_retornar_observacoes: Option<String>,
    pub sin_retornar_andamento_geracao: Option<String>,
    pub sin_retornar_andamento_conclusao: Option<String>,
    pub sin_retornar_ultimo_andamento: Option<String>,
    pub sin_retornar_unidades_procedimento_aberto: Option<String>,
    pub sin_retornar_procedimentos_relacionados: Option<String>,
    pub sin_retornar_procedimentos_anexados: Option<String>,
}

/// `/procedimento?protocolo=...`.
#[derive(Debug)]
pub struct ProcOneQuery {
    pub protocolo: Option<String>,
    pub flags: ProcFlags,
}

/// `/procedimentos?protocolos=A,B,C`.
#[derive(Debug)]
pub struct ProcsQuery {
    pub protocolos: Option<String>,
    pub flags: ProcFlags,
}

/// The S/N flags of `consultarDocumento`.
#[derive(Debug, Default)]
pub struct DocFlags {
    pub sin_retornar_andamento_geracao: Option<String>,
    pub sin_retornar_assinaturas: Option<String>,
    pub sin_retornar_publicacao: Option<String>,
    pub sin_retornar_campos: Option<String>,
}

/// `/documentos?protocolos=A,B,C`.
#[derive(Debug)]
pub struct DocsQuery {
    pub protocolos: Option<String>,
    pub flags: DocFlags,
}

/// `/documento?protocolo=...`.
#[derive(Debug)]
pub struct DocOneQuery {
    pub protocolo: Option<String>,
    pub flags: DocFlags,
}

/// `/publicacao`.
#[derive(Debug, Default)]
pub struct PublicacaoQuery {
    pub id_publicacao: Option<String>,
    pub id_documento: Option<String>,
    pub protocolo_documento: Option<String>,
    pub sin_retornar_andamento: Option<String>,
    pub sin_retornar_assinaturas: Option<String>,
}

/// `/bloco/{id}`.
#[derive(Debug, Default)]
pub struct BlocoQuery {
    pub sin_retornar_protocolos: Option<String>,
}

/// `/bloco?id=...`.
#[derive(Debug)]
pub struct BlocoOneQuery {
    pub id: Option<String>,
    pub sin_retornar_protocolos: Option<String>,
}

/// `/procedimento-individual`.
#[derive(Debug, Default)]
pub struct ProcIndividualQuery {
    pub id_orgao_procedimento: Option<String>,
    pub id_tipo_procedimento: Option<String>,
    pub id_orgao_usuario: Option<String>,
    pub sigla_usuario: Option<String>,
}

/// Resolves an S/N flag whose default is `S`.
pub fn sn(opt: &Option<String>) -> (r: Result<String, AppError>)
    ensures
        match flag_of(opt_text(*opt), true) {
            Ok(v) => r matches Ok(x) && x@ == v,
            Err(m) => r matches Err(AppError::BadRequest(x)) && x@ == m,
        },
{
    flag_sn(opt, true)
}

/// The normalized values of a list of flags, or the message of the first
/// invalid one.
pub open spec fn flags_of(v: Seq<Option<Seq<char>>>, default_s: bool) -> Result<
    Seq<Seq<char>>,
    Seq<char>,
>
    decreases v.len(),
{
    if v.len() == 0 {
        Ok(Seq::empty())
    } else {
        match flags_of(v.drop_last(), default_s) {
            Err(m) => Err(m),
            Ok(xs) => match flag_of(v.last(), default_s) {
                Err(m) => Err(m),
                Ok(x) => Ok(xs.push(x)),
            },
        }
    }
}

/// Names paired with values, in order.
pub open spec fn zip_names(names: Seq<Seq<char>>, vals: Seq<Seq<char>>) -> Seq<(Seq<char>, Seq<char>)> {
    Seq::new(names.len(), |i: int| (names[i], vals[i]))
}

/// The texts of static names.
pub open spec fn names_view(v: Seq<&'static str>) -> Seq<Seq<char>> {
    Seq::new(v.len(), |i: int| v[i]@)
}

/// The texts of optional values.
pub open spec fn opts_view(v: Seq<&Option<String>>) -> Seq<Option<Seq<char>>> {
    Seq::new(v.len(), |i: int| opt_text(*v[i]))
}

/// Appends `name = flag` for each flag, in order; refuses at the first
/// invalid one.
fn push_flags(
    out: &mut Vec<(&'static str, String)>,
    names: &Vec<&'static str>,
    vals: &Vec<&Option<String>>,
    default_s: bool,
) -> (r: Result<(), AppError>)
    requires
        names@.len() == vals@.len(),
    ensures
        match flags_of(opts_view(vals@), default_s) {
            Ok(xs) => r is Ok && pairs_view(final(out)@) == pairs_view(old(out)@) + zip_names(
                names_view(names@),
                xs,
            ),
            Err(m) => r matches Err(AppError::BadRequest(x)) && x@ == m,
        },
{
    let ghost start = pairs_view(out@);
    let ghost ov = opts_view(vals@);
    let ghost nv = names_view(names@);
    let ghost mut xs: Seq<Seq<char>> = Seq::empty();
    let mut i: usize = 0;
    while i < vals.len()
        invariant
            i <= vals@.len(),
            names@.len() == vals@.len(),
            ov == opts_view(vals@),
            nv == names_view(names@),
            flags_of(ov.take(i as int), default_s) == Ok::<Seq<Seq<char>>, Seq<char>>(xs),
            xs.len() == i,
            pairs_view(out@) == start + zip_names(nv.take(i as int), xs),
        decreases vals@.len() - i,
    {
        assert(ov.take(i + 1).drop_last() =~= ov.take(i as int));
        assert(ov.take(i + 1).last() == opt_text(*vals@[i as int]));
        match flag_sn(vals[i], default_s) {
            Ok(v) => {
                let ghost before = pairs_view(out@);
                out.push((names[i], v));
                proof {
                    xs = xs.push(v@);
                    assert(pairs_view(out@) =~= before.push((names@[i as int]@, v@)));
                    assert(zip_names(nv.take(i + 1), xs) =~= zip_names(
                        nv.take(i as int),
                        xs.drop_last(),
                    ).push((nv[i as int], v@)));
                    assert(xs.drop_last() =~= xs.take(i as int));
                }
            },
            Err(e) => {
                proof {
                    lemma_flags_prefix_err(ov, i as int + 1, default_s);
                }
                return Err(e);
            },
        }
        i = i + 1;
        proof {
            assert(xs.take(i as int) =~= xs);
        }
    }
    assert(ov.take(i as int) =~= ov);
    assert(nv.take(i as int) =~= nv);
    Ok(())
}

proof fn lemma_flags_prefix_err(v: Seq<Option<Seq<char>>>, k: int, d: bool)
    requires
        0 <= k <= v.len(),
        flags_of(v.take(k), d) is Err,
    ensures
        flags_of(v, d) == flags_of(v.take(k), d),
    decreases v.len() - k,
{
    if k < v.len() {
        assert(v.take(k + 1).drop_last() =~= v.take(k));
        lemma_flags_prefix_err(v, k + 1, d);
    } else {
        assert(v.take(k) =~= v);
    }
}

/// The flag names of `consultarProcedimento`, in the order they are sent.
pub open spec fn proc_flag_names() -> Seq<Seq<char>> {
    seq![
        "SinRetornarAssuntos"@,
        "SinRetornarInteressados"@,
        "SinRetornarObservacoes"@,
        "SinRetornarAndamentoGeracao"@,
        "SinRetornarAndamentoConclusao"@,
        "SinRetornarUltimoAndamento"@,
        "SinRetornarUnidadesProcedimentoAberto"@,
        "SinRetornarProcedimentosRelacionados"@,
        "SinRetornarProcedimentosAnexados"@,
    ]
}

/// The flag values of a process query, in the same order.
pub open spec fn proc_flag_values(f: ProcFlags) -> Seq<Option<Seq<char>>> {
    seq![
        opt_text(f.sin_retornar_assuntos),
        opt_text(f.sin_retornar_interessados),
        opt_text(f.sin_retornar_observacoes),
        opt_text(f.sin_retornar_andamento_geracao),
        opt_text(f.sin_retornar_andamento_conclusao),
        opt_text(f.sin_retornar_ultimo_andamento),
        opt_text(f.sin_retornar_unidades_procedimento_aberto),
        opt_text(f.sin_retornar_procedimentos_relacionados),
        opt_text(f.sin_retornar_procedimentos_anexados),
    ]
}

/// The parameters of `consultarProcedimento`: the process, then every flag
/// (default `S`); an invalid flag refuses the query.
pub fn proc_params(protocolo: String, f: &ProcFlags) -> (r: Result<Vec<(&'static str, String)>, AppError>)
    ensures
        match flags_of(proc_flag_values(*f), true) {
            Ok(xs) => r matches Ok(v) && pairs_view(v@) == seq![
                ("ProtocoloProcedimento"@, protocolo@),
            ] + zip_names(proc_flag_names(), xs),
            Err(m) => r matches Err(AppError::BadRequest(x)) && x@ == m,
        },
{
    let ghost p = protocolo@;
    let names: Vec<&'static str> = vec![
        "SinRetornarAssuntos",
        "SinRetornarInteressados",
        "SinRetornarObservacoes",
        "SinRetornarAndamentoGeracao",
        "SinRetornarAndamentoConclusao",
        "SinRetornarUltimoAndamento",
        "SinRetornarUnidadesProcedimentoAberto",
        "SinRetornarProcedimentosRelacionados",
        "SinRetornarProcedimentosAnexados",
    ];
    let vals: Vec<&Option<String>> = vec![
        &f.sin_retornar_assuntos,
        &f.sin_retornar_interessados,
        &f.sin_retornar_observacoes,
        &f.sin_retornar_andamento_geracao,
        &f.sin_retornar_andamento_conclusao,
        &f.sin_retornar_ultimo_andamento,
        &f.sin_retornar_unidades_procedimento_aberto,
        &f.sin_retornar_procedimentos_relacionados,
        &f.sin_retornar_procedimentos_anexados,
    ];
    assert(names_view(names@) =~= proc_flag_names());
    assert(opts_view(vals@) =~= proc_flag_values(*f));
    let mut out: Vec<(&'static str, String)> = vec![("ProtocoloProcedimento", protocolo)];
    assert(pairs_view(out@) =~= seq![("ProtocoloProcedimento"@, p)]);
    match push_flags(&mut out, &names, &vals, true) {
        Ok(()) => Ok(out),
        Err(e) => Err(e),
    }
}

/// Whether the open units of the process were asked for (its flag, default
/// `S`, is `S`).
pub fn unidades_solicitadas(f: &ProcFlags) -> (r: Result<bool, AppError>)
    ensures
        match flag_of(opt_text(f.sin_retornar_unidades_procedimento_aberto), true) {
            Ok(v) => r == Ok::<bool, AppError>(v == "S"@),
            Err(m) => r matches Err(AppError::BadRequest(x)) && x@ == m,
        },
{
    match sn(&f.sin_retornar_unidades_procedimento_aberto) {
        Ok(v) => Ok(crate::text::str_eq(v.as_str(), "S")),
        Err(e) => Err(e),
    }
}

/// The flag names of `consultarDocumento`, in the order they are sent.
pub open spec fn doc_flag_names() -> Seq<Seq<char>> {
    seq![
        "SinRetornarAndamentoGeracao"@,
        "SinRetornarAssinaturas"@,
        "SinRetornarPublicacao"@,
        "SinRetornarCampos"@,
    ]
}

/// The flag values of a document query, in the same order.
pub open spec fn doc_flag_values(f: DocFlags) -> Seq<Option<Seq<char>>> {
    seq![
        opt_text(f.sin_retornar_andamento_geracao),
        opt_text(f.sin_retornar_assinaturas),
        opt_text(f.sin_retornar_publicacao),
        opt_text(f.sin_retornar_campos),
    ]
}

/// The parameters of `consultarDocumento`: the document, then every flag
/// (default `S`); an invalid flag refuses the query.
pub fn doc_params(protocolo: String, f: &DocFlags) -> (r: Result<Vec<(&'static str, String)>, AppError>)
    ensures
        match flags_of(doc_flag_values(*f), true) {
            Ok(xs) => r matches Ok(v) && pairs_view(v@) == seq![
                ("ProtocoloDocumento"@, protocolo@),
            ] + zip_names(doc_flag_names(), xs),
            Err(m) => r matches Err(AppError::BadRequest(x)) && x@ == m,
        },
{
    let ghost p = protocolo@;
    let names: Vec<&'static str> = vec![
        "SinRetornarAndamentoGeracao",
        "SinRetornarAssinaturas",
        "SinRetornarPublicacao",
        "SinRetornarCampos",
    ];
    let vals: Vec<&Option<String>> = vec![
        &f.sin_retornar_andamento_geracao,
        &f.sin_retornar_assinaturas,
        &f.sin_retornar_publicacao,
        &f.sin_retornar_campos,
    ];
    assert(names_view(names@) =~= doc_flag_names());
    assert(opts_view(vals@) =~= doc_flag_values(*f));
    let mut out: Vec<(&'static str, String)> = vec![("ProtocoloDocumento", protocolo)];
    assert(pairs_view(out@) =~= seq![("ProtocoloDocumento"@, p)]);
    match push_flags(&mut out, &names, &vals, true) {
        Ok(()) => Ok(out),
        Err(e) => Err(e),
    }
}

/// The parameters of `consultarBloco`: the block and whether to return its
/// processes (default `N`).
pub fn bloco_params(id_bloco: String, sin_retornar_protocolos: &Option<String>) -> (r: Result<
    Vec<(&'static str, String)>,
    AppError,
>)
    ensures
        match flag_of(opt_text(*sin_retornar_protocolos), false) {
            Ok(x) => r matches Ok(v) && pairs_view(v@) == seq![
                ("IdBloco"@, id_bloco@),
                ("SinRetornarProtocolos"@, x),
            ],
            Err(m) => r matches Err(AppError::BadRequest(x)) && x@ == m,
        },
{
    let ghost b = id_bloco@;
    match flag_sn(sin_retornar_protocolos, false) {
        Ok(srp) => {
            let ghost s = srp@;
            let v: Vec<(&'static str, String)> = vec![("IdBloco", id_bloco), ("SinRetornarProtocolos", srp)];
            assert(pairs_view(v@) =~= seq![("IdBloco"@, b), ("SinRetornarProtocolos"@, s)]);
            Ok(v)
        },
        Err(e) => Err(e),
    }
}

/// A required parameter: present and not empty.
pub open spec fn required_of(opt: Option<Seq<char>>) -> Option<Seq<char>> {
    match opt {
        Some(v) => if v.len() > 0 {
            Some(v)
        } else {
            None
        },
        None => None,
    }
}

/// The message of a missing required parameter.
pub open spec fn ausente_msg(nome: Seq<char>) -> Seq<char> {
    "parâmetro obrigatório ausente: "@ + nome
}

/// A required parameter, refused when absent or empty.
pub fn obrigatorio(opt: &Option<String>, nome: &str) -> (r: Result<String, AppError>)
    ensures
        match required_of(opt_text(*opt)) {
            Some(v) => r matches Ok(x) && x@ == v,
            None => r matches Err(AppError::BadRequest(m)) && m@ == ausente_msg(nome@),
        },
{
    match opt {
        Some(v) => if !v.as_str().is_empty() {
            return Ok(v.clone());
        },
        None => {},
    }
    let mut m = String::from_str("parâmetro obrigatório ausente: ");
    m.append(nome);
    Err(AppError::BadRequest(m))
}

/// The parameters of `consultarProcedimentoIndividual`: all four are
/// required, checked in this order.
pub open spec fn individual_of(q: ProcIndividualQuery) -> Result<Seq<(Seq<char>, Seq<char>)>, Seq<char>> {
    match required_of(opt_text(q.id_orgao_procedimento)) {
        None => Err(ausente_msg("id_orgao_procedimento"@)),
        Some(a) => match required_of(opt_text(q.id_tipo_procedimento)) {
            None => Err(ausente_msg("id_tipo_procedimento"@)),
            Some(b) => match required_of(opt_text(q.id_orgao_usuario)) {
                None => Err(ausente_msg("id_orgao_usuario"@)),
                Some(c) => match required_of(opt_text(q.sigla_usuario)) {
                    None => Err(ausente_msg("sigla_usuario"@)),
                    Some(d) => Ok(
                        seq![
                            ("IdOrgaoProcedimento"@, a),
                            ("IdTipoProcedimento"@, b),
                            ("IdOrgaoUsuario"@, c),
                            ("SiglaUsuario"@, d),
                        ],
                    ),
                },
            },
        },
    }
}

/// The parameters of `consultarProcedimentoIndividual`.
pub fn individual_params(q: &ProcIndividualQuery) -> (r: Result<Vec<(&'static str, String)>, AppError>)
    ensures
        match individual_of(*q) {
            Ok(ps) => r matches Ok(v) && pairs_view(v@) == ps,
            Err(m) => r matches Err(AppError::BadRequest(x)) && x@ == m,
        },
{
    let a = match obrigatorio(&q.id_orgao_procedimento, "id_orgao_procedimento") {
        Ok(v) => v,
        Err(e) => {
            return Err(e);
        },
    };
    let b = match obrigatorio(&q.id_tipo_procedimento, "id_tipo_procedimento") {
        Ok(v) => v,
        Err(e) => {
            return Err(e);
        },
    };
    let c = match obrigatorio(&q.id_orgao_usuario, "id_orgao_usuario") {
        Ok(v) => v,
        Err(e) => {
            return Err(e);
        },
    };
    let d = match obrigatorio(&q.sigla_usuario, "sigla_usuario") {
        Ok(v) => v,
        Err(e) => {
            return Err(e);
        },
    };
    let ghost (av, bv, cv, dv) = (a@, b@, c@, d@);
    let v: Vec<(&'static str, String)> = vec![
        ("IdOrgaoProcedimento", a),
        ("IdTipoProcedimento", b),
        ("IdOrgaoUsuario", c),
        ("SiglaUsuario", d),
    ];
    assert(pairs_view(v@) =~= seq![
        ("IdOrgaoProcedimento"@, av),
        ("IdTipoProcedimento"@, bv),
        ("IdOrgaoUsuario"@, cv),
        ("SiglaUsuario"@, dv),
    ]);
    Ok(v)
}

/// An identifier of a publication, present when not blank.
pub open spec fn nao_vazio(opt: Option<Seq<char>>) -> Option<Seq<char>> {
    match opt {
        Some(v) => if trimmed(v).len() > 0 {
            Some(v)
        } else {
            None
        },
        None => None,
    }
}

/// One entry, present only when the value is.
pub open spec fn entry_if(name: Seq<char>, v: Option<Seq<char>>) -> Seq<(Seq<char>, Seq<char>)> {
    match v {
        Some(x) => seq![(name, x)],
        None => Seq::empty(),
    }
}

/// The parameters of `consultarPublicacao`: at least one identifier (blank
/// ones count as absent) and the two flags (default `S`).
pub open spec fn publicacao_params_of(q: PublicacaoQuery) -> Result<Seq<(Seq<char>, Seq<char>)>, Seq<char>> {
    let a = nao_vazio(opt_text(q.id_publicacao));
    let b = nao_vazio(opt_text(q.id_documento));
    let c = nao_vazio(opt_text(q.protocolo_documento));
    if a is None && b is None && c is None {
        Err("informe ao menos um de: id_publicacao, id_documento ou protocolo_documento"@)
    } else {
        match flag_of(opt_text(q.sin_retornar_andamento), true) {
            Err(m) => Err(m),
            Ok(x) => match flag_of(opt_text(q.sin_retornar_assinaturas), true) {
                Err(m) => Err(m),
                Ok(y) => Ok(
                    entry_if("IdPublicacao"@, a) + entry_if("IdDocumento"@, b) + entry_if(
                        "ProtocoloDocumento"@,
                        c,
                    ) + seq![("SinRetornarAndamento"@, x), ("SinRetornarAssinaturas"@, y)],
                ),
            },
        }
    }
}

fn nao_vazio_exec(opt: &Option<String>) -> (r: Option<String>)
    ensures
        opt_text(r) == nao_vazio(opt_text(*opt)),
{
    match opt {
        Some(v) => {
            let t = trim_str(v.as_str());
            if t.as_str().is_empty() {
                None
            } else {
                Some(v.clone())
            }
        },
        None => None,
    }
}

/// The parameters of `consultarPublicacao`.
pub fn publicacao_extra(q: &PublicacaoQuery) -> (r: Result<Vec<(&'static str, String)>, AppError>)
    ensures
        match publicacao_params_of(*q) {
            Ok(ps) => r matches Ok(v) && pairs_view(v@) == ps,
            Err(m) => r matches Err(AppError::BadRequest(x)) && x@ == m,
        },
{
    let a = nao_vazio_exec(&q.id_publicacao);
    let b = nao_vazio_exec(&q.id_documento);
    let c = nao_vazio_exec(&q.protocolo_documento);
    if a.is_none() && b.is_none() && c.is_none() {
        return Err(
            AppError::BadRequest(
                String::from_str(
                    "informe ao menos um de: id_publicacao, id_documento ou protocolo_documento",
                ),
            ),
        );
    }
    let ghost (av, bv, cv) = (opt_text(a), opt_text(b), opt_text(c));
    let mut extra: Vec<(&'static str, String)> = Vec::new();
    if let Some(v) = a {
        extra.push(("IdPublicacao", v));
    }
    assert(pairs_view(extra@) =~= entry_if("IdPublicacao"@, av));
    let ghost e1 = pairs_view(extra@);
    if let Some(v) = b {
        extra.push(("IdDocumento", v));
    }
    assert(pairs_view(extra@) =~= e1 + entry_if("IdDocumento"@, bv));
    let ghost e2 = pairs_view(extra@);
    if let Some(v) = c {
        extra.push(("ProtocoloDocumento", v));
    }
    assert(pairs_view(extra@) =~= e2 + entry_if("ProtocoloDocumento"@, cv));
    let ghost e3 = pairs_view(extra@);
    let x = match sn(&q.sin_retornar_andamento) {
        Ok(v) => v,
        Err(e) => {
            return Err(e);
        },
    };
    let y = match sn(&q.sin_retornar_assinaturas) {
        Ok(v) => v,
        Err(e) => {
            return Err(e);
        },
    };
    let ghost (xv, yv) = (x@, y@);
    extra.push(("SinRetornarAndamento", x));
    extra.push(("SinRetornarAssinaturas", y));
    assert(pairs_view(extra@) =~= e3 + seq![
        ("SinRetornarAndamento"@, xv),
        ("SinRetornarAssinaturas"@, yv),
    ]);
    Ok(extra)
}

/// The processes (or documents) of a batch query: the comma-separated list,
/// required and not blank; its items trimmed, without the empty ones.
pub open spec fn protocolos_of(opt: Option<Seq<char>>) -> Option<Seq<Seq<char>>> {
    match opt {
        Some(v) => if trimmed(v).len() > 0 {
            Some(comma_items_of(v))
        } else {
            None
        },
        None => None,
    }
}

/// The list of a batch query, refused when absent or blank.
pub fn lista_protocolos(opt: &Option<String>) -> (r: Result<Vec<String>, AppError>)
    ensures
        match protocolos_of(opt_text(*opt)) {
            Some(ps) => r matches Ok(v) && texts(v@) == ps,
            None => r matches Err(AppError::BadRequest(m)) && m@ == ausente_msg("protocolos"@),
        },
{
    match opt {
        Some(v) => {
            let t = trim_str(v.as_str());
            if !t.as_str().is_empty() {
                return Ok(comma_items(v.as_str()));
            }
        },
        None => {},
    }
    let mut m = String::from_str("parâmetro obrigatório ausente: ");
    m.append("protocolos");
    Err(AppError::BadRequest(m))
}

/// Whether a process is concluded, from the units where it is still open:
/// `true` when none is (the field is `nil` or an empty list), `false` when
/// some is (a list with units, or a single unit), `null` when unknown (the
/// field is missing, or the units were not asked for, in which case the SEI
/// answers `nil` all the same).
pub open spec fn concluido_of(dados: JsonV, solicitadas: bool) -> JsonV {
    if !solicitadas {
        JsonV::Null
    } else {
        match member(dados, "UnidadesProcedimentoAberto"@) {
            None => JsonV::Null,
            Some(JsonV::Null) => JsonV::Bool(true),
            Some(JsonV::Arr(a)) => JsonV::Bool(a.len() == 0),
            Some(_) => JsonV::Bool(false),
        }
    }
}

/// Derives whether a process is concluded (see [`concluido_of`]).
pub fn concluido(dados: &Json, solicitadas: bool) -> (r: Json)
    ensures
        r@ == concluido_of(dados@, solicitadas),
{
    if !solicitadas {
        return Json::Null;
    }
    match dados.get("UnidadesProcedimentoAberto") {
        None => Json::Null,
        Some(Json::Null) => Json::Bool(true),
        Some(Json::Arr(a)) => {
            proof {
                lemma_arr_view(*a);
            }
            Json::Bool(a.len() == 0)
        },
        Some(_) => Json::Bool(false),
    }
}

/// The answer of a query: `{ok: true, dados}`.
pub open spec fn ok_of(dados: JsonV) -> JsonV {
    JsonV::Obj(seq![("ok"@, JsonV::Bool(true)), ("dados"@, dados)])
}

/// The answer of a query.
pub fn ok(dados: Json) -> (r: Json)
    ensures
        r@ == ok_of(dados@),
{
    let ghost d = dados@;
    let fields: Vec<(String, Json)> = vec![
        (String::from_str("ok"), Json::Bool(true)),
        (String::from_str("dados"), dados),
    ];
    proof {
        lemma_obj_view(fields);
        assert(member_views(fields@) =~= ok_of(d)->Obj_0);
    }
    Json::Obj(fields)
}

/// The answer of a process query: `{ok: true, dados, concluido}`.
pub open spec fn ok_proc_of(dados: JsonV, solicitadas: bool) -> JsonV {
    JsonV::Obj(
        seq![
            ("ok"@, JsonV::Bool(true)),
            ("dados"@, dados),
            ("concluido"@, concluido_of(dados, solicitadas)),
        ],
    )
}

/// The answer of a process query, with whether it is concluded.
pub fn ok_proc(dados: Json, solicitadas: bool) -> (r: Json)
    ensures
        r@ == ok_proc_of(dados@, solicitadas),
{
    let ghost d = dados@;
    let c = concluido(&dados, solicitadas);
    let fields: Vec<(String, Json)> = vec![
        (String::from_str("ok"), Json::Bool(true)),
        (String::from_str("dados"), dados),
        (String::from_str("concluido"), c),
    ];
    proof {
        lemma_obj_view(fields);
        assert(member_views(fields@) =~= ok_proc_of(d, solicitadas)->Obj_0);
    }
    Json::Obj(fields)
}

/// The answer of a timeline query: `{ok: true, dados, resumo}`.
pub open spec fn ok_com_resumo_of(dados: JsonV, resumo: JsonV) -> JsonV {
    JsonV::Obj(seq![("ok"@, JsonV::Bool(true)), ("dados"@, dados), ("resumo"@, resumo)])
}

/// The answer of a timeline query, with its summary.
pub fn ok_com_resumo(dados: Json, resumo: Json) -> (r: Json)
    ensures
        r@ == ok_com_resumo_of(dados@, resumo@),
{
    let ghost d = dados@;
    let ghost s = resumo@;
    let fields: Vec<(String, Json)> = vec![
        (String::from_str("ok"), Json::Bool(true)),
        (String::from_str("dados"), dados),
        (String::from_str("resumo"), resumo),
    ];
    proof {
        lemma_obj_view(fields);
        assert(member_views(fields@) =~= ok_com_resumo_of(d, s)->Obj_0);
    }
    Json::Obj(fields)
}


/// The item of one process (with `solicitadas`) or document (without) of a
/// batch query: its data, or the text of its error.
pub open spec fn item_of(p: Seq<char>, r: Result<JsonV, AppError>, solicitadas: Option<bool>) -> JsonV {
    match solicitadas {
        Some(s) => match r {
            Ok(d) => JsonV::Obj(
                seq![
                    ("protocolo"@, JsonV::Str(p)),
                    ("dados"@, d),
                    ("concluido"@, concluido_of(d, s)),
                    ("erro"@, JsonV::Null),
                ],
            ),
            Err(e) => JsonV::Obj(
                seq![
                    ("protocolo"@, JsonV::Str(p)),
                    ("dados"@, JsonV::Null),
                    ("concluido"@, JsonV::Null),
                    ("erro"@, JsonV::Str(mensagem_of(e))),
                ],
            ),
        },
        None => match r {
            Ok(d) => JsonV::Obj(
                seq![("protocolo"@, JsonV::Str(p)), ("dados"@, d), ("erro"@, JsonV::Null)],
            ),
            Err(e) => JsonV::Obj(
                seq![
                    ("protocolo"@, JsonV::Str(p)),
                    ("dados"@, JsonV::Null),
                    ("erro"@, JsonV::Str(mensagem_of(e))),
                ],
            ),
        },
    }
}

/// The first failure of the SEI's infrastructure among the results.
pub open spec fn first_transient(rv: Seq<Result<JsonV, AppError>>) -> Option<AppError>
    decreases rv.len(),
{
    if rv.len() == 0 {
        None
    } else {
        match first_transient(rv.drop_last()) {
            Some(e) => Some(e),
            None => match rv.last() {
                Err(e) => if is_infra_failure(e) {
                    Some(e)
                } else {
                    None
                },
                Ok(_) => None,
            },
        }
    }
}

/// Whether some result succeeded.
pub open spec fn algum_sucesso(rv: Seq<Result<JsonV, AppError>>) -> bool {
    exists|i: int| 0 <= i < rv.len() && #[trigger] rv[i] is Ok
}

/// The answer of a batch query: `{ok: true, itens}`.
pub open spec fn itens_of(itens: Seq<JsonV>) -> JsonV {
    JsonV::Obj(seq![("ok"@, JsonV::Bool(true)), ("itens"@, JsonV::Arr(itens))])
}

/// The answer of a batch query whose items went as `rv`: when none
/// succeeded and one failed for the SEI's infrastructure, the first such
/// failure is the answer (not a success with every item failed); otherwise
/// every item, in order, with its data or error.
pub open spec fn lote_of(ps: Seq<Seq<char>>, rv: Seq<Result<JsonV, AppError>>, solicitadas: Option<bool>) -> Result<JsonV, AppError> {
    if !algum_sucesso(rv) && first_transient(rv) is Some {
        Err(first_transient(rv)->0)
    } else {
        Ok(itens_of(Seq::new(rv.len(), |i: int| item_of(ps[i], rv[i], solicitadas))))
    }
}

fn item_exec(p: &String, r: &Result<Json, AppError>, solicitadas: Option<bool>) -> (j: Json)
    ensures
        j@ == item_of(p@, result_view(*r), solicitadas),
{
    let ghost pv = p@;
    match solicitadas {
        Some(s) => match r {
            Ok(d) => {
                let ghost dv = d@;
                let fields: Vec<(String, Json)> = vec![
                    (String::from_str("protocolo"), Json::Str(p.clone())),
                    (String::from_str("dados"), d.copy()),
                    (String::from_str("concluido"), concluido(d, s)),
                    (String::from_str("erro"), Json::Null),
                ];
                proof {
                    lemma_obj_view(fields);
                    assert(member_views(fields@) =~= item_of(pv, Ok(dv), solicitadas)->Obj_0);
                }
                Json::Obj(fields)
            },
            Err(e) => {
                let fields: Vec<(String, Json)> = vec![
                    (String::from_str("protocolo"), Json::Str(p.clone())),
                    (String::from_str("dados"), Json::Null),
                    (String::from_str("concluido"), Json::Null),
                    (String::from_str("erro"), Json::Str(e.mensagem())),
                ];
                proof {
                    lemma_obj_view(fields);
                    assert(member_views(fields@) =~= item_of(pv, Err(*e), solicitadas)->Obj_0);
                }
                Json::Obj(fields)
            },
        },
        None => match r {
            Ok(d) => {
                let ghost dv = d@;
                let fields: Vec<(String, Json)> = vec![
                    (String::from_str("protocolo"), Json::Str(p.clone())),
                    (String::from_str("dados"), d.copy()),
                    (String::from_str("erro"), Json::Null),
                ];
                proof {
                    lemma_obj_view(fields);
                    assert(member_views(fields@) =~= item_of(pv, Ok(dv), solicitadas)->Obj_0);
                }
                Json::Obj(fields)
            },
            Err(e) => {
                let fields: Vec<(String, Json)> = vec![
                    (String::from_str("protocolo"), Json::Str(p.clone())),
                    (String::from_str("dados"), Json::Null),
                    (String::from_str("erro"), Json::Str(e.mensagem())),
                ];
                proof {
                    lemma_obj_view(fields);
                    assert(member_views(fields@) =~= item_of(pv, Err(*e), solicitadas)->Obj_0);
                }
                Json::Obj(fields)
            },
        },
    }
}

fn agregar_lote(protocolos: &Vec<String>, resultados: &Vec<Result<Json, AppError>>, solicitadas: Option<bool>) -> (r: Result<Json, AppError>)
    requires
        protocolos@.len() == resultados@.len(),
    ensures
        match lote_of(texts(protocolos@), results_view(resultados@), solicitadas) {
            Ok(j) => r matches Ok(x) && x@ == j,
            Err(e) => r == Err::<Json, AppError>(e),
        },
{
    let ghost rv = results_view(resultados@);
    let ghost ps = texts(protocolos@);
    let mut itens: Vec<Json> = Vec::new();
    let mut sucesso = false;
    let mut transitorio: Option<AppError> = None;
    let mut i: usize = 0;
    while i < resultados.len()
        invariant
            i <= resultados@.len(),
            protocolos@.len() == resultados@.len(),
            rv == results_view(resultados@),
            ps == texts(protocolos@),
            views(itens@) == Seq::new(i as nat, |k: int| item_of(ps[k], rv[k], solicitadas)),
            sucesso == algum_sucesso(rv.take(i as int)),
            transitorio == first_transient(rv.take(i as int)),
        decreases resultados@.len() - i,
    {
        let ghost pre = rv.take(i as int);
        let ghost pre1 = rv.take(i + 1);
        assert(pre1.drop_last() =~= pre);
        assert(pre1.last() == rv[i as int]);
        let it = item_exec(&protocolos[i], &resultados[i], solicitadas);
        assert(ps[i as int] == protocolos@[i as int]@);
        assert(rv[i as int] == result_view(resultados@[i as int]));
        let ghost before = views(itens@);
        itens.push(it);
        assert(views(itens@) =~= before.push(it@));
        assert(views(itens@) =~= Seq::new((i + 1) as nat, |k: int| item_of(ps[k], rv[k], solicitadas)));
        match &resultados[i] {
            Ok(_) => {
                sucesso = true;
                assert(pre1[i as int] is Ok);
            },
            Err(e) => {
                if e.permite_stale() && transitorio.is_none() {
                    transitorio = Some(e.clone());
                }
                proof {
                    if algum_sucesso(pre1) {
                        let k = choose|k: int| 0 <= k < pre1.len() && #[trigger] pre1[k] is Ok;
                        assert(k < i);
                        assert(pre[k] is Ok);
                    }
                    if algum_sucesso(pre) {
                        let k = choose|k: int| 0 <= k < pre.len() && #[trigger] pre[k] is Ok;
                        assert(pre1[k] is Ok);
                    }
                }
            },
        }
        proof {
            if algum_sucesso(pre) {
                let k = choose|k: int| 0 <= k < pre.len() && #[trigger] pre[k] is Ok;
                assert(pre1[k] is Ok);
            }
        }
        i = i + 1;
    }
    assert(rv.take(i as int) =~= rv);
    if !sucesso {
        match transitorio {
            Some(e) => {
                return Err(e);
            },
            None => {},
        }
    }
    proof {
        lemma_arr_view(itens);
    }
    let ghost iv = views(itens@);
    let fields: Vec<(String, Json)> = vec![
        (String::from_str("ok"), Json::Bool(true)),
        (String::from_str("itens"), Json::Arr(itens)),
    ];
    proof {
        lemma_obj_view(fields);
        assert(member_views(fields@) =~= itens_of(iv)->Obj_0);
        assert(iv =~= Seq::new(rv.len(), |k: int| item_of(ps[k], rv[k], solicitadas)));
    }
    Ok(Json::Obj(fields))
}

/// The answer of `/procedimentos` from the result of each process's query
/// (see [`lote_of`]); each item says whether its process is concluded.
pub fn agregar_procedimentos(protocolos: &Vec<String>, resultados: &Vec<Result<Json, AppError>>, solicitadas: bool) -> (r: Result<Json, AppError>)
    requires
        protocolos@.len() == resultados@.len(),
    ensures
        match lote_of(texts(protocolos@), results_view(resultados@), Some(solicitadas)) {
            Ok(j) => r matches Ok(x) && x@ == j,
            Err(e) => r == Err::<Json, AppError>(e),
        },
{
    agregar_lote(protocolos, resultados, Some(solicitadas))
}

/// The answer of `/documentos` from the result of each document's query
/// (see [`lote_of`]).
pub fn agregar_documentos(protocolos: &Vec<String>, resultados: &Vec<Result<Json, AppError>>) -> (r: Result<Json, AppError>)
    requires
        protocolos@.len() == resultados@.len(),
    ensures
        match lote_of(texts(protocolos@), results_view(resultados@), None) {
            Ok(j) => r matches Ok(x) && x@ == j,
            Err(e) => r == Err::<Json, AppError>(e),
        },
{
    agregar_lote(protocolos, resultados, None)
}

} // verus!
