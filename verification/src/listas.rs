//! The `listar*` operations: which filters of the query string each one
//! passes on to the SEI, and whether it sends the unit of the configuration.

use vstd::prelude::*;
use crate::envelope::Param;
use crate::sei::{pairs_view, scalar_params, scalars_of};
use crate::text::str_eq;

verus! {

/// The value of `k` in a query string given as its pairs in order: the last
/// one given, as a map filled from the pairs in order keeps it.
pub open spec fn query_get(q: Seq<(String, String)>, k: Seq<char>) -> Option<Seq<char>>
    decreases q.len(),
{
    if q.len() == 0 {
        None
    } else if q.last().0@ == k {
        Some(q.last().1@)
    } else {
        query_get(q.drop_last(), k)
    }
}

/// The names of (query key, SEI parameter) pairs.
pub open spec fn filtros_view(pairs: Seq<(&str, &'static str)>) -> Seq<(Seq<char>, Seq<char>)> {
    Seq::new(pairs.len(), |i: int| (pairs[i].0@, pairs[i].1@))
}

/// The SEI parameters of the filters present in the query: for each
/// (query key, SEI parameter) pair, in order, the query's value when it is
/// given and not empty.
pub open spec fn pick_of(q: Seq<(String, String)>, pairs: Seq<(Seq<char>, Seq<char>)>) -> Seq<
    (Seq<char>, Seq<char>),
>
    decreases pairs.len(),
{
    if pairs.len() == 0 {
        Seq::empty()
    } else {
        let p = pick_of(q, pairs.drop_last());
        match query_get(q, pairs.last().0) {
            Some(v) => if v.len() > 0 {
                p.push((pairs.last().1, v))
            } else {
                p
            },
            None => p,
        }
    }
}

fn query_get_exec<'a>(q: &'a Vec<(String, String)>, k: &str) -> (r: Option<&'a String>)
    ensures
        match r {
            Some(v) => query_get(q@, k@) == Some(v@),
            None => query_get(q@, k@) is None,
        },
{
    let mut j: usize = q.len();
    assert(q@.take(j as int) =~= q@);
    while j > 0
        invariant
            j <= q@.len(),
            query_get(q@, k@) == query_get(q@.take(j as int), k@),
        decreases j,
    {
        let ghost pre = q@.take(j as int);
        assert(pre.drop_last() =~= q@.take(j - 1));
        assert(pre.last() == q@[j - 1]);
        if str_eq(q[j - 1].0.as_str(), k) {
            return Some(&q[j - 1].1);
        }
        j = j - 1;
    }
    None
}

/// For each (query key, SEI parameter) pair, includes the filter when the
/// query gives it and it is not empty.
pub fn pick(map: &Vec<(String, String)>, pairs: &[(&str, &'static str)]) -> (r: Vec<(&'static str, String)>)
    ensures
        pairs_view(r@) == pick_of(map@, filtros_view(pairs@)),
{
    let ghost fv = filtros_view(pairs@);
    let mut r: Vec<(&'static str, String)> = Vec::new();
    let mut i: usize = 0;
    while i < pairs.len()
        invariant
            i <= pairs@.len(),
            fv == filtros_view(pairs@),
            pairs_view(r@) == pick_of(map@, fv.take(i as int)),
        decreases pairs@.len() - i,
    {
        assert(fv.take(i + 1).drop_last() =~= fv.take(i as int));
        assert(fv.take(i + 1).last() == (pairs@[i as int].0@, pairs@[i as int].1@));
        let (qk, sei) = pairs[i];
        match query_get_exec(map, qk) {
            Some(v) => {
                if !v.as_str().is_empty() {
                    let ghost before = pairs_view(r@);
                    r.push((sei, v.clone()));
                    assert(pairs_view(r@) =~= before.push((sei@, v@)));
                }
            },
            None => {},
        }
        i = i + 1;
    }
    assert(fv.take(i as int) =~= fv);
    r
}

/// A `listar*` operation: its name, whether it sends the unit, and its
/// (query key, SEI parameter) filters.
pub struct ListaOp {
    pub operacao: &'static str,
    pub include_unidade: bool,
    pub filtros: Vec<(&'static str, &'static str)>,
}

/// The model of a `listar*` operation.
pub open spec fn lista_view(l: ListaOp) -> (Seq<char>, bool, Seq<(Seq<char>, Seq<char>)>) {
    (l.operacao@, l.include_unidade, filtros_view(l.filtros@))
}

/// The `listar*` operation of each list endpoint. The unit of the
/// configuration is not sent for the lists that would be narrowed by it.
pub open spec fn lista_of(nome: Seq<char>) -> Option<(Seq<char>, bool, Seq<(Seq<char>, Seq<char>)>)> {
    if nome == "unidades"@ {
        Some(("listarUnidades"@, false, seq![("id_tipo_procedimento"@, "IdTipoProcedimento"@), ("id_serie"@, "IdSerie"@)]))
    } else     if nome == "series"@ {
        Some(("listarSeries"@, false, seq![("id_unidade"@, "IdUnidade"@), ("id_tipo_procedimento"@, "IdTipoProcedimento"@)]))
    } else     if nome == "tipos_procedimento"@ {
        Some(("listarTiposProcedimento"@, false, seq![("id_unidade"@, "IdUnidade"@), ("id_serie"@, "IdSerie"@)]))
    } else     if nome == "tipos_procedimento_ouvidoria"@ {
        Some(("listarTiposProcedimentoOuvidoria"@, false, Seq::empty()))
    } else     if nome == "tipos_conferencia"@ {
        Some(("listarTiposConferencia"@, false, seq![("id_unidade"@, "IdUnidade"@)]))
    } else     if nome == "paises"@ {
        Some(("listarPaises"@, true, Seq::empty()))
    } else     if nome == "estados"@ {
        Some(("listarEstados"@, true, seq![("id_pais"@, "IdPais"@)]))
    } else     if nome == "cidades"@ {
        Some(("listarCidades"@, true, seq![("id_pais"@, "IdPais"@), ("id_estado"@, "IdEstado"@)]))
    } else     if nome == "cargos"@ {
        Some(("listarCargos"@, true, seq![("id_cargo"@, "IdCargo"@)]))
    } else     if nome == "hipoteses_legais"@ {
        Some(("listarHipotesesLegais"@, true, seq![("nivel_acesso"@, "NivelAcesso"@)]))
    } else     if nome == "extensoes_permitidas"@ {
        Some(("listarExtensoesPermitidas"@, true, seq![("id_arquivo_extensao"@, "IdArquivoExtensao"@)]))
    } else     if nome == "marcadores_unidade"@ {
        Some(("listarMarcadoresUnidade"@, true, Seq::empty()))
    } else     if nome == "usuarios"@ {
        Some(("listarUsuarios"@, true, seq![("id_usuario"@, "IdUsuario"@)]))
    } else     if nome == "feriados"@ {
        Some(("listarFeriados"@, true, seq![("id_orgao"@, "IdOrgao"@), ("data_inicial"@, "DataInicial"@), ("data_final"@, "DataFinal"@)]))
    } else     if nome == "contatos"@ {
        Some(("listarContatos"@, true, seq![("id_tipo_contato"@, "IdTipoContato"@), ("pagina_registros"@, "PaginaRegistros"@), ("pagina_atual"@, "PaginaAtual"@), ("sigla"@, "Sigla"@), ("nome"@, "Nome"@), ("cpf"@, "CPF"@), ("cnpj"@, "CNPJ"@), ("matricula"@, "Matricula"@)]))
    } else {
        None
    }
}

/// The `listar*` operation behind a list endpoint, by the endpoint's name.
pub fn lista(nome: &str) -> (r: Option<ListaOp>)
    ensures
        match r {
            Some(l) => lista_of(nome@) == Some(lista_view(l)),
            None => lista_of(nome@) is None,
        },
{
    if str_eq(nome, "unidades") {
        let filtros: Vec<(&'static str, &'static str)> = vec![("id_tipo_procedimento", "IdTipoProcedimento"), ("id_serie", "IdSerie")];
        let r = ListaOp { operacao: "listarUnidades", include_unidade: false, filtros };
        assert(lista_view(r) == lista_of(nome@)->0);
        return Some(r);
    }
    if str_eq(nome, "series") {
        let filtros: Vec<(&'static str, &'static str)> = vec![("id_unidade", "IdUnidade"), ("id_tipo_procedimento", "IdTipoProcedimento")];
        let r = ListaOp { operacao: "listarSeries", include_unidade: false, filtros };
        assert(lista_view(r) == lista_of(nome@)->0);
        return Some(r);
    }
    if str_eq(nome, "tipos_procedimento") {
        let filtros: Vec<(&'static str, &'static str)> = vec![("id_unidade", "IdUnidade"), ("id_serie", "IdSerie")];
        let r = ListaOp { operacao: "listarTiposProcedimento", include_unidade: false, filtros };
        assert(lista_view(r) == lista_of(nome@)->0);
        return Some(r);
    }
    if str_eq(nome, "tipos_procedimento_ouvidoria") {
        let filtros: Vec<(&'static str, &'static str)> = Vec::new();
        let r = ListaOp { operacao: "listarTiposProcedimentoOuvidoria", include_unidade: false, filtros };
        assert(lista_view(r) == lista_of(nome@)->0);
        return Some(r);
    }
    if str_eq(nome, "tipos_conferencia") {
        let filtros: Vec<(&'static str, &'static str)> = vec![("id_unidade", "IdUnidade")];
        let r = ListaOp { operacao: "listarTiposConferencia", include_unidade: false, filtros };
        assert(lista_view(r) == lista_of(nome@)->0);
        return Some(r);
    }
    if str_eq(nome, "paises") {
        let filtros: Vec<(&'static str, &'static str)> = Vec::new();
        let r = ListaOp { operacao: "listarPaises", include_unidade: true, filtros };
        assert(lista_view(r) == lista_of(nome@)->0);
        return Some(r);
    }
    if str_eq(nome, "estados") {
        let filtros: Vec<(&'static str, &'static str)> = vec![("id_pais", "IdPais")];
        let r = ListaOp { operacao: "listarEstados", include_unidade: true, filtros };
        assert(lista_view(r) == lista_of(nome@)->0);
        return Some(r);
    }
    if str_eq(nome, "cidades") {
        let filtros: Vec<(&'static str, &'static str)> = vec![("id_pais", "IdPais"), ("id_estado", "IdEstado")];
        let r = ListaOp { operacao: "listarCidades", include_unidade: true, filtros };
        assert(lista_view(r) == lista_of(nome@)->0);
        return Some(r);
    }
    if str_eq(nome, "cargos") {
        let filtros: Vec<(&'static str, &'static str)> = vec![("id_cargo", "IdCargo")];
        let r = ListaOp { operacao: "listarCargos", include_unidade: true, filtros };
        assert(lista_view(r) == lista_of(nome@)->0);
        return Some(r);
    }
    if str_eq(nome, "hipoteses_legais") {
        let filtros: Vec<(&'static str, &'static str)> = vec![("nivel_acesso", "NivelAcesso")];
        let r = ListaOp { operacao: "listarHipotesesLegais", include_unidade: true, filtros };
        assert(lista_view(r) == lista_of(nome@)->0);
        return Some(r);
    }
    if str_eq(nome, "extensoes_permitidas") {
        let filtros: Vec<(&'static str, &'static str)> = vec![("id_arquivo_extensao", "IdArquivoExtensao")];
        let r = ListaOp { operacao: "listarExtensoesPermitidas", include_unidade: true, filtros };
        assert(lista_view(r) == lista_of(nome@)->0);
        return Some(r);
    }
    if str_eq(nome, "marcadores_unidade") {
        let filtros: Vec<(&'static str, &'static str)> = Vec::new();
        let r = ListaOp { operacao: "listarMarcadoresUnidade", include_unidade: true, filtros };
        assert(lista_view(r) == lista_of(nome@)->0);
        return Some(r);
    }
    if str_eq(nome, "usuarios") {
        let filtros: Vec<(&'static str, &'static str)> = vec![("id_usuario", "IdUsuario")];
        let r = ListaOp { operacao: "listarUsuarios", include_unidade: true, filtros };
        assert(lista_view(r) == lista_of(nome@)->0);
        return Some(r);
    }
    if str_eq(nome, "feriados") {
        let filtros: Vec<(&'static str, &'static str)> = vec![("id_orgao", "IdOrgao"), ("data_inicial", "DataInicial"), ("data_final", "DataFinal")];
        let r = ListaOp { operacao: "listarFeriados", include_unidade: true, filtros };
        assert(lista_view(r) == lista_of(nome@)->0);
        return Some(r);
    }
    if str_eq(nome, "contatos") {
        let filtros: Vec<(&'static str, &'static str)> = vec![("id_tipo_contato", "IdTipoContato"), ("pagina_registros", "PaginaRegistros"), ("pagina_atual", "PaginaAtual"), ("sigla", "Sigla"), ("nome", "Nome"), ("cpf", "CPF"), ("cnpj", "CNPJ"), ("matricula", "Matricula")];
        let r = ListaOp { operacao: "listarContatos", include_unidade: true, filtros };
        assert(lista_view(r) == lista_of(nome@)->0);
        return Some(r);
    }
    None
}

/// The SEI parameters of a list query.
pub fn filtros_lista(q: &Vec<(String, String)>, l: &ListaOp) -> (r: Vec<(&'static str, String)>)
    ensures
        pairs_view(r@) == pick_of(q@, filtros_view(l.filtros@)),
{
    pick(q, l.filtros.as_slice())
}

/// The text of a scalar parameter.
pub open spec fn scalar_text(p: Param) -> Option<Seq<char>> {
    match p {
        Param::Scalar(v) => Some(v@),
        Param::Array(_) => None,
    }
}

/// The filters of `listarPermissao` (SIP).
pub open spec fn permissao_filtros() -> Seq<(Seq<char>, Seq<char>)> {
    seq![
        ("id_orgao_usuario"@, "IdOrgaoUsuario"@),
        ("id_usuario"@, "IdUsuario"@),
        ("id_origem_usuario"@, "IdOrigemUsuario"@),
        ("id_orgao_unidade"@, "IdOrgaoUnidade"@),
        ("id_unidade"@, "IdUnidade"@),
        ("id_origem_unidade"@, "IdOrigemUnidade"@),
        ("id_perfil"@, "IdPerfil"@),
    ]
}

/// The parameters of a `listarPermissao` query: the filters given and not
/// empty, as scalars.
pub fn permissao_extra(q: &Vec<(String, String)>) -> (r: Vec<(&'static str, Param)>)
    ensures
        r@.len() == pick_of(q@, permissao_filtros()).len(),
        forall|i: int|
            0 <= i < r@.len() ==> (#[trigger] r@[i]).0@ == pick_of(q@, permissao_filtros())[i].0
                && scalar_text(r@[i].1) == Some(pick_of(q@, permissao_filtros())[i].1),
{
    let pairs: Vec<(&'static str, &'static str)> = vec![
        ("id_orgao_usuario", "IdOrgaoUsuario"),
        ("id_usuario", "IdUsuario"),
        ("id_origem_usuario", "IdOrigemUsuario"),
        ("id_orgao_unidade", "IdOrgaoUnidade"),
        ("id_unidade", "IdUnidade"),
        ("id_origem_unidade", "IdOrigemUnidade"),
        ("id_perfil", "IdPerfil"),
    ];
    assert(filtros_view(pairs@) =~= permissao_filtros());
    let e = pick(q, pairs.as_slice());
    let r = scalar_params(e.as_slice());
    assert forall|i: int| 0 <= i < r@.len() implies (#[trigger] r@[i]).0@ == pairs_view(e@)[i].0
        && scalar_text(r@[i].1) == Some(pairs_view(e@)[i].1) by {
        assert(r@[i] == scalars_of(e@)[i]);
    }
    r
}


/// The SEI parameter `p` with the value of the query's `k`, when the query
/// gives one that is not empty; nothing otherwise.
pub open spec fn filtro_de(q: Seq<(String, String)>, k: Seq<char>, p: Seq<char>) -> Seq<(Seq<char>, Seq<char>)> {
    match query_get(q, k) {
        Some(v) => if v.len() > 0 {
            seq![(p, v)]
        } else {
            Seq::empty()
        },
        None => Seq::empty(),
    }
}

proof fn lemma_pick_empty(q: Seq<(String, String)>)
    ensures
        pick_of(q, Seq::empty()) == Seq::<(Seq<char>, Seq<char>)>::empty(),
{
}

proof fn lemma_pick_push(q: Seq<(String, String)>, s: Seq<(Seq<char>, Seq<char>)>, x: (Seq<char>, Seq<char>))
    ensures
        pick_of(q, s.push(x)) == pick_of(q, s) + filtro_de(q, x.0, x.1),
{
    assert(s.push(x).drop_last() =~= s);
    assert(s.push(x).last() == x);
    assert(pick_of(q, s) + Seq::<(Seq<char>, Seq<char>)>::empty() =~= pick_of(q, s));
    assert(pick_of(q, s) + seq![(x.1, query_get(q, x.0)->0)] =~= pick_of(q, s).push((x.1, query_get(q, x.0)->0)));
}

/// What each list endpoint asks the SEI for, whatever the query: its
/// `listar*` operation, whether the unit of the configuration goes along,
/// and, in order, each of its filters whose query key is given and not
/// empty, under the SEI's parameter name (`estados`, for one, sends
/// `id_pais` as `IdPais`, so it lists the states of that country only).
pub proof fn law_listas_e_filtros(q: Seq<(String, String)>)
    ensures
        lista_of("unidades"@) matches Some((op, u, f)) && op == "listarUnidades"@ && u == false && pick_of(q, f) == filtro_de(q, "id_tipo_procedimento"@, "IdTipoProcedimento"@) + filtro_de(q, "id_serie"@, "IdSerie"@),
        lista_of("series"@) matches Some((op, u, f)) && op == "listarSeries"@ && u == false && pick_of(q, f) == filtro_de(q, "id_unidade"@, "IdUnidade"@) + filtro_de(q, "id_tipo_procedimento"@, "IdTipoProcedimento"@),
        lista_of("tipos_procedimento"@) matches Some((op, u, f)) && op == "listarTiposProcedimento"@ && u == false && pick_of(q, f) == filtro_de(q, "id_unidade"@, "IdUnidade"@) + filtro_de(q, "id_serie"@, "IdSerie"@),
        lista_of("tipos_procedimento_ouvidoria"@) matches Some((op, u, f)) && op == "listarTiposProcedimentoOuvidoria"@ && u == false && pick_of(q, f) == Seq::<(Seq<char>, Seq<char>)>::empty(),
        lista_of("tipos_conferencia"@) matches Some((op, u, f)) && op == "listarTiposConferencia"@ && u == false && pick_of(q, f) == filtro_de(q, "id_unidade"@, "IdUnidade"@),
        lista_of("paises"@) matches Some((op, u, f)) && op == "listarPaises"@ && u == true && pick_of(q, f) == Seq::<(Seq<char>, Seq<char>)>::empty(),
        lista_of("estados"@) matches Some((op, u, f)) && op == "listarEstados"@ && u == true && pick_of(q, f) == filtro_de(q, "id_pais"@, "IdPais"@),
        lista_of("cidades"@) matches Some((op, u, f)) && op == "listarCidades"@ && u == true && pick_of(q, f) == filtro_de(q, "id_pais"@, "IdPais"@) + filtro_de(q, "id_estado"@, "IdEstado"@),
        lista_of("cargos"@) matches Some((op, u, f)) && op == "listarCargos"@ && u == true && pick_of(q, f) == filtro_de(q, "id_cargo"@, "IdCargo"@),
        lista_of("hipoteses_legais"@) matches Some((op, u, f)) && op == "listarHipotesesLegais"@ && u == true && pick_of(q, f) == filtro_de(q, "nivel_acesso"@, "NivelAcesso"@),
        lista_of("extensoes_permitidas"@) matches Some((op, u, f)) && op == "listarExtensoesPermitidas"@ && u == true && pick_of(q, f) == filtro_de(q, "id_arquivo_extensao"@, "IdArquivoExtensao"@),
        lista_of("marcadores_unidade"@) matches Some((op, u, f)) && op == "listarMarcadoresUnidade"@ && u == true && pick_of(q, f) == Seq::<(Seq<char>, Seq<char>)>::empty(),
        lista_of("usuarios"@) matches Some((op, u, f)) && op == "listarUsuarios"@ && u == true && pick_of(q, f) == filtro_de(q, "id_usuario"@, "IdUsuario"@),
        lista_of("feriados"@) matches Some((op, u, f)) && op == "listarFeriados"@ && u == true && pick_of(q, f) == filtro_de(q, "id_orgao"@, "IdOrgao"@) + filtro_de(q, "data_inicial"@, "DataInicial"@) + filtro_de(q, "data_final"@, "DataFinal"@),
        lista_of("contatos"@) matches Some((op, u, f)) && op == "listarContatos"@ && u == true && pick_of(q, f) == filtro_de(q, "id_tipo_contato"@, "IdTipoContato"@) + filtro_de(q, "pagina_registros"@, "PaginaRegistros"@) + filtro_de(q, "pagina_atual"@, "PaginaAtual"@) + filtro_de(q, "sigla"@, "Sigla"@) + filtro_de(q, "nome"@, "Nome"@) + filtro_de(q, "cpf"@, "CPF"@) + filtro_de(q, "cnpj"@, "CNPJ"@) + filtro_de(q, "matricula"@, "Matricula"@),
{
    reveal_strlit("unidades");
    reveal_strlit("series");
    reveal_strlit("tipos_procedimento");
    reveal_strlit("tipos_procedimento_ouvidoria");
    reveal_strlit("tipos_conferencia");
    reveal_strlit("paises");
    reveal_strlit("estados");
    reveal_strlit("cidades");
    reveal_strlit("cargos");
    reveal_strlit("hipoteses_legais");
    reveal_strlit("extensoes_permitidas");
    reveal_strlit("marcadores_unidade");
    reveal_strlit("usuarios");
    reveal_strlit("feriados");
    reveal_strlit("contatos");
    lemma_pick_empty(q);
    assert(lista_of("unidades"@) matches Some((op, u, f)) && op == "listarUnidades"@ && u == false && pick_of(q, f) == filtro_de(q, "id_tipo_procedimento"@, "IdTipoProcedimento"@) + filtro_de(q, "id_serie"@, "IdSerie"@)) by {
        reveal_strlit("unidades");
        lemma_pick_push(q, Seq::<(Seq<char>, Seq<char>)>::empty(), ("id_tipo_procedimento"@, "IdTipoProcedimento"@));
        lemma_pick_push(q, Seq::<(Seq<char>, Seq<char>)>::empty().push(("id_tipo_procedimento"@, "IdTipoProcedimento"@)), ("id_serie"@, "IdSerie"@));
        assert(seq![("id_tipo_procedimento"@, "IdTipoProcedimento"@), ("id_serie"@, "IdSerie"@)] =~= Seq::<(Seq<char>, Seq<char>)>::empty().push(("id_tipo_procedimento"@, "IdTipoProcedimento"@)).push(("id_serie"@, "IdSerie"@)));
        assert(pick_of(q, seq![("id_tipo_procedimento"@, "IdTipoProcedimento"@), ("id_serie"@, "IdSerie"@)]) =~= filtro_de(q, "id_tipo_procedimento"@, "IdTipoProcedimento"@) + filtro_de(q, "id_serie"@, "IdSerie"@));
    }
    assert(lista_of("series"@) matches Some((op, u, f)) && op == "listarSeries"@ && u == false && pick_of(q, f) == filtro_de(q, "id_unidade"@, "IdUnidade"@) + filtro_de(q, "id_tipo_procedimento"@, "IdTipoProcedimento"@)) by {
        reveal_strlit("series");
        reveal_strlit("unidades");
        assert("series"@.len() == 6 && "unidades"@.len() == 8);
        assert("series"@ != "unidades"@);
        lemma_pick_push(q, Seq::<(Seq<char>, Seq<char>)>::empty(), ("id_unidade"@, "IdUnidade"@));
        lemma_pick_push(q, Seq::<(Seq<char>, Seq<char>)>::empty().push(("id_unidade"@, "IdUnidade"@)), ("id_tipo_procedimento"@, "IdTipoProcedimento"@));
        assert(seq![("id_unidade"@, "IdUnidade"@), ("id_tipo_procedimento"@, "IdTipoProcedimento"@)] =~= Seq::<(Seq<char>, Seq<char>)>::empty().push(("id_unidade"@, "IdUnidade"@)).push(("id_tipo_procedimento"@, "IdTipoProcedimento"@)));
        assert(pick_of(q, seq![("id_unidade"@, "IdUnidade"@), ("id_tipo_procedimento"@, "IdTipoProcedimento"@)]) =~= filtro_de(q, "id_unidade"@, "IdUnidade"@) + filtro_de(q, "id_tipo_procedimento"@, "IdTipoProcedimento"@));
    }
    assert(lista_of("tipos_procedimento"@) matches Some((op, u, f)) && op == "listarTiposProcedimento"@ && u == false && pick_of(q, f) == filtro_de(q, "id_unidade"@, "IdUnidade"@) + filtro_de(q, "id_serie"@, "IdSerie"@)) by {
        reveal_strlit("tipos_procedimento");
        reveal_strlit("unidades");
        assert("tipos_procedimento"@.len() == 18 && "unidades"@.len() == 8);
        assert("tipos_procedimento"@ != "unidades"@);
        reveal_strlit("series");
        assert("tipos_procedimento"@.len() == 18 && "series"@.len() == 6);
        assert("tipos_procedimento"@ != "series"@);
        lemma_pick_push(q, Seq::<(Seq<char>, Seq<char>)>::empty(), ("id_unidade"@, "IdUnidade"@));
        lemma_pick_push(q, Seq::<(Seq<char>, Seq<char>)>::empty().push(("id_unidade"@, "IdUnidade"@)), ("id_serie"@, "IdSerie"@));
        assert(seq![("id_unidade"@, "IdUnidade"@), ("id_serie"@, "IdSerie"@)] =~= Seq::<(Seq<char>, Seq<char>)>::empty().push(("id_unidade"@, "IdUnidade"@)).push(("id_serie"@, "IdSerie"@)));
        assert(pick_of(q, seq![("id_unidade"@, "IdUnidade"@), ("id_serie"@, "IdSerie"@)]) =~= filtro_de(q, "id_unidade"@, "IdUnidade"@) + filtro_de(q, "id_serie"@, "IdSerie"@));
    }
    assert(lista_of("tipos_procedimento_ouvidoria"@) matches Some((op, u, f)) && op == "listarTiposProcedimentoOuvidoria"@ && u == false && pick_of(q, f) == Seq::<(Seq<char>, Seq<char>)>::empty()) by {
        reveal_strlit("tipos_procedimento_ouvidoria");
        reveal_strlit("unidades");
        assert("tipos_procedimento_ouvidoria"@.len() == 28 && "unidades"@.len() == 8);
        assert("tipos_procedimento_ouvidoria"@ != "unidades"@);
        reveal_strlit("series");
        assert("tipos_procedimento_ouvidoria"@.len() == 28 && "series"@.len() == 6);
        assert("tipos_procedimento_ouvidoria"@ != "series"@);
        reveal_strlit("tipos_procedimento");
        assert("tipos_procedimento_ouvidoria"@.len() == 28 && "tipos_procedimento"@.len() == 18);
        assert("tipos_procedimento_ouvidoria"@ != "tipos_procedimento"@);
    }
    assert(lista_of("tipos_conferencia"@) matches Some((op, u, f)) && op == "listarTiposConferencia"@ && u == false && pick_of(q, f) == filtro_de(q, "id_unidade"@, "IdUnidade"@)) by {
        reveal_strlit("tipos_conferencia");
        reveal_strlit("unidades");
        assert("tipos_conferencia"@.len() == 17 && "unidades"@.len() == 8);
        assert("tipos_conferencia"@ != "unidades"@);
        reveal_strlit("series");
        assert("tipos_conferencia"@.len() == 17 && "series"@.len() == 6);
        assert("tipos_conferencia"@ != "series"@);
        reveal_strlit("tipos_procedimento");
        assert("tipos_conferencia"@.len() == 17 && "tipos_procedimento"@.len() == 18);
        assert("tipos_conferencia"@ != "tipos_procedimento"@);
        reveal_strlit("tipos_procedimento_ouvidoria");
        assert("tipos_conferencia"@.len() == 17 && "tipos_procedimento_ouvidoria"@.len() == 28);
        assert("tipos_conferencia"@ != "tipos_procedimento_ouvidoria"@);
        lemma_pick_push(q, Seq::<(Seq<char>, Seq<char>)>::empty(), ("id_unidade"@, "IdUnidade"@));
        assert(seq![("id_unidade"@, "IdUnidade"@)] =~= Seq::<(Seq<char>, Seq<char>)>::empty().push(("id_unidade"@, "IdUnidade"@)));
        assert(pick_of(q, seq![("id_unidade"@, "IdUnidade"@)]) =~= filtro_de(q, "id_unidade"@, "IdUnidade"@));
    }
    assert(lista_of("paises"@) matches Some((op, u, f)) && op == "listarPaises"@ && u == true && pick_of(q, f) == Seq::<(Seq<char>, Seq<char>)>::empty()) by {
        reveal_strlit("paises");
        reveal_strlit("unidades");
        assert("paises"@.len() == 6 && "unidades"@.len() == 8);
        assert("paises"@ != "unidades"@);
        reveal_strlit("series");
        assert("paises"@[0] == 'p' && "series"@[0] == 's');
        assert("paises"@ != "series"@);
        reveal_strlit("tipos_procedimento");
        assert("paises"@.len() == 6 && "tipos_procedimento"@.len() == 18);
        assert("paises"@ != "tipos_procedimento"@);
        reveal_strlit("tipos_procedimento_ouvidoria");
        assert("paises"@.len() == 6 && "tipos_procedimento_ouvidoria"@.len() == 28);
        assert("paises"@ != "tipos_procedimento_ouvidoria"@);
        reveal_strlit("tipos_conferencia");
        assert("paises"@.len() == 6 && "tipos_conferencia"@.len() == 17);
        assert("paises"@ != "tipos_conferencia"@);
    }
    assert(lista_of("estados"@) matches Some((op, u, f)) && op == "listarEstados"@ && u == true && pick_of(q, f) == filtro_de(q, "id_pais"@, "IdPais"@)) by {
        reveal_strlit("estados");
        reveal_strlit("unidades");
        assert("estados"@.len() == 7 && "unidades"@.len() == 8);
        assert("estados"@ != "unidades"@);
        reveal_strlit("series");
        assert("estados"@.len() == 7 && "series"@.len() == 6);
        assert("estados"@ != "series"@);
        reveal_strlit("tipos_procedimento");
        assert("estados"@.len() == 7 && "tipos_procedimento"@.len() == 18);
        assert("estados"@ != "tipos_procedimento"@);
        reveal_strlit("tipos_procedimento_ouvidoria");
        assert("estados"@.len() == 7 && "tipos_procedimento_ouvidoria"@.len() == 28);
        assert("estados"@ != "tipos_procedimento_ouvidoria"@);
        reveal_strlit("tipos_conferencia");
        assert("estados"@.len() == 7 && "tipos_conferencia"@.len() == 17);
        assert("estados"@ != "tipos_conferencia"@);
        reveal_strlit("paises");
        assert("estados"@.len() == 7 && "paises"@.len() == 6);
        assert("estados"@ != "paises"@);
        lemma_pick_push(q, Seq::<(Seq<char>, Seq<char>)>::empty(), ("id_pais"@, "IdPais"@));
        assert(seq![("id_pais"@, "IdPais"@)] =~= Seq::<(Seq<char>, Seq<char>)>::empty().push(("id_pais"@, "IdPais"@)));
        assert(pick_of(q, seq![("id_pais"@, "IdPais"@)]) =~= filtro_de(q, "id_pais"@, "IdPais"@));
    }
    assert(lista_of("cidades"@) matches Some((op, u, f)) && op == "listarCidades"@ && u == true && pick_of(q, f) == filtro_de(q, "id_pais"@, "IdPais"@) + filtro_de(q, "id_estado"@, "IdEstado"@)) by {
        reveal_strlit("cidades");
        reveal_strlit("unidades");
        assert("cidades"@.len() == 7 && "unidades"@.len() == 8);
        assert("cidades"@ != "unidades"@);
        reveal_strlit("series");
        assert("cidades"@.len() == 7 && "series"@.len() == 6);
        assert("cidades"@ != "series"@);
        reveal_strlit("tipos_procedimento");
        assert("cidades"@.len() == 7 && "tipos_procedimento"@.len() == 18);
        assert("cidades"@ != "tipos_procedimento"@);
        reveal_strlit("tipos_procedimento_ouvidoria");
        assert("cidades"@.len() == 7 && "tipos_procedimento_ouvidoria"@.len() == 28);
        assert("cidades"@ != "tipos_procedimento_ouvidoria"@);
        reveal_strlit("tipos_conferencia");
        assert("cidades"@.len() == 7 && "tipos_conferencia"@.len() == 17);
        assert("cidades"@ != "tipos_conferencia"@);
        reveal_strlit("paises");
        assert("cidades"@.len() == 7 && "paises"@.len() == 6);
        assert("cidades"@ != "paises"@);
        reveal_strlit("estados");
        assert("cidades"@[0] == 'c' && "estados"@[0] == 'e');
        assert("cidades"@ != "estados"@);
        lemma_pick_push(q, Seq::<(Seq<char>, Seq<char>)>::empty(), ("id_pais"@, "IdPais"@));
        lemma_pick_push(q, Seq::<(Seq<char>, Seq<char>)>::empty().push(("id_pais"@, "IdPais"@)), ("id_estado"@, "IdEstado"@));
        assert(seq![("id_pais"@, "IdPais"@), ("id_estado"@, "IdEstado"@)] =~= Seq::<(Seq<char>, Seq<char>)>::empty().push(("id_pais"@, "IdPais"@)).push(("id_estado"@, "IdEstado"@)));
        assert(pick_of(q, seq![("id_pais"@, "IdPais"@), ("id_estado"@, "IdEstado"@)]) =~= filtro_de(q, "id_pais"@, "IdPais"@) + filtro_de(q, "id_estado"@, "IdEstado"@));
    }
    assert(lista_of("cargos"@) matches Some((op, u, f)) && op == "listarCargos"@ && u == true && pick_of(q, f) == filtro_de(q, "id_cargo"@, "IdCargo"@)) by {
        reveal_strlit("cargos");
        reveal_strlit("unidades");
        assert("cargos"@.len() == 6 && "unidades"@.len() == 8);
        assert("cargos"@ != "unidades"@);
        reveal_strlit("series");
        assert("cargos"@[0] == 'c' && "series"@[0] == 's');
        assert("cargos"@ != "series"@);
        reveal_strlit("tipos_procedimento");
        assert("cargos"@.len() == 6 && "tipos_procedimento"@.len() == 18);
        assert("cargos"@ != "tipos_procedimento"@);
        reveal_strlit("tipos_procedimento_ouvidoria");
        assert("cargos"@.len() == 6 && "tipos_procedimento_ouvidoria"@.len() == 28);
        assert("cargos"@ != "tipos_procedimento_ouvidoria"@);
        reveal_strlit("tipos_conferencia");
        assert("cargos"@.len() == 6 && "tipos_conferencia"@.len() == 17);
        assert("cargos"@ != "tipos_conferencia"@);
        reveal_strlit("paises");
        assert("cargos"@[0] == 'c' && "paises"@[0] == 'p');
        assert("cargos"@ != "paises"@);
        reveal_strlit("estados");
        assert("cargos"@.len() == 6 && "estados"@.len() == 7);
        assert("cargos"@ != "estados"@);
        reveal_strlit("cidades");
        assert("cargos"@.len() == 6 && "cidades"@.len() == 7);
        assert("cargos"@ != "cidades"@);
        lemma_pick_push(q, Seq::<(Seq<char>, Seq<char>)>::empty(), ("id_cargo"@, "IdCargo"@));
        assert(seq![("id_cargo"@, "IdCargo"@)] =~= Seq::<(Seq<char>, Seq<char>)>::empty().push(("id_cargo"@, "IdCargo"@)));
        assert(pick_of(q, seq![("id_cargo"@, "IdCargo"@)]) =~= filtro_de(q, "id_cargo"@, "IdCargo"@));
    }
    assert(lista_of("hipoteses_legais"@) matches Some((op, u, f)) && op == "listarHipotesesLegais"@ && u == true && pick_of(q, f) == filtro_de(q, "nivel_acesso"@, "NivelAcesso"@)) by {
        reveal_strlit("hipoteses_legais");
        reveal_strlit("unidades");
        assert("hipoteses_legais"@.len() == 16 && "unidades"@.len() == 8);
        assert("hipoteses_legais"@ != "unidades"@);
        reveal_strlit("series");
        assert("hipoteses_legais"@.len() == 16 && "series"@.len() == 6);
        assert("hipoteses_legais"@ != "series"@);
        reveal_strlit("tipos_procedimento");
        assert("hipoteses_legais"@.len() == 16 && "tipos_procedimento"@.len() == 18);
        assert("hipoteses_legais"@ != "tipos_procedimento"@);
        reveal_strlit("tipos_procedimento_ouvidoria");
        assert("hipoteses_legais"@.len() == 16 && "tipos_procedimento_ouvidoria"@.len() == 28);
        assert("hipoteses_legais"@ != "tipos_procedimento_ouvidoria"@);
        reveal_strlit("tipos_conferencia");
        assert("hipoteses_legais"@.len() == 16 && "tipos_conferencia"@.len() == 17);
        assert("hipoteses_legais"@ != "tipos_conferencia"@);
        reveal_strlit("paises");
        assert("hipoteses_legais"@.len() == 16 && "paises"@.len() == 6);
        assert("hipoteses_legais"@ != "paises"@);
        reveal_strlit("estados");
        assert("hipoteses_legais"@.len() == 16 && "estados"@.len() == 7);
        assert("hipoteses_legais"@ != "estados"@);
        reveal_strlit("cidades");
        assert("hipoteses_legais"@.len() == 16 && "cidades"@.len() == 7);
        assert("hipoteses_legais"@ != "cidades"@);
        reveal_strlit("cargos");
        assert("hipoteses_legais"@.len() == 16 && "cargos"@.len() == 6);
        assert("hipoteses_legais"@ != "cargos"@);
        lemma_pick_push(q, Seq::<(Seq<char>, Seq<char>)>::empty(), ("nivel_acesso"@, "NivelAcesso"@));
        assert(seq![("nivel_acesso"@, "NivelAcesso"@)] =~= Seq::<(Seq<char>, Seq<char>)>::empty().push(("nivel_acesso"@, "NivelAcesso"@)));
        assert(pick_of(q, seq![("nivel_acesso"@, "NivelAcesso"@)]) =~= filtro_de(q, "nivel_acesso"@, "NivelAcesso"@));
    }
    assert(lista_of("extensoes_permitidas"@) matches Some((op, u, f)) && op == "listarExtensoesPermitidas"@ && u == true && pick_of(q, f) == filtro_de(q, "id_arquivo_extensao"@, "IdArquivoExtensao"@)) by {
        reveal_strlit("extensoes_permitidas");
        reveal_strlit("unidades");
        assert("extensoes_permitidas"@.len() == 20 && "unidades"@.len() == 8);
        assert("extensoes_permitidas"@ != "unidades"@);
        reveal_strlit("series");
        assert("extensoes_permitidas"@.len() == 20 && "series"@.len() == 6);
        assert("extensoes_permitidas"@ != "series"@);
        reveal_strlit("tipos_procedimento");
        assert("extensoes_permitidas"@.len() == 20 && "tipos_procedimento"@.len() == 18);
        assert("extensoes_permitidas"@ != "tipos_procedimento"@);
        reveal_strlit("tipos_procedimento_ouvidoria");
        assert("extensoes_permitidas"@.len() == 20 && "tipos_procedimento_ouvidoria"@.len() == 28);
        assert("extensoes_permitidas"@ != "tipos_procedimento_ouvidoria"@);
        reveal_strlit("tipos_conferencia");
        assert("extensoes_permitidas"@.len() == 20 && "tipos_conferencia"@.len() == 17);
        assert("extensoes_permitidas"@ != "tipos_conferencia"@);
        reveal_strlit("paises");
        assert("extensoes_permitidas"@.len() == 20 && "paises"@.len() == 6);
        assert("extensoes_permitidas"@ != "paises"@);
        reveal_strlit("estados");
        assert("extensoes_permitidas"@.len() == 20 && "estados"@.len() == 7);
        assert("extensoes_permitidas"@ != "estados"@);
        reveal_strlit("cidades");
        assert("extensoes_permitidas"@.len() == 20 && "cidades"@.len() == 7);
        assert("extensoes_permitidas"@ != "cidades"@);
        reveal_strlit("cargos");
        assert("extensoes_permitidas"@.len() == 20 && "cargos"@.len() == 6);
        assert("extensoes_permitidas"@ != "cargos"@);
        reveal_strlit("hipoteses_legais");
        assert("extensoes_permitidas"@.len() == 20 && "hipoteses_legais"@.len() == 16);
        assert("extensoes_permitidas"@ != "hipoteses_legais"@);
        lemma_pick_push(q, Seq::<(Seq<char>, Seq<char>)>::empty(), ("id_arquivo_extensao"@, "IdArquivoExtensao"@));
        assert(seq![("id_arquivo_extensao"@, "IdArquivoExtensao"@)] =~= Seq::<(Seq<char>, Seq<char>)>::empty().push(("id_arquivo_extensao"@, "IdArquivoExtensao"@)));
        assert(pick_of(q, seq![("id_arquivo_extensao"@, "IdArquivoExtensao"@)]) =~= filtro_de(q, "id_arquivo_extensao"@, "IdArquivoExtensao"@));
    }
    assert(lista_of("marcadores_unidade"@) matches Some((op, u, f)) && op == "listarMarcadoresUnidade"@ && u == true && pick_of(q, f) == Seq::<(Seq<char>, Seq<char>)>::empty()) by {
        reveal_strlit("marcadores_unidade");
        reveal_strlit("unidades");
        assert("marcadores_unidade"@.len() == 18 && "unidades"@.len() == 8);
        assert("marcadores_unidade"@ != "unidades"@);
        reveal_strlit("series");
        assert("marcadores_unidade"@.len() == 18 && "series"@.len() == 6);
        assert("marcadores_unidade"@ != "series"@);
        reveal_strlit("tipos_procedimento");
        assert("marcadores_unidade"@[0] == 'm' && "tipos_procedimento"@[0] == 't');
        assert("marcadores_unidade"@ != "tipos_procedimento"@);
        reveal_strlit("tipos_procedimento_ouvidoria");
        assert("marcadores_unidade"@.len() == 18 && "tipos_procedimento_ouvidoria"@.len() == 28);
        assert("marcadores_unidade"@ != "tipos_procedimento_ouvidoria"@);
        reveal_strlit("tipos_conferencia");
        assert("marcadores_unidade"@.len() == 18 && "tipos_conferencia"@.len() == 17);
        assert("marcadores_unidade"@ != "tipos_conferencia"@);
        reveal_strlit("paises");
        assert("marcadores_unidade"@.len() == 18 && "paises"@.len() == 6);
        assert("marcadores_unidade"@ != "paises"@);
        reveal_strlit("estados");
        assert("marcadores_unidade"@.len() == 18 && "estados"@.len() == 7);
        assert("marcadores_unidade"@ != "estados"@);
        reveal_strlit("cidades");
        assert("marcadores_unidade"@.len() == 18 && "cidades"@.len() == 7);
        assert("marcadores_unidade"@ != "cidades"@);
        reveal_strlit("cargos");
        assert("marcadores_unidade"@.len() == 18 && "cargos"@.len() == 6);
        assert("marcadores_unidade"@ != "cargos"@);
        reveal_strlit("hipoteses_legais");
        assert("marcadores_unidade"@.len() == 18 && "hipoteses_legais"@.len() == 16);
        assert("marcadores_unidade"@ != "hipoteses_legais"@);
        reveal_strlit("extensoes_permitidas");
        assert("marcadores_unidade"@.len() == 18 && "extensoes_permitidas"@.len() == 20);
        assert("marcadores_unidade"@ != "extensoes_permitidas"@);
    }
    assert(lista_of("usuarios"@) matches Some((op, u, f)) && op == "listarUsuarios"@ && u == true && pick_of(q, f) == filtro_de(q, "id_usuario"@, "IdUsuario"@)) by {
        reveal_strlit("usuarios");
        reveal_strlit("unidades");
        assert("usuarios"@[1] == 's' && "unidades"@[1] == 'n');
        assert("usuarios"@ != "unidades"@);
        reveal_strlit("series");
        assert("usuarios"@.len() == 8 && "series"@.len() == 6);
        assert("usuarios"@ != "series"@);
        reveal_strlit("tipos_procedimento");
        assert("usuarios"@.len() == 8 && "tipos_procedimento"@.len() == 18);
        assert("usuarios"@ != "tipos_procedimento"@);
        reveal_strlit("tipos_procedimento_ouvidoria");
        assert("usuarios"@.len() == 8 && "tipos_procedimento_ouvidoria"@.len() == 28);
        assert("usuarios"@ != "tipos_procedimento_ouvidoria"@);
        reveal_strlit("tipos_conferencia");
        assert("usuarios"@.len() == 8 && "tipos_conferencia"@.len() == 17);
        assert("usuarios"@ != "tipos_conferencia"@);
        reveal_strlit("paises");
        assert("usuarios"@.len() == 8 && "paises"@.len() == 6);
        assert("usuarios"@ != "paises"@);
        reveal_strlit("estados");
        assert("usuarios"@.len() == 8 && "estados"@.len() == 7);
        assert("usuarios"@ != "estados"@);
        reveal_strlit("cidades");
        assert("usuarios"@.len() == 8 && "cidades"@.len() == 7);
        assert("usuarios"@ != "cidades"@);
        reveal_strlit("cargos");
        assert("usuarios"@.len() == 8 && "cargos"@.len() == 6);
        assert("usuarios"@ != "cargos"@);
        reveal_strlit("hipoteses_legais");
        assert("usuarios"@.len() == 8 && "hipoteses_legais"@.len() == 16);
        assert("usuarios"@ != "hipoteses_legais"@);
        reveal_strlit("extensoes_permitidas");
        assert("usuarios"@.len() == 8 && "extensoes_permitidas"@.len() == 20);
        assert("usuarios"@ != "extensoes_permitidas"@);
        reveal_strlit("marcadores_unidade");
        assert("usuarios"@.len() == 8 && "marcadores_unidade"@.len() == 18);
        assert("usuarios"@ != "marcadores_unidade"@);
        lemma_pick_push(q, Seq::<(Seq<char>, Seq<char>)>::empty(), ("id_usuario"@, "IdUsuario"@));
        assert(seq![("id_usuario"@, "IdUsuario"@)] =~= Seq::<(Seq<char>, Seq<char>)>::empty().push(("id_usuario"@, "IdUsuario"@)));
        assert(pick_of(q, seq![("id_usuario"@, "IdUsuario"@)]) =~= filtro_de(q, "id_usuario"@, "IdUsuario"@));
    }
    assert(lista_of("feriados"@) matches Some((op, u, f)) && op == "listarFeriados"@ && u == true && pick_of(q, f) == filtro_de(q, "id_orgao"@, "IdOrgao"@) + filtro_de(q, "data_inicial"@, "DataInicial"@) + filtro_de(q, "data_final"@, "DataFinal"@)) by {
        reveal_strlit("feriados");
        reveal_strlit("unidades");
        assert("feriados"@[0] == 'f' && "unidades"@[0] == 'u');
        assert("feriados"@ != "unidades"@);
        reveal_strlit("series");
        assert("feriados"@.len() == 8 && "series"@.len() == 6);
        assert("feriados"@ != "series"@);
        reveal_strlit("tipos_procedimento");
        assert("feriados"@.len() == 8 && "tipos_procedimento"@.len() == 18);
        assert("feriados"@ != "tipos_procedimento"@);
        reveal_strlit("tipos_procedimento_ouvidoria");
        assert("feriados"@.len() == 8 && "tipos_procedimento_ouvidoria"@.len() == 28);
        assert("feriados"@ != "tipos_procedimento_ouvidoria"@);
        reveal_strlit("tipos_conferencia");
        assert("feriados"@.len() == 8 && "tipos_conferencia"@.len() == 17);
        assert("feriados"@ != "tipos_conferencia"@);
        reveal_strlit("paises");
        assert("feriados"@.len() == 8 && "paises"@.len() == 6);
        assert("feriados"@ != "paises"@);
        reveal_strlit("estados");
        assert("feriados"@.len() == 8 && "estados"@.len() == 7);
        assert("feriados"@ != "estados"@);
        reveal_strlit("cidades");
        assert("feriados"@.len() == 8 && "cidades"@.len() == 7);
        assert("feriados"@ != "cidades"@);
        reveal_strlit("cargos");
        assert("feriados"@.len() == 8 && "cargos"@.len() == 6);
        assert("feriados"@ != "cargos"@);
        reveal_strlit("hipoteses_legais");
        assert("feriados"@.len() == 8 && "hipoteses_legais"@.len() == 16);
        assert("feriados"@ != "hipoteses_legais"@);
        reveal_strlit("extensoes_permitidas");
        assert("feriados"@.len() == 8 && "extensoes_permitidas"@.len() == 20);
        assert("feriados"@ != "extensoes_permitidas"@);
        reveal_strlit("marcadores_unidade");
        assert("feriados"@.len() == 8 && "marcadores_unidade"@.len() == 18);
        assert("feriados"@ != "marcadores_unidade"@);
        reveal_strlit("usuarios");
        assert("feriados"@[0] == 'f' && "usuarios"@[0] == 'u');
        assert("feriados"@ != "usuarios"@);
        lemma_pick_push(q, Seq::<(Seq<char>, Seq<char>)>::empty(), ("id_orgao"@, "IdOrgao"@));
        lemma_pick_push(q, Seq::<(Seq<char>, Seq<char>)>::empty().push(("id_orgao"@, "IdOrgao"@)), ("data_inicial"@, "DataInicial"@));
        lemma_pick_push(q, Seq::<(Seq<char>, Seq<char>)>::empty().push(("id_orgao"@, "IdOrgao"@)).push(("data_inicial"@, "DataInicial"@)), ("data_final"@, "DataFinal"@));
        assert(seq![("id_orgao"@, "IdOrgao"@), ("data_inicial"@, "DataInicial"@), ("data_final"@, "DataFinal"@)] =~= Seq::<(Seq<char>, Seq<char>)>::empty().push(("id_orgao"@, "IdOrgao"@)).push(("data_inicial"@, "DataInicial"@)).push(("data_final"@, "DataFinal"@)));
        assert(pick_of(q, seq![("id_orgao"@, "IdOrgao"@), ("data_inicial"@, "DataInicial"@), ("data_final"@, "DataFinal"@)]) =~= filtro_de(q, "id_orgao"@, "IdOrgao"@) + filtro_de(q, "data_inicial"@, "DataInicial"@) + filtro_de(q, "data_final"@, "DataFinal"@));
    }
    assert(lista_of("contatos"@) matches Some((op, u, f)) && op == "listarContatos"@ && u == true && pick_of(q, f) == filtro_de(q, "id_tipo_contato"@, "IdTipoContato"@) + filtro_de(q, "pagina_registros"@, "PaginaRegistros"@) + filtro_de(q, "pagina_atual"@, "PaginaAtual"@) + filtro_de(q, "sigla"@, "Sigla"@) + filtro_de(q, "nome"@, "Nome"@) + filtro_de(q, "cpf"@, "CPF"@) + filtro_de(q, "cnpj"@, "CNPJ"@) + filtro_de(q, "matricula"@, "Matricula"@)) by {
        reveal_strlit("contatos");
        reveal_strlit("unidades");
        assert("contatos"@[0] == 'c' && "unidades"@[0] == 'u');
        assert("contatos"@ != "unidades"@);
        reveal_strlit("series");
        assert("contatos"@.len() == 8 && "series"@.len() == 6);
        assert("contatos"@ != "series"@);
        reveal_strlit("tipos_procedimento");
        assert("contatos"@.len() == 8 && "tipos_procedimento"@.len() == 18);
        assert("contatos"@ != "tipos_procedimento"@);
        reveal_strlit("tipos_procedimento_ouvidoria");
        assert("contatos"@.len() == 8 && "tipos_procedimento_ouvidoria"@.len() == 28);
        assert("contatos"@ != "tipos_procedimento_ouvidoria"@);
        reveal_strlit("tipos_conferencia");
        assert("contatos"@.len() == 8 && "tipos_conferencia"@.len() == 17);
        assert("contatos"@ != "tipos_conferencia"@);
        reveal_strlit("paises");
        assert("contatos"@.len() == 8 && "paises"@.len() == 6);
        assert("contatos"@ != "paises"@);
        reveal_strlit("estados");
        assert("contatos"@.len() == 8 && "estados"@.len() == 7);
        assert("contatos"@ != "estados"@);
        reveal_strlit("cidades");
        assert("contatos"@.len() == 8 && "cidades"@.len() == 7);
        assert("contatos"@ != "cidades"@);
        reveal_strlit("cargos");
        assert("contatos"@.len() == 8 && "cargos"@.len() == 6);
        assert("contatos"@ != "cargos"@);
        reveal_strlit("hipoteses_legais");
        assert("contatos"@.len() == 8 && "hipoteses_legais"@.len() == 16);
        assert("contatos"@ != "hipoteses_legais"@);
        reveal_strlit("extensoes_permitidas");
        assert("contatos"@.len() == 8 && "extensoes_permitidas"@.len() == 20);
        assert("contatos"@ != "extensoes_permitidas"@);
        reveal_strlit("marcadores_unidade");
        assert("contatos"@.len() == 8 && "marcadores_unidade"@.len() == 18);
        assert("contatos"@ != "marcadores_unidade"@);
        reveal_strlit("usuarios");
        assert("contatos"@[0] == 'c' && "usuarios"@[0] == 'u');
        assert("contatos"@ != "usuarios"@);
        reveal_strlit("feriados");
        assert("contatos"@[0] == 'c' && "feriados"@[0] == 'f');
        assert("contatos"@ != "feriados"@);
        lemma_pick_push(q, Seq::<(Seq<char>, Seq<char>)>::empty(), ("id_tipo_contato"@, "IdTipoContato"@));
        lemma_pick_push(q, Seq::<(Seq<char>, Seq<char>)>::empty().push(("id_tipo_contato"@, "IdTipoContato"@)), ("pagina_registros"@, "PaginaRegistros"@));
        lemma_pick_push(q, Seq::<(Seq<char>, Seq<char>)>::empty().push(("id_tipo_contato"@, "IdTipoContato"@)).push(("pagina_registros"@, "PaginaRegistros"@)), ("pagina_atual"@, "PaginaAtual"@));
        lemma_pick_push(q, Seq::<(Seq<char>, Seq<char>)>::empty().push(("id_tipo_contato"@, "IdTipoContato"@)).push(("pagina_registros"@, "PaginaRegistros"@)).push(("pagina_atual"@, "PaginaAtual"@)), ("sigla"@, "Sigla"@));
        lemma_pick_push(q, Seq::<(Seq<char>, Seq<char>)>::empty().push(("id_tipo_contato"@, "IdTipoContato"@)).push(("pagina_registros"@, "PaginaRegistros"@)).push(("pagina_atual"@, "PaginaAtual"@)).push(("sigla"@, "Sigla"@)), ("nome"@, "Nome"@));
        lemma_pick_push(q, Seq::<(Seq<char>, Seq<char>)>::empty().push(("id_tipo_contato"@, "IdTipoContato"@)).push(("pagina_registros"@, "PaginaRegistros"@)).push(("pagina_atual"@, "PaginaAtual"@)).push(("sigla"@, "Sigla"@)).push(("nome"@, "Nome"@)), ("cpf"@, "CPF"@));
        lemma_pick_push(q, Seq::<(Seq<char>, Seq<char>)>::empty().push(("id_tipo_contato"@, "IdTipoContato"@)).push(("pagina_registros"@, "PaginaRegistros"@)).push(("pagina_atual"@, "PaginaAtual"@)).push(("sigla"@, "Sigla"@)).push(("nome"@, "Nome"@)).push(("cpf"@, "CPF"@)), ("cnpj"@, "CNPJ"@));
        lemma_pick_push(q, Seq::<(Seq<char>, Seq<char>)>::empty().push(("id_tipo_contato"@, "IdTipoContato"@)).push(("pagina_registros"@, "PaginaRegistros"@)).push(("pagina_atual"@, "PaginaAtual"@)).push(("sigla"@, "Sigla"@)).push(("nome"@, "Nome"@)).push(("cpf"@, "CPF"@)).push(("cnpj"@, "CNPJ"@)), ("matricula"@, "Matricula"@));
        assert(seq![("id_tipo_contato"@, "IdTipoContato"@), ("pagina_registros"@, "PaginaRegistros"@), ("pagina_atual"@, "PaginaAtual"@), ("sigla"@, "Sigla"@), ("nome"@, "Nome"@), ("cpf"@, "CPF"@), ("cnpj"@, "CNPJ"@), ("matricula"@, "Matricula"@)] =~= Seq::<(Seq<char>, Seq<char>)>::empty().push(("id_tipo_contato"@, "IdTipoContato"@)).push(("pagina_registros"@, "PaginaRegistros"@)).push(("pagina_atual"@, "PaginaAtual"@)).push(("sigla"@, "Sigla"@)).push(("nome"@, "Nome"@)).push(("cpf"@, "CPF"@)).push(("cnpj"@, "CNPJ"@)).push(("matricula"@, "Matricula"@)));
        assert(pick_of(q, seq![("id_tipo_contato"@, "IdTipoContato"@), ("pagina_registros"@, "PaginaRegistros"@), ("pagina_atual"@, "PaginaAtual"@), ("sigla"@, "Sigla"@), ("nome"@, "Nome"@), ("cpf"@, "CPF"@), ("cnpj"@, "CNPJ"@), ("matricula"@, "Matricula"@)]) =~= filtro_de(q, "id_tipo_contato"@, "IdTipoContato"@) + filtro_de(q, "pagina_registros"@, "PaginaRegistros"@) + filtro_de(q, "pagina_atual"@, "PaginaAtual"@) + filtro_de(q, "sigla"@, "Sigla"@) + filtro_de(q, "nome"@, "Nome"@) + filtro_de(q, "cpf"@, "CPF"@) + filtro_de(q, "cnpj"@, "CNPJ"@) + filtro_de(q, "matricula"@, "Matricula"@));
    }
}

} // verus!
