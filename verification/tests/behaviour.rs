use eusei::andamentos::{
    agregar_lotes, comma_list, estado_inicial, fim_stream, lote_extra, lote_para_lista, montar_plano,
    montar_resumo, passo_stream, AndamentosQuery,
};
use eusei::auth::{bearer_token, check_bearer};
use eusei::cache::{
    after_failure, answer_of_entry, bypass_atual, bypass_from_header, cache_headers, cache_label,
    ctx_bypass, encode_params, entry_from_fetch, kept_for_stale, modo_consulta, Bypass, CacheConfig,
    Hit, Modo, Payload, ReqStats, vida_entrada,
};
use eusei::client::{interpret_answer, next_step, SendOutcome, Step};
use eusei::config::AppConfig;
use eusei::consultas::{
    agregar_documentos, agregar_procedimentos, bloco_params, doc_params, individual_params,
    lista_protocolos, ok, ok_com_resumo, ok_proc, proc_params, publicacao_extra, unidades_solicitadas,
    DocFlags, ProcFlags, ProcIndividualQuery, PublicacaoQuery,
};
use eusei::documentos::{
    documentos_da_timeline, juntar_publicacoes, numero_documento, numeros_da_timeline, publicacao_de,
    publicacao_params,
};
use eusei::envelope::{render_param, xml_escape, Param};
use eusei::error::AppError;
use eusei::json::Json;
use eusei::listas::{filtros_lista, lista, permissao_extra, pick};
use eusei::order::stable_order;
use eusei::sei::{flag_sn, scalar_params, sei_request, sip_request};
use eusei::timeline::{dedup_por_id, ordenar_por_datahora};
use eusei::xml::{json_of_named, json_of_prefixed, node_to_json, parametros_to_json, return_to_json, XmlNode};

fn s(v: &str) -> String {
    v.to_string()
}

fn obj(fields: Vec<(&str, Json)>) -> Json {
    Json::Obj(fields.into_iter().map(|(k, v)| (k.to_string(), v)).collect())
}

fn vars(pairs: &[(&str, &str)]) -> Vec<(String, String)> {
    pairs.iter().map(|(k, v)| (k.to_string(), v.to_string())).collect()
}

fn config_minima() -> AppConfig {
    AppConfig::from_env(&vars(&[
        ("EUSEI_TOKENS", "tok1, tok2"),
        ("SEI_IDENTIFICACAO_SERVICO", "chave"),
    ]))
    .unwrap()
}

fn registro(id: &str, data: &str, descricao: &str) -> Json {
    obj(vec![
        ("IdAndamento", Json::Str(s(id))),
        ("DataHora", Json::Str(s(data))),
        ("Descricao", Json::Str(s(descricao))),
        ("Unidade", Json::Str(s("U1"))),
    ])
}

fn texto(j: Option<&Json>) -> String {
    match j {
        Some(Json::Str(t)) => t.clone(),
        other => panic!("texto esperado, veio {other:?}"),
    }
}

// ---- configuration -------------------------------------------------------

#[test]
fn config_defaults_e_campos_lidos() {
    let c = config_minima();
    assert_eq!(c.tokens, vec![s("tok1"), s("tok2")]);
    assert_eq!(c.bind, "127.0.0.1:18088");
    assert_eq!(c.sei.url, "https://sei.pe.gov.br/sei/ws/SeiWS.php");
    assert_eq!(c.sei.sigla_sistema, "HORTENSIAS");
    assert_eq!(c.sei.timeout_secs, 60);
    assert_eq!(c.sei.andamentos_lote, 8);
    assert_eq!(c.sei.andamentos_conc, 3);
    assert!(!c.sip.configurado());
}

fn erro_de(v: &Vec<(String, String)>) -> String {
    match AppConfig::from_env(v) {
        Err(e) => e,
        Ok(_) => panic!("configuração deveria ser recusada"),
    }
}

#[test]
fn config_recusa_cada_erro() {
    assert!(erro_de(&vars(&[])).contains("EUSEI_TOKENS vazio"));
    assert!(erro_de(&vars(&[("EUSEI_TOKENS", "TROQUE-isto")])).contains("placeholder"));
    assert!(erro_de(&vars(&[("EUSEI_TOKENS", "bom, troque-me")])).contains("placeholder"));
    assert!(erro_de(&vars(&[("EUSEI_TOKENS", "t")])).contains("SEI_IDENTIFICACAO_SERVICO"));
    let base = [("EUSEI_TOKENS", "t"), ("SEI_IDENTIFICACAO_SERVICO", "k")];
    let mut v = vars(&base);
    v.push((s("SEI_TIMEOUT_SECS"), s("abc")));
    assert!(erro_de(&v).contains("SEI_TIMEOUT_SECS"));
    let mut v = vars(&base);
    v.push((s("SEI_ANDAMENTOS_LOTE"), s("0")));
    assert!(erro_de(&v).contains("SEI_ANDAMENTOS_LOTE"));
    let mut v = vars(&base);
    v.push((s("SEI_ANDAMENTOS_CONC"), s("-1")));
    assert!(erro_de(&v).contains("SEI_ANDAMENTOS_CONC"));
}

#[test]
fn debug_so_mostra_tamanho_dos_segredos() {
    let mut a = config_minima();
    let mut b = config_minima();
    a.tokens = vec![s("aaaa")];
    b.tokens = vec![s("bbbbbbbb")];
    a.sei.identificacao_servico = s("chave-1");
    b.sei.identificacao_servico = s("chave-2");
    assert_eq!(a.debug_text(), b.debug_text());
    assert!(a.debug_text().contains("\"***\" (7 chars)"));
}

#[test]
fn debug_escapa_como_o_formatador() {
    let mut c = config_minima();
    c.sei.sigla_sistema = s("a\u{7}\"b");
    assert!(c.sei.debug_text().contains("sigla_sistema: \"a\\u{7}\\\"b\""));
    assert_eq!(c.sei.debug_text().matches("identificacao_servico: \"***\" (5 chars)").count(), 1);
}

#[test]
fn redigido_mostra_so_o_tamanho() {
    assert_eq!(eusei::config::redigido(""), "\"\"");
    assert_eq!(eusei::config::redigido("abc"), "\"***\" (3 chars)");
}

// ---- authentication ------------------------------------------------------

#[test]
fn bearer_aceita_esquema_sem_caixa() {
    assert_eq!(bearer_token("Bearer abc"), Some(s("abc")));
    assert_eq!(bearer_token("bEaReR   abc  "), Some(s("abc")));
    assert_eq!(bearer_token("Basic abc"), None);
    assert_eq!(bearer_token("Bearer"), None);
    let tokens = vec![s("abc")];
    assert!(check_bearer(&tokens, Some("Bearer abc")).is_ok());
    assert!(matches!(check_bearer(&tokens, Some("Bearer abd")), Err(AppError::Unauthorized)));
    assert!(matches!(check_bearer(&tokens, None), Err(AppError::Unauthorized)));
}

// ---- errors --------------------------------------------------------------

#[test]
fn cada_erro_tem_codigo_status_e_corpo() {
    let casos = vec![
        (AppError::Unauthorized, "nao_autorizado", 401),
        (AppError::BadRequest(s("x")), "parametro_invalido", 400),
        (AppError::SeiUnavailable, "sei_indisponivel", 503),
        (AppError::Timeout, "sei_timeout", 504),
        (AppError::Upstream(s("HTTP 500")), "sei_erro_http", 502),
        (AppError::SoapFault { code: s("c"), string: s("falhou") }, "sei_fault", 400),
        (AppError::Parse(s("xml")), "resposta_invalida", 502),
    ];
    for (e, codigo, status) in casos {
        assert_eq!(e.codigo(), codigo);
        assert_eq!(e.status(), status);
        let corpo = e.corpo();
        assert_eq!(corpo.get("ok"), Some(&Json::Bool(false)));
        assert_eq!(texto(corpo.get("codigo")), codigo);
    }
    assert_eq!(AppError::SoapFault { code: s("c"), string: s("falhou") }.mensagem(), "SOAP Fault [c]: falhou");
    assert_eq!(AppError::Upstream(s("HTTP 500")).detalhe(), Some(s("HTTP 500")));
    assert_eq!(AppError::Timeout.detalhe(), None);
    assert!(AppError::Timeout.permite_stale());
    assert!(!AppError::SoapFault { code: s("c"), string: s("f") }.permite_stale());
}

// ---- cache -------------------------------------------------------------

#[test]
fn chave_codifica_parametros_ordenados() {
    let e = encode_params(&[
        ("B", Param::Array(vec![s("1"), s("2")])),
        ("A", Param::Scalar(s("x"))),
    ]);
    assert_eq!(e, "A=S:x\u{1f}B=A:1,2");
}

#[test]
fn ttl_por_classe_de_operacao() {
    let c = CacheConfig {
        enabled: true,
        max_bytes: 1,
        ttl_estatico_ms: 3_600_000,
        ttl_semi_ms: 600_000,
        ttl_dinamico_ms: 60_000,
        stale_ttl_ms: 0,
        neg_ttl_ms: 0,
    };
    assert_eq!(c.ttl_for("listarPaises"), 3_600_000);
    assert_eq!(c.ttl_for("listarUsuarios"), 600_000);
    assert_eq!(c.ttl_for("consultarProcedimento"), 60_000);
}

#[test]
fn bypass_e_modo_de_consulta() {
    assert_eq!(bypass_from_header(Some("No-Cache")), Bypass::NoCache);
    assert_eq!(bypass_from_header(Some("no-cache, NO-STORE")), Bypass::NoStore);
    assert_eq!(bypass_from_header(Some("max-age=0")), Bypass::Off);
    assert_eq!(bypass_from_header(None), Bypass::Off);
    assert_eq!(ctx_bypass(None), Bypass::Off);
    assert_eq!(bypass_atual(Some(Bypass::NoStore)), Bypass::NoStore);
    assert_eq!(modo_consulta(false, Bypass::NoCache), Modo::Direto);
    assert_eq!(modo_consulta(true, Bypass::NoCache), Modo::Fresco { guardar: true });
    assert_eq!(modo_consulta(true, Bypass::NoStore), Modo::Fresco { guardar: false });
    assert_eq!(modo_consulta(true, Bypass::Off), Modo::Cache);
}

#[test]
fn rotulo_e_cabecalhos_da_resposta() {
    assert_eq!(cache_label(0, 0, 0), None);
    assert_eq!(cache_label(2, 0, 0), Some("HIT"));
    assert_eq!(cache_label(0, 1, 0), Some("MISS"));
    assert_eq!(cache_label(0, 0, 3), Some("STALE"));
    assert_eq!(cache_label(1, 1, 0), Some("PARTIAL"));
    assert_eq!(cache_headers(u64::MAX, Bypass::Off, true, 0, 0), None);
    assert_eq!(cache_headers(3600, Bypass::NoStore, true, 0, 0), Some((s("no-store"), None)));
    assert_eq!(cache_headers(3600, Bypass::Off, false, 0, 0), Some((s("no-store"), None)));
    assert_eq!(cache_headers(3600, Bypass::Off, true, 1, 9), Some((s("private, no-cache"), None)));
    assert_eq!(
        cache_headers(3600, Bypass::Off, true, 0, 12),
        Some((s("private, max-age=3600"), Some(s("12"))))
    );
}

#[test]
fn peso_limitado() {
    assert_eq!(eusei::cache::peso(10), 10);
    assert_eq!(eusei::cache::peso(u32::MAX as usize), u32::MAX);
}

#[test]
fn estatistica_da_requisicao() {
    let mut st = ReqStats::new();
    st.anotar(Hit::Miss, 60, 0);
    st.anotar(Hit::Fresh, 30, 7);
    st.anotar(Hit::Fresh, 3600, 2);
    assert_eq!((st.hits, st.misses, st.stales), (2, 1, 0));
    assert_eq!(st.min_ttl, 30);
    assert_eq!(st.max_age, 7);
}

#[test]
fn serve_stale_so_em_falha_de_infra() {
    let bom: Option<Payload<u32>> = Some(Payload::Good(7));
    assert_eq!(after_failure(AppError::Timeout, bom).unwrap(), 7);
    let bom: Option<Payload<u32>> = Some(Payload::Good(7));
    let r = after_failure(AppError::SoapFault { code: s("c"), string: s("f") }, bom);
    assert!(matches!(r, Err(AppError::SoapFault { .. })), "fault não deve ser mascarado por stale");
    let nada: Option<Payload<u32>> = None;
    assert!(matches!(after_failure(AppError::SeiUnavailable, nada), Err(AppError::SeiUnavailable)));
    let fault: Option<Payload<u32>> = Some(Payload::Fault { code: s("c"), string: s("f") });
    assert!(matches!(after_failure(AppError::Timeout, fault), Err(AppError::Timeout)));
}

#[test]
fn negative_caching_so_de_fault() {
    let r = entry_from_fetch::<u32>(Err(AppError::SoapFault { code: s("c"), string: s("f") }), 30_000);
    let p = r.unwrap();
    assert!(!kept_for_stale(&p));
    assert!(matches!(answer_of_entry(p), Err(AppError::SoapFault { .. })));
    let r = entry_from_fetch::<u32>(Err(AppError::SoapFault { code: s("c"), string: s("f") }), 0);
    assert!(r.is_err(), "com neg desligado, fault não é cacheado");
    let r = entry_from_fetch::<u32>(Err(AppError::Timeout), 30_000);
    assert!(matches!(r, Err(AppError::Timeout)), "erro de infra não deve ser cacheado");
    let r = entry_from_fetch::<u32>(Ok(5), 0).unwrap();
    assert!(kept_for_stale(&r));
    assert_eq!(answer_of_entry(r).unwrap(), 5);
}

// ---- SOAP client decisions ----------------------------------------------

#[test]
fn no_maximo_duas_tentativas() {
    assert!(matches!(next_step(1, SendOutcome::ConnectionFailed), Step::Retry { wait_ms: 400 }));
    assert!(matches!(next_step(2, SendOutcome::ConnectionFailed), Step::Fail(AppError::SeiUnavailable)));
    assert!(matches!(next_step(1, SendOutcome::TimedOut), Step::Fail(AppError::Timeout)));
    assert!(matches!(next_step(1, SendOutcome::Answered), Step::Proceed));
}

#[test]
fn resposta_do_sei_interpretada() {
    let fault = r#"<e:Envelope xmlns:e="x"><e:Body><e:Fault><faultcode>Srv</faultcode><faultstring>negado</faultstring></e:Fault></e:Body></e:Envelope>"#;
    match interpret_answer("op", 500, s(fault)) {
        Err(AppError::SoapFault { code, string }) => {
            assert_eq!(code, "Srv");
            assert_eq!(string, "negado");
        }
        other => panic!("fault esperado: {other:?}"),
    }
    match interpret_answer("consultarX", 502, s("<html/>")) {
        Err(AppError::Upstream(m)) => assert_eq!(m, "HTTP 502 do SEI na operação 'consultarX'"),
        other => panic!("erro HTTP esperado: {other:?}"),
    }
    assert_eq!(interpret_answer("op", 200, s("<ok/>")).unwrap(), "<ok/>");
}

// ---- XML answers ---------------------------------------------------------

#[test]
fn parametros_e_retorno_viram_json() {
    let xml = r#"<R xmlns:xsi="http://www.w3.org/2001/XMLSchema-instance"><parametros><item><Nome>FLORIDA</Nome><Sigla xsi:nil="true"/></item><item><Nome>ACRE</Nome></item></parametros></R>"#;
    let v = parametros_to_json(xml).unwrap();
    match &v {
        Json::Arr(a) => {
            assert_eq!(a.len(), 2);
            assert_eq!(texto(a[0].get("Nome")), "FLORIDA");
            assert_eq!(a[0].get("Sigla"), Some(&Json::Null));
        }
        other => panic!("array esperado: {other:?}"),
    }
    let sem = parametros_to_json("<R><outro/></R>");
    assert!(matches!(sem, Err(AppError::Parse(_))));
    assert!(matches!(parametros_to_json("<R>"), Err(AppError::Parse(_))));
    let sip = r#"<R><returnPermissoes><IdUsuario>7</IdUsuario></returnPermissoes></R>"#;
    let p = return_to_json(sip).unwrap();
    assert_eq!(texto(p.get("IdUsuario")), "7");
    assert!(matches!(return_to_json("<R/>"), Err(AppError::Parse(_))));
}

// ---- envelope ------------------------------------------------------------

#[test]
fn escape_nao_deixa_marcacao() {
    let e = xml_escape("<a href=\"x\">'&'</a>");
    assert_eq!(e, "&lt;a href=&quot;x&quot;&gt;&apos;&amp;&apos;&lt;/a&gt;");
    assert!(!e.contains('<') && !e.contains('>') && !e.contains('"') && !e.contains('\''));
}

#[test]
fn render_param_escapa_valor() {
    let mut out = s("");
    render_param(&mut out, "Nome", &Param::Scalar(s("a<b")));
    assert_eq!(out, "<Nome xsi:type=\"xsd:string\">a&lt;b</Nome>");
}

// ---- requests ------------------------------------------------------------

#[test]
fn requisicao_sei_injeta_credenciais() {
    let c = config_minima();
    let extra = scalar_params(&[("IdPais", s("76"))]);
    let r = sei_request(&c.sei, "listarEstados", true, extra);
    assert_eq!(r.soap_action, "SeiAction");
    assert_eq!(r.operation, "listarEstados");
    assert!(r.envelope.contains("<SiglaSistema xsi:type=\"xsd:string\">HORTENSIAS</SiglaSistema>"));
    assert!(r.envelope.contains("<IdentificacaoServico xsi:type=\"xsd:string\">chave</IdentificacaoServico>"));
    assert!(r.envelope.contains("<IdUnidade xsi:type=\"xsd:string\"></IdUnidade><IdPais"));
    assert!(r.envelope.contains("<sei:listarEstados"));
}

#[test]
fn requisicao_sip_exige_configuracao() {
    let c = config_minima();
    match sip_request(&c, "listarPermissao", vec![]) {
        Err(AppError::BadRequest(m)) => assert!(m.starts_with("Serviço SIP não configurado")),
        other => panic!("esperado 400: {other:?}"),
    }
    let mut v = vars(&[("EUSEI_TOKENS", "t"), ("SEI_IDENTIFICACAO_SERVICO", "k")]);
    v.push((s("SEI_SIP_CHAVE_ACESSO"), s("chave-sip")));
    v.push((s("SEI_SIP_ID_SISTEMA"), s("SIP")));
    let c = AppConfig::from_env(&v).unwrap();
    let q = vec![(s("id_usuario"), s("5")), (s("id_perfil"), s(""))];
    let r = sip_request(&c, "listarPermissao", permissao_extra(&q)).unwrap();
    assert_eq!(r.soap_action, "sipnsAction");
    assert_eq!(r.timeout_secs, 60);
    assert!(r.envelope.contains("<ChaveAcesso xsi:type=\"xsd:string\">chave-sip</ChaveAcesso>"));
    assert!(r.envelope.contains("<IdUsuario xsi:type=\"xsd:string\">5</IdUsuario>"));
    assert!(!r.envelope.contains("IdPerfil"));
    assert!(r.envelope.contains("xmlns:sip=\"sipns\""));
}

#[test]
fn flag_normalizada_e_idempotente() {
    for entrada in ["S", "s", " n ", ""] {
        let uma = flag_sn(&Some(s(entrada)), true).unwrap();
        let duas = flag_sn(&Some(uma.clone()), false).unwrap();
        assert_eq!(uma, duas);
    }
    match flag_sn(&Some(s(" talvez ")), true) {
        Err(AppError::BadRequest(m)) => {
            assert_eq!(m, "valor inválido para sinalizador S/N: 'talvez' (use S ou N)")
        }
        other => panic!("esperado 400: {other:?}"),
    }
}

// ---- queries -------------------------------------------------------------

#[test]
fn parametros_de_procedimento_e_documento() {
    let mut f = ProcFlags::default();
    f.sin_retornar_observacoes = Some(s("n"));
    let p = proc_params(s("0001"), &f).unwrap();
    assert_eq!(p.len(), 10);
    assert_eq!(p[0], ("ProtocoloProcedimento", s("0001")));
    assert_eq!(p[3], ("SinRetornarObservacoes", s("N")));
    assert_eq!(p[9], ("SinRetornarProcedimentosAnexados", s("S")));
    f.sin_retornar_assuntos = Some(s("x"));
    match proc_params(s("0001"), &f) {
        Err(AppError::BadRequest(m)) => assert!(m.contains("'x'")),
        other => panic!("esperado 400: {other:?}"),
    }
    let mut g = ProcFlags::default();
    assert!(unidades_solicitadas(&g).unwrap());
    g.sin_retornar_unidades_procedimento_aberto = Some(s("N"));
    assert!(!unidades_solicitadas(&g).unwrap());
    let d = doc_params(s("123"), &DocFlags::default()).unwrap();
    assert_eq!(d[0], ("ProtocoloDocumento", s("123")));
    assert_eq!(d[4], ("SinRetornarCampos", s("S")));
    let b = bloco_params(s("9"), &None).unwrap();
    assert_eq!(b, vec![("IdBloco", s("9")), ("SinRetornarProtocolos", s("N"))]);
}

#[test]
fn procedimento_individual_exige_cada_campo_em_ordem() {
    let mut q = ProcIndividualQuery::default();
    q.id_tipo_procedimento = Some(s("2"));
    match individual_params(&q) {
        Err(AppError::BadRequest(m)) => {
            assert_eq!(m, "parâmetro obrigatório ausente: id_orgao_procedimento")
        }
        other => panic!("esperado 400: {other:?}"),
    }
    q.id_orgao_procedimento = Some(s("1"));
    q.id_orgao_usuario = Some(s("3"));
    q.sigla_usuario = Some(s(""));
    match individual_params(&q) {
        Err(AppError::BadRequest(m)) => assert_eq!(m, "parâmetro obrigatório ausente: sigla_usuario"),
        other => panic!("esperado 400: {other:?}"),
    }
    q.sigla_usuario = Some(s("fulano"));
    let p = individual_params(&q).unwrap();
    assert_eq!(p[3], ("SiglaUsuario", s("fulano")));
}

#[test]
fn publicacao_exige_identificador() {
    let mut q = PublicacaoQuery::default();
    q.id_documento = Some(s("  "));
    match publicacao_extra(&q) {
        Err(AppError::BadRequest(m)) => assert!(m.starts_with("informe ao menos um de")),
        other => panic!("esperado 400: {other:?}"),
    }
    q.protocolo_documento = Some(s("555"));
    let p = publicacao_extra(&q).unwrap();
    assert_eq!(
        p,
        vec![
            ("ProtocoloDocumento", s("555")),
            ("SinRetornarAndamento", s("S")),
            ("SinRetornarAssinaturas", s("S")),
        ]
    );
}

#[test]
fn lote_de_procedimentos() {
    assert!(matches!(lista_protocolos(&Some(s("  "))), Err(AppError::BadRequest(_))));
    assert_eq!(lista_protocolos(&Some(s(" A, ,B "))).unwrap(), vec![s("A"), s("B")]);
    let ps = vec![s("A"), s("B")];
    let falhas = vec![Err(AppError::SoapFault { code: s("c"), string: s("x") }), Err(AppError::Timeout)];
    assert!(matches!(agregar_procedimentos(&ps, &falhas, true), Err(AppError::Timeout)));
    let faults = vec![
        Err(AppError::SoapFault { code: s("c"), string: s("x") }),
        Err(AppError::SoapFault { code: s("c"), string: s("y") }),
    ];
    let r = agregar_documentos(&ps, &faults).unwrap();
    match r.get("itens") {
        Some(Json::Arr(itens)) => {
            assert_eq!(itens.len(), 2);
            assert_eq!(texto(itens[1].get("erro")), "SOAP Fault [c]: y");
            assert_eq!(itens[1].get("dados"), Some(&Json::Null));
        }
        other => panic!("itens esperados: {other:?}"),
    }
    let mistos = vec![
        Ok(obj(vec![("UnidadesProcedimentoAberto", Json::Null)])),
        Err(AppError::Timeout),
    ];
    let r = agregar_procedimentos(&ps, &mistos, true).unwrap();
    match r.get("itens") {
        Some(Json::Arr(itens)) => {
            assert_eq!(itens[0].get("concluido"), Some(&Json::Bool(true)));
            assert_eq!(itens[1].get("concluido"), Some(&Json::Null));
        }
        other => panic!("itens esperados: {other:?}"),
    }
}

#[test]
fn respostas_com_envelope_ok() {
    let r = ok(Json::Num(1));
    assert_eq!(r.get("ok"), Some(&Json::Bool(true)));
    assert_eq!(r.get("dados"), Some(&Json::Num(1)));
    let r = ok_proc(obj(vec![("UnidadesProcedimentoAberto", Json::Arr(vec![]))]), true);
    assert_eq!(r.get("concluido"), Some(&Json::Bool(true)));
    let r = ok_com_resumo(Json::Arr(vec![]), Json::Null);
    assert_eq!(r.get("resumo"), Some(&Json::Null));
}

// ---- lists ---------------------------------------------------------------

#[test]
fn filtros_de_lista() {
    let q = vec![
        (s("id_pais"), s("1")),
        (s("id_estado"), s("")),
        (s("id_pais"), s("76")),
        (s("outro"), s("x")),
    ];
    let p = pick(&q, &[("id_pais", "IdPais"), ("id_estado", "IdEstado")]);
    assert_eq!(p, vec![("IdPais", s("76"))]);
    let l = lista("cidades").unwrap();
    assert_eq!(l.operacao, "listarCidades");
    assert!(l.include_unidade);
    assert_eq!(filtros_lista(&q, &l), vec![("IdPais", s("76"))]);
    let u = lista("unidades").unwrap();
    assert!(!u.include_unidade);
    assert_eq!(lista("contatos").unwrap().filtros.len(), 8);
    assert!(lista("inexistente").is_none());
}

// ---- timeline ------------------------------------------------------------

#[test]
fn lista_separada_por_virgulas() {
    assert_eq!(comma_list(&Some(s(" 1, 2 ,,3 "))), vec![s("1"), s("2"), s("3")]);
    assert!(comma_list(&None).is_empty());
}

#[test]
fn lotes_cobrem_todas_as_tarefas() {
    let q = AndamentosQuery {
        protocolo: Some(s("0001")),
        tarefas: None,
        andamentos: None,
        tarefas_modulos: None,
        sin_retornar_atributos: Some(s("s")),
        ordenar: Some(s("0")),
    };
    let plano = montar_plano(&q, 30).unwrap();
    assert_eq!(plano.lotes.len(), 7);
    assert_eq!(plano.sra, "S");
    assert!(!plano.ordenar);
    let mut todas: Vec<String> = Vec::new();
    for lote in &plano.lotes {
        assert_eq!(lote.len(), 1);
        assert_eq!(lote[0].0, "Tarefas");
        match &lote[0].1 {
            Param::Array(items) => {
                assert!(!items.is_empty() && items.len() <= 30);
                todas.extend(items.iter().cloned());
            }
            Param::Scalar(_) => panic!("array esperado"),
        }
    }
    let esperadas: Vec<String> = (1..=200).map(|n: u32| n.to_string()).collect();
    assert_eq!(todas, esperadas);
}

#[test]
fn plano_com_poucas_tarefas_e_filtros() {
    let q = AndamentosQuery {
        protocolo: Some(s("0001")),
        tarefas: Some(s("5, 6")),
        andamentos: None,
        tarefas_modulos: Some(s("9")),
        sin_retornar_atributos: None,
        ordenar: None,
    };
    let plano = montar_plano(&q, 1).unwrap();
    assert_eq!(plano.lotes.len(), 1);
    assert_eq!(plano.lotes[0].len(), 2);
    assert_eq!(plano.lotes[0][0].0, "Tarefas");
    assert_eq!(plano.lotes[0][1].0, "TarefasModulos");
    assert_eq!(plano.sra, "N");
    let extra = lote_extra(s("0001"), s("N"), vec![("Tarefas", Param::Array(vec![s("5")]))]);
    assert_eq!(extra.len(), 3);
    assert_eq!(extra[0].0, "ProtocoloProcedimento");
    let mut ruim = q;
    ruim.sin_retornar_atributos = Some(s("x"));
    assert!(matches!(montar_plano(&ruim, 1), Err(AppError::BadRequest(_))));
}

#[test]
fn ordena_por_datahora_estavel() {
    let mut arr = vec![
        registro("1", "22/11/2024 14:47:07", "b"),
        obj(vec![("IdAndamento", Json::Str(s("x")))]),
        registro("2", "30/06/2022 13:56:27", "a"),
        registro("3", "22/11/2024 14:47:07", "c"),
        registro("4", "1/7/2022", "d"),
    ];
    ordenar_por_datahora(&mut arr);
    let ids: Vec<String> = arr.iter().map(|r| texto(r.get("IdAndamento"))).collect();
    assert_eq!(ids, vec![s("2"), s("4"), s("1"), s("3"), s("x")]);
}

#[test]
fn stable_order_de_chaves() {
    let keys = vec![(1u64, vec!['b']), (0, vec!['z']), (1, vec!['a']), (0, vec!['z'])];
    assert_eq!(stable_order(&keys), vec![1, 3, 2, 0]);
}

#[test]
fn dedup_deixa_ids_unicos() {
    let mut arr = vec![
        registro("1", "01/01/2020", "a"),
        registro("1", "01/01/2020", "b"),
        registro("2", "01/01/2020", "c"),
        registro("2", "01/01/2020", "d"),
        registro("3", "01/01/2020", "e"),
    ];
    dedup_por_id(&mut arr);
    let descr: Vec<String> = arr.iter().map(|r| texto(r.get("Descricao"))).collect();
    assert_eq!(descr, vec![s("a"), s("c"), s("e")]);
}

#[test]
fn lotes_agregados() {
    assert_eq!(lote_para_lista(Json::Null).len(), 0);
    assert_eq!(lote_para_lista(obj(vec![])).len(), 1);
    assert_eq!(lote_para_lista(Json::Arr(vec![Json::Null, Json::Null])).len(), 2);
    let resumo = montar_resumo(3, 2, 10, true, 8);
    assert_eq!(resumo.get("lotes_com_dados"), Some(&Json::Num(2)));
    assert_eq!(resumo.get("parciais"), Some(&Json::Bool(true)));
    let rs = vec![
        Ok(Json::Arr(vec![registro("2", "02/01/2020", "b"), registro("1", "01/01/2020", "a")])),
        Err(AppError::Timeout),
        Ok(Json::Arr(vec![registro("1", "01/01/2020", "a")])),
    ];
    let (dados, resumo) = agregar_lotes(&rs, true, 8).unwrap();
    match &dados {
        Json::Arr(a) => {
            assert_eq!(a.len(), 2);
            assert_eq!(texto(a[0].get("IdAndamento")), "1");
        }
        other => panic!("array esperado: {other:?}"),
    }
    assert_eq!(resumo.get("lotes"), Some(&Json::Num(3)));
    assert_eq!(resumo.get("registros"), Some(&Json::Num(2)));
    assert_eq!(resumo.get("parciais"), Some(&Json::Bool(true)));
    let todas = vec![Err(AppError::Timeout), Err(AppError::Upstream(s("HTTP 504")))];
    assert!(matches!(agregar_lotes(&todas, true, 8), Err(AppError::Upstream(_))));
    let fault = vec![Ok(Json::Null), Err(AppError::SoapFault { code: s("c"), string: s("nao existe") })];
    assert!(matches!(agregar_lotes(&fault, true, 8), Err(AppError::SoapFault { .. })));
}

#[test]
fn stream_chega_ao_mesmo_resultado() {
    let rs = vec![
        Ok(Json::Arr(vec![registro("2", "02/01/2020", "b")])),
        Err(AppError::Timeout),
        Ok(Json::Arr(vec![registro("1", "01/01/2020", "a"), registro("2", "02/01/2020", "b")])),
    ];
    let mut est = estado_inicial(rs.len());
    for r in &rs {
        let r2 = match r {
            Ok(v) => Ok(v.copy()),
            Err(e) => Err(e.clone()),
        };
        let ev = passo_stream(&mut est, r2);
        assert_eq!(ev.nome, "progresso");
    }
    assert_eq!(est.ultimo_erro, Some(s("tempo de resposta do SEI esgotado")));
    let fim = fim_stream(est, true, 8);
    assert_eq!(fim.nome, "concluido");
    let (dados, resumo) = agregar_lotes(&rs, true, 8).unwrap();
    assert_eq!(fim.dados.get("dados"), Some(&dados));
    assert_eq!(fim.dados.get("resumo"), Some(&resumo));
}

#[test]
fn stream_termina_em_erro() {
    let mut est = estado_inicial(2);
    let ev = passo_stream(&mut est, Err(AppError::SoapFault { code: s("c"), string: s("negado") }));
    assert_eq!(ev.nome, "erro");
    assert_eq!(texto(ev.dados.get("erro")), "negado");
    let mut est = estado_inicial(1);
    passo_stream(&mut est, Err(AppError::SeiUnavailable));
    let fim = fim_stream(est, true, 8);
    assert_eq!(fim.nome, "erro");
    assert_eq!(texto(fim.dados.get("erro")), "SEI indisponível");
}

// ---- documents and publications -----------------------------------------

#[test]
fn numero_documento_casos() {
    assert_eq!(numero_documento("DOCUMENTO 1234567 assinado"), Some(s("1234567")));
    assert_eq!(numero_documento("documento 12345"), None);
    assert_eq!(numero_documento("Documento SEI nº 000123456-x"), Some(s("000123456")));
    assert_eq!(numero_documento("sem o termo 1234567"), None);
}

#[test]
fn documentos_e_numeros_da_timeline() {
    let tl = Json::Arr(vec![
        registro("1", "01/01/2020", "Gerado documento 1111111"),
        registro("2", "02/01/2020", "Assinado documento 1111111"),
        registro("3", "03/01/2020", "Gerado documento 2222222"),
        registro("4", "04/01/2020", "Conclusão"),
    ]);
    let docs = documentos_da_timeline(&tl);
    assert_eq!(docs.len(), 2);
    assert_eq!(texto(docs[0].get("documento")), "1111111");
    assert_eq!(texto(docs[0].get("DataHora")), "01/01/2020");
    assert_eq!(texto(docs[0].get("Andamento")), "Gerado documento 1111111");
    assert_eq!(docs[0].get("Usuario"), Some(&Json::Null));
    assert_eq!(numeros_da_timeline(&tl), vec![s("1111111"), s("2222222")]);
    assert!(documentos_da_timeline(&Json::Null).is_empty());
}

#[test]
fn publicacoes_em_ordem_e_erro_sistemico() {
    let p = publicacao_params(s("123"));
    assert_eq!(p[0], ("ProtocoloDocumento", s("123")));
    assert_eq!(p[2], ("SinRetornarAssinaturas", s("N")));
    assert!(publicacao_de(s("1"), Ok(Json::Null)).unwrap().is_none());
    assert!(publicacao_de(s("1"), Err(AppError::SoapFault { code: s("c"), string: s("f") }))
        .unwrap()
        .is_none());
    assert!(matches!(publicacao_de(s("1"), Err(AppError::Upstream(s("x")))), Err(AppError::Upstream(_))));
    let achada = publicacao_de(s("1"), Ok(Json::Num(5))).unwrap().unwrap();
    assert_eq!(texto(achada.get("documento")), "1");
    let rs = vec![
        Ok((2, Some(Json::Num(2)))),
        Ok((0, Some(Json::Num(0)))),
        Ok((1, None)),
    ];
    assert_eq!(juntar_publicacoes(rs).unwrap(), vec![Json::Num(0), Json::Num(2)]);
    let rs = vec![Ok((0, None)), Err(AppError::Timeout), Err(AppError::SeiUnavailable)];
    assert!(matches!(juntar_publicacoes(rs), Err(AppError::Timeout)));
}

// ---- laws on concrete values ----------------------------------------------

#[test]
fn vida_da_entrada_por_tipo() {
    let boa: Payload<u8> = Payload::Good(1);
    let falha: Payload<u8> = Payload::Fault { code: s("c"), string: s("f") };
    assert_eq!(vida_entrada(&boa, 300_000, 30_000), 300_000);
    assert_eq!(vida_entrada(&falha, 300_000, 30_000), 30_000);
}

fn numero(j: Option<&Json>) -> u64 {
    match j {
        Some(Json::Num(n)) => *n,
        other => panic!("número esperado, veio {other:?}"),
    }
}

#[test]
fn stream_progresso_a_cada_lote() {
    let rs = vec![
        Ok(Json::Arr(vec![registro("1", "01/01/2020", "a")])),
        Err(AppError::Timeout),
        Ok(Json::Arr(vec![registro("2", "02/01/2020", "b"), registro("3", "03/01/2020", "c")])),
    ];
    let mut est = estado_inicial(3);
    let esperado = [(1u64, 1u64, false), (2, 1, true), (3, 3, true)];
    for (r, (feitos, registros, parciais)) in rs.into_iter().zip(esperado) {
        let ev = passo_stream(&mut est, r);
        assert_eq!(ev.nome, "progresso");
        assert_eq!(numero(ev.dados.get("lotes_concluidos")), feitos);
        assert_eq!(numero(ev.dados.get("total_lotes")), 3);
        assert_eq!(numero(ev.dados.get("registros_ate_agora")), registros);
        assert_eq!(ev.dados.get("parciais"), Some(&Json::Bool(parciais)));
    }
    let fim = fim_stream(est, true, 8);
    assert_eq!(fim.nome, "concluido");
    assert_eq!(fim.dados.get("ok"), Some(&Json::Bool(true)));
}

#[test]
fn stream_para_no_primeiro_fault() {
    let mut est = estado_inicial(3);
    let ev = passo_stream(&mut est, Ok(Json::Arr(vec![registro("1", "01/01/2020", "a")])));
    assert_eq!(ev.nome, "progresso");
    let ev = passo_stream(&mut est, Err(AppError::SoapFault { code: s("c"), string: s("processo inexistente") }));
    assert_eq!(ev.nome, "erro");
    assert_eq!(ev.dados.get("ok"), Some(&Json::Bool(false)));
    assert_eq!(texto(ev.dados.get("erro")), "processo inexistente");
}

#[test]
fn stream_com_todos_os_lotes_falhos() {
    let mut est = estado_inicial(2);
    passo_stream(&mut est, Err(AppError::Timeout));
    passo_stream(&mut est, Err(AppError::Upstream(s("HTTP 504"))));
    let fim = fim_stream(est, true, 8);
    assert_eq!(fim.nome, "erro");
    assert_eq!(texto(fim.dados.get("erro")), "falha ao acessar o SEI: HTTP 504");
}

#[test]
fn timeline_ordenada_sem_ids_repetidos() {
    let rs = vec![
        Ok(Json::Arr(vec![registro("3", "03/01/2020", "c"), registro("1", "01/01/2020", "a")])),
        Ok(Json::Arr(vec![registro("1", "01/01/2020", "a"), registro("2", "02/01/2020", "b")])),
        Ok(Json::Arr(vec![registro("3", "03/01/2020", "c")])),
    ];
    let (dados, _) = agregar_lotes(&rs, true, 8).unwrap();
    let ids: Vec<String> = match &dados {
        Json::Arr(a) => a.iter().map(|r| texto(r.get("IdAndamento"))).collect(),
        other => panic!("array esperado: {other:?}"),
    };
    assert_eq!(ids, vec![s("1"), s("2"), s("3")]);
}

#[test]
fn documentos_nao_se_repetem() {
    let tl = Json::Arr(vec![
        registro("1", "01/01/2020", "Gerado documento 3333333"),
        registro("2", "02/01/2020", "Assinado documento 3333333"),
        registro("3", "03/01/2020", "Publicado documento 3333333"),
        registro("4", "04/01/2020", "Gerado documento 4444444"),
    ]);
    let docs = documentos_da_timeline(&tl);
    let nums: Vec<String> = docs.iter().map(|d| texto(d.get("documento"))).collect();
    assert_eq!(nums, vec![s("3333333"), s("4444444")]);
    assert_eq!(texto(docs[0].get("Andamento")), "Gerado documento 3333333");
}

#[test]
fn numero_documento_so_com_seis_digitos_apos_documento() {
    assert_eq!(numero_documento("Conclusão do processo na unidade"), None);
    assert_eq!(numero_documento("documento 12345 e 1234567"), None);
    assert_eq!(numero_documento("1234567 antes do documento"), None);
    assert_eq!(numero_documento("Documento nº 123456"), Some(s("123456")));
}

fn desescapar(t: &str) -> String {
    t.replace("&lt;", "<")
        .replace("&gt;", ">")
        .replace("&quot;", "\"")
        .replace("&apos;", "'")
        .replace("&amp;", "&")
}

#[test]
fn escape_reversivel() {
    assert_eq!(xml_escape("&lt;"), "&amp;lt;");
    assert_eq!(xml_escape("texto simples, sem reservas"), "texto simples, sem reservas");
    for t in ["&lt;", "a<b>&\"c'", "&amp;&amp;", "x & y"] {
        assert_eq!(desescapar(&xml_escape(t)), t);
    }
}

#[test]
fn tokens_lidos_sem_espacos_nem_vazios() {
    let c = AppConfig::from_env(&vars(&[
        ("EUSEI_TOKENS", " alfa , ,beta,, gama "),
        ("SEI_IDENTIFICACAO_SERVICO", "chave"),
    ]))
    .unwrap();
    assert_eq!(c.tokens, vec![s("alfa"), s("beta"), s("gama")]);
}

fn no(nome: &str, pai: Option<usize>, texto: Option<&str>, attrs: &[(&str, &str)]) -> XmlNode {
    XmlNode {
        element: true,
        name: s(nome),
        attrs: attrs.iter().map(|(k, v)| (s(k), s(v))).collect(),
        text: texto.map(s),
        parent: pai,
    }
}

#[test]
fn nos_viram_json() {
    let raiz = XmlNode { element: false, name: s(""), attrs: vec![], text: None, parent: None };
    let nos = vec![
        raiz,
        no("parametros", Some(0), None, &[]),
        no("Nome", Some(1), Some("  x  "), &[]),
        no("Tag", Some(1), Some("a"), &[]),
        no("Tag", Some(1), Some("b"), &[]),
        no("Lista", Some(1), None, &[]),
        no("item", Some(5), Some("1"), &[]),
        no("item", Some(5), Some("2"), &[]),
        no("Nulo", Some(1), Some("z"), &[("nil", "true")]),
        no("Vazia", Some(1), None, &[("type", "SOAP-ENC:ArrayOfString")]),
    ];
    let esperado = obj(vec![
        ("Nome", Json::Str(s("x"))),
        ("Tag", Json::Arr(vec![Json::Str(s("a")), Json::Str(s("b"))])),
        ("Lista", Json::Arr(vec![Json::Str(s("1")), Json::Str(s("2"))])),
        ("Nulo", Json::Null),
        ("Vazia", Json::Arr(vec![])),
    ]);
    assert_eq!(node_to_json(&nos, 1), esperado);
    assert_eq!(json_of_named(&nos, "parametros"), Some(esperado));
    assert_eq!(json_of_named(&nos, "ausente"), None);
    assert_eq!(json_of_prefixed(&nos, "Tag"), Some(Json::Str(s("a"))));
}

#[test]
fn nome_repetido_junta_ao_array_ja_existente() {
    let raiz = XmlNode { element: false, name: s(""), attrs: vec![], text: None, parent: None };
    let nos = vec![
        raiz,
        no("r", Some(0), None, &[]),
        no("L", Some(1), None, &[]),
        no("item", Some(2), Some("1"), &[]),
        no("L", Some(1), Some("2"), &[]),
    ];
    let esperado = obj(vec![("L", Json::Arr(vec![Json::Str(s("1")), Json::Str(s("2"))]))]);
    assert_eq!(node_to_json(&nos, 1), esperado);
}
