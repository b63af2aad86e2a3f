use eusei::andamentos::{montar_plano, parse_ordenar, AndamentosQuery};
use eusei::auth::token_valido;
use eusei::cache::{key_sei, key_sip};
use eusei::config::{AppConfig, SeiConfig, SipConfig};
use eusei::consultas::concluido;
use eusei::documentos::numero_documento;
use eusei::envelope::{build_envelope, xml_escape, Param};
use eusei::error::AppError;
use eusei::json::Json;
use eusei::sei::flag_sn;
use eusei::timeline::{datahora_key, dedup_por_id};
use eusei::xml::{extract_fault, parametros_to_json};

fn s(v: &str) -> String {
    v.to_string()
}

fn obj(fields: Vec<(&str, Json)>) -> Json {
    Json::Obj(fields.into_iter().map(|(k, v)| (k.to_string(), v)).collect())
}

#[test]
fn chave_ignora_ordem_e_distingue_operacao() {
    let a = key_sei(
        "listarSeries",
        false,
        &[("IdUnidade", Param::Scalar("1".into())), ("IdSerie", Param::Scalar("2".into()))],
    );
    let b = key_sei(
        "listarSeries",
        false,
        &[("IdSerie", Param::Scalar("2".into())), ("IdUnidade", Param::Scalar("1".into()))],
    );
    assert_eq!(a, b, "ordem dos params não deve mudar a chave");
    let c = key_sei("listarPaises", false, &[]);
    assert_ne!(a, c);
    let d = key_sei(
        "listarSeries",
        true,
        &[("IdUnidade", Param::Scalar("1".into())), ("IdSerie", Param::Scalar("2".into()))],
    );
    assert_ne!(a, d);
}

#[test]
fn chave_sei_e_sip_nao_colidem() {
    let s = key_sei("listarPermissao", false, &[("X", Param::Scalar("1".into()))]);
    let p = key_sip("listarPermissao", &[("X", Param::Scalar("1".into()))]);
    assert_ne!(s, p);
}

#[test]
fn debug_nao_vaza_segredos() {
    let cfg = AppConfig {
        bind: "127.0.0.1:18088".into(),
        tokens: vec!["super-secret-token".into()],
        sei: SeiConfig {
            url: "https://exemplo/ws".into(),
            sigla_sistema: "SIGLA".into(),
            identificacao_servico: "chave-sei-secreta".into(),
            id_unidade: "10".into(),
            timeout_secs: 60,
            andamentos_lote: 10,
            andamentos_conc: 4,
        },
        sip: SipConfig {
            url: "https://exemplo/sip".into(),
            chave_acesso: "chave-sip-secreta".into(),
            id_sistema: "SIP".into(),
        },
        log_filter: "eusei=info".into(),
    };
    let dump = cfg.debug_text();
    assert!(!dump.contains("super-secret-token"));
    assert!(!dump.contains("chave-sei-secreta"));
    assert!(!dump.contains("chave-sip-secreta"));
    assert!(dump.contains("127.0.0.1:18088"));
    assert!(dump.contains("SIGLA"));
}

#[test]
fn extrai_numero_documento() {
    assert_eq!(
        numero_documento("Gerado documento público 84230597 (Ofício)"),
        Some("84230597".to_string())
    );
    assert_eq!(numero_documento("Conclusão do processo na unidade"), None);
}

#[test]
fn ordenar_aceita_validos_e_rejeita_invalido() {
    assert!(parse_ordenar(&None).unwrap());
    assert!(parse_ordenar(&Some("".into())).unwrap());
    assert!(parse_ordenar(&Some("true".into())).unwrap());
    assert!(!parse_ordenar(&Some("false".into())).unwrap());
    assert!(!parse_ordenar(&Some("N".into())).unwrap());
    let err = parse_ordenar(&Some("abc".into())).unwrap_err();
    assert!(matches!(err, AppError::BadRequest(_)));
}

#[test]
fn chave_datahora_ordenavel() {
    let a = obj(vec![("DataHora", Json::Str(s("30/06/2022 13:56:27")))]);
    let b = obj(vec![("DataHora", Json::Str(s("22/11/2024 14:47:07")))]);
    assert!(datahora_key(&a) < datahora_key(&b));
}

#[test]
fn dedup_mantem_primeira_ocorrencia_por_id() {
    let mut arr = vec![
        obj(vec![("IdAndamento", Json::Str(s("1"))), ("x", Json::Str(s("a")))]),
        obj(vec![("IdAndamento", Json::Str(s("2"))), ("x", Json::Str(s("b")))]),
        obj(vec![("IdAndamento", Json::Str(s("1"))), ("x", Json::Str(s("c")))]),
        obj(vec![("sem_id", Json::Bool(true))]),
    ];
    dedup_por_id(&mut arr);
    assert_eq!(arr.len(), 3);
    assert_eq!(arr[0].get("x"), Some(&Json::Str(s("a"))));
    assert_eq!(arr[2].get("sem_id"), Some(&Json::Bool(true)));
}

fn query(protocolo: Option<&str>, andamentos: Option<&str>) -> AndamentosQuery {
    AndamentosQuery {
        protocolo: protocolo.map(|p| p.to_string()),
        tarefas: None,
        andamentos: andamentos.map(|a| a.to_string()),
        tarefas_modulos: None,
        sin_retornar_atributos: None,
        ordenar: None,
    }
}

#[test]
fn plano_fatiamento_so_tarefas() {
    let q = query(Some("0001"), None);
    let plano = montar_plano(&q, 10).unwrap();
    assert_eq!(plano.lotes.len(), 200_usize.div_ceil(10));
}

#[test]
fn plano_filtro_avancado_lote_unico() {
    let q = query(Some("0001"), Some("10,20,30"));
    let plano = montar_plano(&q, 10).unwrap();
    assert_eq!(plano.lotes.len(), 1);
}

#[test]
fn plano_protocolo_ausente_400() {
    let q = query(None, None);
    assert!(matches!(montar_plano(&q, 10), Err(AppError::BadRequest(_))));
}

#[test]
fn concluido_derivado_de_unidades_abertas() {
    let nil = obj(vec![("UnidadesProcedimentoAberto", Json::Null)]);
    assert_eq!(concluido(&nil, true), Json::Bool(true));
    let vazia = obj(vec![("UnidadesProcedimentoAberto", Json::Arr(vec![]))]);
    assert_eq!(concluido(&vazia, true), Json::Bool(true));
    let aberta = obj(vec![(
        "UnidadesProcedimentoAberto",
        Json::Arr(vec![obj(vec![("IdUnidade", Json::Str(s("1")))])]),
    )]);
    assert_eq!(concluido(&aberta, true), Json::Bool(false));
    let unica = obj(vec![("UnidadesProcedimentoAberto", obj(vec![("IdUnidade", Json::Str(s("1")))]))]);
    assert_eq!(concluido(&unica, true), Json::Bool(false));
    let ausente = obj(vec![("ProcedimentoFormatado", Json::Str(s("x")))]);
    assert_eq!(concluido(&ausente, true), Json::Null);
    assert_eq!(concluido(&nil, false), Json::Null);
}

#[test]
fn flag_sn_normaliza_e_rejeita_invalido() {
    assert_eq!(flag_sn(&None, true).unwrap(), "S");
    assert_eq!(flag_sn(&None, false).unwrap(), "N");
    assert_eq!(flag_sn(&Some("".into()), true).unwrap(), "S");
    assert_eq!(flag_sn(&Some("s".into()), false).unwrap(), "S");
    assert_eq!(flag_sn(&Some("N".into()), true).unwrap(), "N");
    let err = flag_sn(&Some("talvez".into()), true).unwrap_err();
    assert!(matches!(err, AppError::BadRequest(_)));
}

#[test]
fn aceita_token_valido_e_rejeita_demais() {
    let tokens = vec!["alpha".to_string(), "bravo".to_string()];
    assert!(token_valido(&tokens, "alpha"));
    assert!(token_valido(&tokens, "bravo"));
    assert!(!token_valido(&tokens, "charlie"));
    assert!(!token_valido(&tokens, ""));
    assert!(!token_valido(&tokens, "alph"));
}

#[test]
fn escapa_reservados() {
    assert_eq!(xml_escape("a & b < c"), "a &amp; b &lt; c");
}

#[test]
fn envelope_contem_operacao_e_params() {
    let env = build_envelope(
        "listarUnidades",
        &[("SiglaSistema", Param::Scalar("HORTENSIAS".into()))],
        "sei",
        "Sei",
    );
    assert!(env.contains("<sei:listarUnidades"));
    assert!(env.contains("<SiglaSistema xsi:type=\"xsd:string\">HORTENSIAS</SiglaSistema>"));
    assert!(env.contains("xmlns:sei=\"Sei\""));
}

#[test]
fn envelope_renderiza_array() {
    let env = build_envelope(
        "listarAndamentos",
        &[("Tarefas", Param::Array(vec!["1".into(), "2".into()]))],
        "sei",
        "Sei",
    );
    assert!(env.contains(
        "<Tarefas><item xsi:type=\"xsd:string\">1</item><item xsi:type=\"xsd:string\">2</item></Tarefas>"
    ));
}

#[test]
fn fault_detectado() {
    let body = r#"<env:Envelope xmlns:env="x"><env:Body><env:Fault>
            <faultcode>SOAP-ENV:Server</faultcode>
            <faultstring>Processo nao encontrado</faultstring>
            </env:Fault></env:Body></env:Envelope>"#;
    let f = extract_fault(body).unwrap();
    assert_eq!(f.1, "Processo nao encontrado");
}

#[test]
fn nil_aceita_true_e_um() {
    let xml = r#"<Resp xmlns:xsi="http://www.w3.org/2001/XMLSchema-instance"><parametros><A xsi:nil="true"/><B xsi:nil="1"/><C xsi:nil="0">x</C></parametros></Resp>"#;
    let v = parametros_to_json(xml).unwrap();
    assert_eq!(v.get("A"), Some(&Json::Null));
    assert_eq!(v.get("B"), Some(&Json::Null));
    assert_eq!(v.get("C"), Some(&Json::Str(s("x"))));
}
